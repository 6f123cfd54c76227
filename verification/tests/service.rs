//! Operations on spaces and their records.
use happyview::crypto::P256SigningKey;
use happyview::error::AppError;
use happyview::ipld::compute_record_cid;
use happyview::json::Json;
use happyview::spaces::batch::{BatchStep, BatchTurn, WriteBatch};
use happyview::spaces::commit::{verify_commit, SpaceVerifyingKey};
use happyview::spaces::credential::SpaceCredentialClaims;
use happyview::spaces::host_mode::HostMode;
use happyview::spaces::record_writes::{
    admit_write, check_swap_commit, make_written_json, require_space_scopes, written, AdmittedWrite,
    RoutedWrite, SpaceAction, WriteOp,
};
use happyview::spaces::routes::state_commit;
use happyview::spaces::service::{
    accept_invite, add_member, check_collection_allowed, check_lthash, commit_write, content_cid,
    create_invite, create_space, forwards_writes, joined_space, load_signing_key,
    no_session_to_forward, oplog_entries, put_member, read_forwarded, redeemable_invite,
    remove_member, require_membership, require_space_admin, service_signing_key, set_hash_edits,
    update_space, with_swap_record, AppliedOp, ExistingRecord, RecordChange, SpaceDetails, SpaceUpdate,
};
use happyview::spaces::transaction::{end_transaction, TransactionEnd};
use happyview::spaces::types::{
    AppAccess, MemberAccess, OplogAction, Policy, RepoState, Space, SpaceConfig, SpaceInvite,
};

fn json(text: &str) -> Json {
    Json::parse(text).unwrap()
}

fn config_with_allowed_collections(allowed: &[&str]) -> SpaceConfig {
    let mut config = SpaceConfig::default();
    config.extra.push((
        "allowedCollections".to_string(),
        Json::List(allowed.iter().map(|s| Json::Text(s.to_string())).collect()),
    ));
    config
}

fn space_with_config(config: SpaceConfig) -> Space {
    Space {
        id: "space-id".into(),
        did: "did:plc:owner".into(),
        authority_did: "did:plc:owner".into(),
        creator_did: "did:plc:owner".into(),
        type_nsid: "com.example.forum".into(),
        skey: "main".into(),
        display_name: None,
        description: None,
        read_policy: Policy::MemberList,
        write_policy: Policy::MemberList,
        app_access: AppAccess::default(),
        config,
        revision: None,
        created_at: "2026-01-01T00:00:00Z".into(),
        updated_at: "2026-01-01T00:00:00Z".into(),
    }
}

#[test]
fn content_cid_deterministic() {
    let record = json(r#"{"text": "hello"}"#);
    let cid1 = content_cid(&record).expect("encodable");
    let cid2 = content_cid(&record).expect("encodable");
    assert_eq!(cid1, cid2);
    assert!(cid1.starts_with("bafyrei"));
}

#[test]
fn content_cid_changes_for_different_records() {
    let a = content_cid(&json(r#"{"text": "hello"}"#)).expect("encodable");
    let b = content_cid(&json(r#"{"text": "world"}"#)).expect("encodable");
    assert_ne!(a, b);
}

#[test]
fn content_cid_matches_canonical_recomputation() {
    let record = json(r#"{ "$type": "com.example.item", "text": "hello" }"#);
    let minted = content_cid(&record).expect("encodable");
    assert_eq!(compute_record_cid(&record), Some(minted));
}

#[test]
fn content_cid_is_independent_of_key_order() {
    let a = content_cid(&json(r#"{ "aa": 2, "b": 1 }"#)).expect("encodable");
    let b = content_cid(&json(r#"{ "b": 1, "aa": 2 }"#)).expect("encodable");
    assert_eq!(a, b);
}

#[test]
fn content_cid_rejects_unencodable_record() {
    // A malformed `$link` cannot become an IPLD link.
    let bad = json(r#"{ "ref": { "$link": "not-a-cid" } }"#);
    assert!(matches!(
        content_cid(&bad),
        Err(AppError::BadRequest(_))
    ));
}

#[test]
fn check_collection_allowed_permits_listed_collection() {
    let space = space_with_config(config_with_allowed_collections(&["com.example.allowed"]));
    assert!(check_collection_allowed(&space, "com.example.allowed").is_ok());
}

#[test]
fn check_collection_allowed_rejects_unlisted_collection() {
    let space = space_with_config(config_with_allowed_collections(&["com.example.allowed"]));
    let err = check_collection_allowed(&space, "com.example.denied").unwrap_err();
    match err {
        AppError::BadRequest(msg) => {
            assert!(
                msg.contains("not allowed"),
                "expected 'not allowed' in message, got: {msg}"
            );
        }
        other => panic!("expected BadRequest, got: {other:?}"),
    }
}

#[test]
fn check_collection_allowed_permits_any_collection_when_config_absent() {
    let space = space_with_config(SpaceConfig::default());
    assert!(check_collection_allowed(&space, "com.example.anything").is_ok());
}

#[test]
fn check_collection_allowed_permits_any_collection_when_list_empty() {
    let space = space_with_config(config_with_allowed_collections(&[]));
    assert!(check_collection_allowed(&space, "com.example.anything").is_ok());
}

#[test]
fn swap_record_is_left_out_unless_given() {
    let body = with_swap_record(json(r#"{ "rkey": "a" }"#), None);
    assert!(body.get("swapRecord").is_none());

    let body = with_swap_record(json(r#"{ "rkey": "a" }"#), Some("bafyold"));
    assert_eq!(body.get_str("swapRecord"), Some("bafyold"));
}

/// The CIDs of a few records, computed from their DAG-CBOR by hand.
#[test]
fn content_cids_are_those_of_the_canonical_encoding() {
    for (record, cid) in [
        (r#"{"text":"hello"}"#, "bafyreidefdycgbfy3oglcb6ism3eqhyp5llsrpzxjsuac2gsy4mtrtx244"),
        (r#"{"aa":[true,null,-1,300],"b":1}"#, "bafyreieivrj5y5z6gcxbee67lghdj25wk6fd4s4rbz3kylcucyh7r2yruu"),
        (r#"{"f":1.5}"#, "bafyreie2nkbmuqct3ogd4ladzpat3zzcwnspq6ehsjwym5ak76oiakzwtu"),
        (r#"{"x":{"$bytes":"AQID"}}"#, "bafyreihhjsgtmkiqlcsz4oqagqnvkhcdleeqkuzwgyoxmcttco3cwgibny"),
    ] {
        assert_eq!(content_cid(&json(record)).unwrap(), cid, "{record}");
    }
}

fn repo_state(host_mode: HostMode) -> RepoState {
    RepoState {
        space_id: "space-id".into(),
        author_did: "did:plc:me".into(),
        lthash_state: vec![0; 2048],
        rev: None,
        hash: None,
        ikm: None,
        sig: None,
        mac: None,
        host_mode,
        sync_cursor: None,
    }
}

fn admitted(config: SpaceConfig, listed: Option<MemberAccess>, op: WriteOp) -> Result<AdmittedWrite, AppError> {
    admit_write(space_with_config(config), "did:plc:me".into(), None, false, listed, op)
}

fn create(collection: &str) -> WriteOp {
    WriteOp::Create {
        collection: collection.into(),
        rkey: None,
        value: json(r#"{"text":"hello"}"#),
    }
}

#[test]
fn create_record_rejects_non_member() {
    assert!(matches!(
        admitted(SpaceConfig::default(), None, create("c")),
        Err(AppError::Forbidden(m)) if m == "You are not a member of this space"
    ));
    assert!(matches!(
        admitted(SpaceConfig::default(), Some(MemberAccess::reader()), create("c")),
        Err(AppError::Forbidden(m)) if m == "Write access is required for this action"
    ));
}

#[test]
fn create_record_rejects_disallowed_collection() {
    let config = || config_with_allowed_collections(&["com.example.allowed"]);
    let writer = Some(MemberAccess::writer());
    assert!(matches!(
        admitted(config(), writer, create("com.example.denied")),
        Err(AppError::BadRequest(_))
    ));
    assert!(admitted(config(), writer, create("com.example.allowed")).is_ok());
}

#[test]
fn a_created_record_gets_a_key_and_its_address() {
    let write = admitted(SpaceConfig::default(), Some(MemberAccess::writer()), create("c.x")).unwrap();
    let local = match write.route(&repo_state(HostMode::Polyfill)) {
        RoutedWrite::Local(write) => write,
        RoutedWrite::Forward(_) => panic!("the repo is hosted here"),
    };
    let prepared = local.prepare("3fresh".into(), "now").unwrap();
    let planned = prepared.finish(None).unwrap();
    let uri = "at://did:plc:owner/space/com.example.forum/main/did:plc:me/c.x/3fresh";
    match &planned.change {
        RecordChange::Insert(record) => {
            assert_eq!(record.uri, uri);
            assert_eq!(record.author_did, "did:plc:me");
            assert_eq!(record.cid, content_cid(&record.record).unwrap());
        }
        other => panic!("{other:?}"),
    }
    let answer = make_written_json(written(&planned));
    assert_eq!(answer.get_str("uri"), Some(uri));
    assert_eq!(planned.op.action, OplogAction::Create);
    assert!(planned.op.old_cid.is_none());
}

#[test]
fn a_native_write_goes_to_the_users_pds() {
    let op = WriteOp::Update {
        collection: "c.x".into(),
        rkey: "k".into(),
        value: json("{}"),
        swap_record: Some("bafyold".into()),
    };
    let write = admitted(SpaceConfig::default(), Some(MemberAccess::writer()), op).unwrap();
    let forward = match write.route(&repo_state(HostMode::Native)) {
        RoutedWrite::Forward(forward) => forward,
        RoutedWrite::Local(_) => panic!("the repo is hosted elsewhere"),
    };
    assert_eq!(forward.method, "com.atproto.space.putRecord");
    assert_eq!(forward.body.get_str("repo"), Some("did:plc:me"));
    assert_eq!(forward.body.get_str("swapRecord"), Some("bafyold"));
    let done = forward.conclude(true, br#"{"uri":"at://x","cid":"bafy"}"#, "").unwrap().unwrap();
    assert_eq!((done.uri.as_str(), done.cid.as_str()), ("at://x", "bafy"));
    assert!(matches!(
        no_session_to_forward("expired"),
        AppError::Forbidden(m) if m.starts_with("this space lives on your PDS") && m.ends_with("(expired)")
    ));
    assert!(forwards_writes(&repo_state(HostMode::Native)));
    assert!(!forwards_writes(&repo_state(HostMode::Migrating)));
    assert_eq!(
        read_forwarded("m", false, b"", "nope"),
        Err(AppError::BadGateway("the user's PDS rejected m: nope".into()))
    );
    assert!(matches!(read_forwarded("m", true, b"{", ""), Err(AppError::Internal(_))));
}

#[test]
fn delete_record_forbidden_for_non_author() {
    let op = || WriteOp::Delete { collection: "c.x".into(), rkey: "k".into(), swap_record: None };
    let prepared = || {
        admitted(SpaceConfig::default(), Some(MemberAccess::writer()), op())
            .unwrap()
            .prepare("unused".into(), "now")
            .unwrap()
    };
    assert_eq!(
        prepared().lookup().as_deref(),
        Some("at://did:plc:owner/space/com.example.forum/main/did:plc:me/c.x/k")
    );
    let foreign = ExistingRecord { author_did: "did:plc:other".into(), cid: "bafy".into() };
    assert!(matches!(prepared().finish(Some(foreign)), Err(AppError::Forbidden(_))));
    let own = ExistingRecord { author_did: "did:plc:me".into(), cid: "bafy".into() };
    let planned = prepared().finish(Some(own)).unwrap();
    assert!(matches!(planned.change, RecordChange::Delete(_)));
    assert_eq!(planned.op.old_cid.as_deref(), Some("bafy"));
    assert!(prepared().finish(None).is_err());
}

#[test]
fn a_write_needs_a_scope_for_what_it_does() {
    assert_eq!(create("c").actions(), vec![SpaceAction::Create]);
    let put = WriteOp::Update {
        collection: "c".into(),
        rkey: "k".into(),
        value: Json::Null,
        swap_record: None,
    };
    assert_eq!(put.actions(), vec![SpaceAction::Create, SpaceAction::Update]);
    assert_eq!(put.action(), SpaceAction::Update);
    let space = space_with_config(SpaceConfig::default());
    assert!(require_space_scopes(&space, &vec![None, Some(true)]).is_ok());
    assert!(require_space_scopes(&space, &vec![Some(true), Some(false)]).is_err());
}

fn turn(batch: WriteBatch, fresh: &str) -> BatchTurn {
    match batch.next(fresh.into(), "now").unwrap() {
        BatchStep::Turn(turn) => turn,
        BatchStep::Done(_) => panic!("an op is left"),
    }
}

#[test]
fn a_batch_applies_its_writes_in_order() {
    let mut space = space_with_config(SpaceConfig::default());
    space.revision = Some("3rev".into());
    let delete = || WriteOp::Delete {
        collection: "c.x".into(),
        rkey: "3a".into(),
        swap_record: None,
    };
    let begin = |covered: bool, swap: Option<&str>| {
        WriteBatch::begin(
            space.copy(),
            "did:plc:me".into(),
            None,
            false,
            Some(MemberAccess::writer()),
            vec![(create("c.x"), Some(true)), (delete(), Some(covered))],
            swap,
        )
    };
    assert!(check_swap_commit(&space, Some("3rev")).is_ok());
    assert!(check_swap_commit(&space, Some("3other")).is_err());
    assert!(matches!(begin(true, Some("3other")), Err(AppError::Conflict(_))));
    assert!(matches!(begin(false, None), Err(AppError::Forbidden(_))));

    let cid = content_cid(&json(r#"{"text":"hello"}"#)).unwrap();
    let uri = format!("at://{}/space/{}/{}/did:plc:me/c.x/3a", space.did, space.type_nsid, space.skey);
    let first = turn(begin(true, Some("3rev")).unwrap(), "3a");
    assert_eq!(first.lookup(), None);
    let (change, batch) = first.finish(None).unwrap();
    assert!(matches!(change, RecordChange::Insert(r) if r.uri == uri && r.cid == cid));
    let second = turn(batch, "unused");
    assert_eq!(second.lookup(), Some(uri.clone()));
    let mine = ExistingRecord { author_did: "did:plc:me".into(), cid: cid.clone() };
    let (change, batch) = second.finish(Some(mine)).unwrap();
    assert!(matches!(change, RecordChange::Delete(u) if u == uri));
    let finished = match batch.next("unused".into(), "now").unwrap() {
        BatchStep::Done(finished) => finished,
        BatchStep::Turn(_) => panic!("every op had its turn"),
    };

    let mut state = repo_state(HostMode::Polyfill);
    state.lthash_state = vec![0; 2048];
    let edits = finished.edits(&state).unwrap();
    assert_eq!(edits.len(), 2);
    assert!(edits[0].added && edits[0].cid == cid);
    assert!(!edits[1].added && edits[1].cid == cid);
    state.lthash_state = vec![0; 3];
    assert!(finished.edits(&state).is_err());

    let key = P256SigningKey::from_slice(&[0x71; 32]).unwrap();
    let commit = finished.commit(state, "3r", vec![7; 4], &[6; 32], &key, "now").unwrap();
    assert_eq!(commit.state.rev.as_deref(), Some("3r"));
    assert_eq!(commit.applied.len(), 2);
    assert_eq!((commit.entries[0].idx, commit.entries[1].idx), (0, 1));
    assert_eq!(commit.entries[1].prev.as_deref(), Some(cid.as_str()));
    assert!(commit.entries[1].cid.is_none());
    assert_eq!(
        commit.answer.to_text(),
        format!(r#"{{"results":[{{"uri":"{uri}","cid":"{cid}"}},{{}}]}}"#)
    );
}

#[test]
fn a_batch_ends_with_the_op_that_fails() {
    let space = space_with_config(config_with_allowed_collections(&["c.x"]));
    let begin = |op: WriteOp| {
        WriteBatch::begin(
            space.copy(),
            "did:plc:me".into(),
            None,
            false,
            Some(MemberAccess::writer()),
            vec![(op, None)],
            None,
        )
        .unwrap()
    };
    assert!(begin(create("c.other")).next("3a".into(), "now").is_err());
    let delete = WriteOp::Delete { collection: "c.x".into(), rkey: "3a".into(), swap_record: None };
    let outcome = turn(begin(delete), "unused").finish(None);
    assert!(matches!(
        end_transaction(outcome.map(|_| ())),
        TransactionEnd::Rollback(AppError::NotFound(_))
    ));
    assert!(matches!(end_transaction(Ok(1)), TransactionEnd::Commit(1)));
}

#[test]
fn log_entries_are_numbered_in_the_order_of_the_ops() {
    let space = space_with_config(SpaceConfig::default());
    let op = |rkey: &str| AppliedOp {
        action: OplogAction::Create,
        collection: "c".into(),
        rkey: rkey.into(),
        new_cid: Some("new".into()),
        old_cid: None,
    };
    let entries = oplog_entries(&space, "did:plc:me", "3r", &vec![op("1"), op("2")], "now");
    assert_eq!((entries[0].idx, entries[1].idx), (0, 1));
    assert_eq!((entries[0].rkey.as_str(), entries[1].rkey.as_str()), ("1", "2"));
}

#[test]
fn an_update_takes_the_old_record_out_of_the_set() {
    let ops = vec![AppliedOp {
        action: OplogAction::Update,
        collection: "c".into(),
        rkey: "k".into(),
        new_cid: Some("new".into()),
        old_cid: Some("old".into()),
    }];
    let edits = set_hash_edits(&ops);
    assert_eq!(edits.len(), 2);
    assert!(edits.iter().any(|e| !e.added && e.cid == "old"));
    assert!(edits.iter().any(|e| e.added && e.cid == "new"));
}

#[test]
fn a_committed_state_holds_a_commit_that_verifies() {
    let key = P256SigningKey::from_slice(&[0x71; 32]).unwrap();
    let space = space_with_config(SpaceConfig::default());
    let after = commit_write(
        repo_state(HostMode::Polyfill),
        &space,
        "did:plc:me",
        "3rev",
        vec![9; 2048],
        &[5; 32],
        &key,
    )
    .unwrap();
    assert_eq!(after.rev.as_deref(), Some("3rev"));
    assert_eq!(after.lthash_state, vec![9; 2048]);
    let commit = state_commit(after).unwrap();
    let uri = "at://did:plc:owner/space/com.example.forum/main";
    let verifier = SpaceVerifyingKey::P256(key.public_key());
    assert!(verify_commit(&commit, uri, "did:plc:me", &verifier).is_ok());
    assert!(check_lthash(&repo_state(HostMode::Polyfill)).is_ok());
    let mut short = repo_state(HostMode::Polyfill);
    short.lthash_state.pop();
    assert_eq!(
        check_lthash(&short),
        Err(AppError::Internal("corrupt repo state: lthash is 2047 bytes, expected 2048".into()))
    );
}

#[test]
fn a_credential_reads_its_own_space_and_never_writes() {
    let space = space_with_config(SpaceConfig::default());
    let credential = |sub: &str| SpaceCredentialClaims {
        iss: "did:plc:owner".into(),
        sub: sub.into(),
        iat: 0,
        exp: 1,
        jti: "n".into(),
    };
    let own = credential("at://did:plc:owner/space/com.example.forum/main");
    let other = credential("at://did:plc:owner/space/com.example.forum/other");
    assert_eq!(
        require_membership(&space, Some(&own), false, None, false),
        Ok(MemberAccess::reader())
    );
    assert!(require_membership(&space, Some(&own), false, Some(MemberAccess::writer()), true).is_err());
    assert!(require_membership(&space, Some(&own), true, None, false).is_err());
    assert!(require_membership(&space, Some(&other), false, None, false).is_err());
    assert_eq!(
        require_membership(&space, Some(&other), false, Some(MemberAccess::writer()), true),
        Ok(MemberAccess::writer())
    );
}

fn details() -> SpaceDetails {
    SpaceDetails {
        display_name: Some("Forum".into()),
        description: None,
        read_policy: None,
        write_policy: None,
        app_access: None,
        config: None,
    }
}

#[test]
fn create_space_inserts_and_adds_creator_as_writer() {
    let declared = Some(vec!["com.example.post".to_string()]);
    let (space, member) =
        create_space("did:plc:me", "com.example.forum", "main", false, details(), declared, "now").unwrap();
    assert_eq!(space.authority_did, "did:plc:me");
    assert_eq!(space.display_name.as_deref(), Some("Forum"));
    assert_eq!(space.read_policy, Policy::MemberList);
    assert_eq!(member.space_id, space.id);
    assert_eq!(member.did, "did:plc:me");
    assert!(member.access.can_write());
    assert!(check_collection_allowed(&space, "com.example.post").is_ok());
    assert!(check_collection_allowed(&space, "com.example.other").is_err());
    assert!(matches!(
        create_space("did:plc:me", "com.example.forum", "main", true, details(), None, "now"),
        Err(AppError::Conflict(_))
    ));
}

#[test]
fn add_member_requires_admin() {
    let space = space_with_config(SpaceConfig::default());
    assert!(require_space_admin(&space, "did:plc:owner", None).is_ok());
    assert!(require_space_admin(&space, "did:plc:root", Some(1)).is_ok());
    assert!(matches!(
        require_space_admin(&space, "did:plc:me", Some(0)),
        Err(AppError::Forbidden(_))
    ));
    assert!(require_space_admin(&space, "did:plc:me", None).is_err());
    let member = add_member(&space, "did:plc:owner", "did:plc:new", None, None, false, "now").unwrap();
    assert_eq!(member.did, "did:plc:new");
    assert_eq!(member.granted_by.as_deref(), Some("did:plc:owner"));
    assert!(add_member(&space, "did:plc:owner", "did:plc:new", None, None, true, "now").is_err());
}

#[test]
fn a_members_credentials_are_revoked_before_the_removal() {
    let space = space_with_config(SpaceConfig::default());
    assert!(remove_member(&space, "did:plc:stranger", Some(0), "did:plc:m").is_err());
    let remove = || remove_member(&space, "did:plc:owner", None, "did:plc:m").unwrap();
    let removal = remove();
    assert_eq!(removal.credentials(), (space.id.as_str(), "did:plc:m"));
    let revoked = removal.on_revoked();
    assert_eq!(revoked.entry(), (space.id.as_str(), "did:plc:m"));
    assert!(revoked.on_removed(true).is_ok());
    assert!(matches!(
        remove().on_revoked().on_removed(false),
        Err(AppError::NotFound(m)) if m == "Member not found in this space"
    ));
}

#[test]
fn putting_a_member_keeps_an_own_records_restriction() {
    let space = space_with_config(SpaceConfig::default());
    let first = put_member(&space, "did:plc:owner", "did:plc:m", MemberAccess::reader(), None, None, "now");
    assert_eq!(first.access, MemberAccess::reader());
    let mut restricted = first;
    restricted.access = MemberAccess::self_reader();
    let again = put_member(
        &space,
        "did:plc:owner",
        "did:plc:m",
        MemberAccess::writer(),
        None,
        Some(&restricted),
        "later",
    );
    assert!(again.access.can_write());
    assert!(again.access.restricted_to_own_records());
}

#[test]
fn update_persists_changes_and_clears_with_false() {
    let mut space = space_with_config(SpaceConfig::default());
    space.display_name = Some("Old".into());
    space.description = Some("Kept".into());
    let after = update_space(
        space,
        SpaceUpdate {
            display_name: Some(None),
            description: None,
            read_policy: Some(Policy::Public),
            write_policy: None,
            app_access: None,
            config: None,
        },
    );
    assert_eq!(after.display_name, None);
    assert_eq!(after.description.as_deref(), Some("Kept"));
    assert_eq!(after.read_policy, Policy::Public);
    assert_eq!(after.write_policy, Policy::MemberList);
}

fn invite() -> SpaceInvite {
    SpaceInvite {
        id: "i".into(),
        space_id: "space-id".into(),
        token_hash: "h".into(),
        created_by: "did:plc:owner".into(),
        access: MemberAccess::writer(),
        max_uses: Some(2),
        uses: 1,
        expires_at: Some("2026-06-01T00:00:00Z".into()),
        revoked: false,
        created_at: "2026-01-01T00:00:00Z".into(),
    }
}

#[test]
fn invite_roundtrip() {
    let space = space_with_config(SpaceConfig::default());
    let (made, token) = create_invite(&space, "did:plc:owner", Some(MemberAccess::writer()), Some(1), None, "now");
    assert_eq!(made.space_id, "space-id");
    assert_ne!(made.token_hash, token);
    assert_eq!(made.token_hash, happyview::crypto::hash_text(&token));
    let redeemable = redeemable_invite(Some(made), "now").unwrap();
    let member = accept_invite(&redeemable, "did:plc:joiner", false, "now").unwrap();
    assert_eq!(member.did, "did:plc:joiner");
    assert_eq!(member.access, MemberAccess::writer());
    assert_eq!(
        joined_space(Some(&space)).unwrap(),
        "at://did:plc:owner/space/com.example.forum/main"
    );
    assert!(joined_space(None).is_err());
}

#[test]
fn accept_invite_rejects_what_has_ended() {
    let now = "2026-05-01T00:00:00Z";
    assert!(redeemable_invite(Some(invite()), now).is_ok());
    assert!(matches!(redeemable_invite(None, now), Err(AppError::NotFound(_))));
    let message = |invite: SpaceInvite, now: &str| match redeemable_invite(Some(invite), now) {
        Err(AppError::BadRequest(m)) => m,
        other => panic!("{other:?}"),
    };
    let mut revoked = invite();
    revoked.revoked = true;
    assert_eq!(message(revoked, now), "This invite has been revoked");
    let mut used = invite();
    used.uses = 2;
    assert_eq!(message(used, now), "This invite has reached its maximum uses");
    assert_eq!(message(invite(), "2026-07-01T00:00:00Z"), "This invite has expired");
    assert!(matches!(accept_invite(&invite(), "did:plc:m", true, now), Err(AppError::Conflict(_))));
}

#[test]
fn commits_are_signed_only_with_a_stored_key() {
    assert!(service_signing_key(false, Some(vec![1])).is_err());
    assert!(service_signing_key(true, None).is_err());
    assert_eq!(service_signing_key(true, Some(vec![1])).unwrap(), vec![1]);
    assert_eq!(
        load_signing_key(None),
        Err(AppError::Internal(
            "#atproto_space signing key is missing; it is provisioned at startup and on space creation".into()
        ))
    );
}
