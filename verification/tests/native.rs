//! Reading what a repo's host sends, and syncing with it.
use happyview::crypto::P256SigningKey;
use happyview::error::AppError;
use happyview::json::Json;
use happyview::profile::{DidDocument, VerificationMethod};
use happyview::spaces::commit::{
    encode_lex_bytes, sign_commit, verify_commit, SignedCommit, SpaceVerifyingKey,
};
use happyview::spaces::host_mode::HostMode;
use happyview::spaces::native_client::{
    author_signing_key, collect_repo_ops, get_latest_commit, latest_commit_params,
    latest_op_per_record, parse_repo_ops_page, parse_signed_commit, OpAction, PageStep, RepoOp,
};
use happyview::spaces::native_sync::{
    index_change, record_uri, sync_repo, IndexChange, SyncOutcome, SyncRun, SyncStart, SyncStep,
};
use happyview::spaces::types::{AppAccess, Policy, RepoState, Space, SpaceConfig};

const SPACE: &str = "at://did:plc:auth/space/com.example.forum/main";
const AUTHOR: &str = "did:plc:author";

fn commit_json(c: &SignedCommit) -> Json {
    Json::Object(vec![
        ("ver".to_string(), Json::Unsigned(c.ver as u64)),
        ("hash".to_string(), encode_lex_bytes(&c.hash)),
        ("ikm".to_string(), encode_lex_bytes(&c.ikm)),
        ("sig".to_string(), encode_lex_bytes(&c.sig)),
        ("mac".to_string(), encode_lex_bytes(&c.mac)),
        ("rev".to_string(), Json::Text(c.rev.clone())),
    ])
}

fn without(json: Json, field: &str) -> Json {
    match json {
        Json::Object(members) => {
            Json::Object(members.into_iter().filter(|(key, _)| key != field).collect())
        }
        other => other,
    }
}

/// A page in the shape both real hosts send: no `action`, and a superseded
/// op with its value withheld.
fn oplog_page() -> Json {
    Json::parse(
        r#"{
        "ops": [
            { "rev": "3a", "collection": "com.example.note", "rkey": "a", "cid": "bafya", "prev": null },
            { "rev": "3b", "collection": "com.example.note", "rkey": "b", "cid": "bafyb", "prev": null,
              "value": { "$type": "com.example.note", "text": "b" } },
            { "rev": "3c", "collection": "com.example.note", "rkey": "b", "cid": "bafyb2", "prev": "bafyb",
              "value": { "$type": "com.example.note", "text": "b2" } },
            { "rev": "3d", "collection": "com.example.note", "rkey": "a", "cid": null, "prev": "bafya" }
        ]
    }"#,
    )
    .unwrap()
}

/// The page with one of its ops changed.
fn with_op(index: usize, change: impl Fn(&mut Vec<(String, Json)>)) -> Json {
    let mut page = oplog_page();
    if let Json::Object(members) = &mut page {
        if let Json::List(ops) = &mut members[0].1 {
            if let Json::Object(op) = &mut ops[index] {
                change(op);
            }
        }
    }
    page
}

#[test]
fn an_ops_action_is_implied_by_which_cids_are_null() {
    let (ops, cursor) = parse_repo_ops_page(&oplog_page()).expect("parses");
    let actions: Vec<OpAction> = ops.iter().map(|o| o.action).collect();
    assert_eq!(
        actions,
        [
            OpAction::Create,
            OpAction::Create,
            OpAction::Update,
            OpAction::Delete
        ]
    );
    assert_eq!(ops.len(), 4, "no entry may be dropped");
    assert!(cursor.is_none());
}

#[test]
fn a_malformed_op_fails_the_page_rather_than_being_skipped() {
    let page = with_op(1, |op| op.retain(|(key, _)| key != "rkey"));
    assert!(parse_repo_ops_page(&page).is_err());

    let page = with_op(0, |op| {
        for (key, value) in op.iter_mut() {
            if key == "cid" {
                *value = Json::Null;
            }
        }
    });
    assert!(
        parse_repo_ops_page(&page).is_err(),
        "an op with neither cid nor prev describes nothing"
    );
}

#[test]
fn only_each_records_final_op_is_applied() {
    let (ops, _) = parse_repo_ops_page(&oplog_page()).unwrap();
    let latest: Vec<&str> = latest_op_per_record(&ops)
        .iter()
        .map(|o| o.rev.as_str())
        .collect();
    // `a` was created (value withheld) then deleted; `b` created then updated.
    assert_eq!(latest, ["3c", "3d"]);
}

#[test]
fn a_commit_from_the_wire_verifies_against_the_signing_key() {
    let signing = P256SigningKey::from_slice(&[0x61u8; 32]).unwrap();
    let key = SpaceVerifyingKey::P256(signing.public_key());

    let original = sign_commit(&[0xAAu8; 32], SPACE, AUTHOR, "3krev", &signing).unwrap();
    let parsed = parse_signed_commit(&commit_json(&original)).expect("parses");

    assert_eq!(parsed.rev, original.rev);
    assert_eq!(parsed.hash, original.hash);
    verify_commit(&parsed, SPACE, AUTHOR, &key).expect("a round-tripped commit must verify");
}

#[test]
fn a_commit_missing_a_field_is_rejected_rather_than_defaulted() {
    // A commit we cannot fully parse is not evidence of anything, and
    // defaulting a field would let it verify against the wrong bytes.
    for field in ["hash", "ikm", "sig", "mac", "rev"] {
        let signing = P256SigningKey::from_slice(&[0x61u8; 32]).unwrap();
        let c = sign_commit(&[0xAAu8; 32], SPACE, AUTHOR, "3krev", &signing).unwrap();
        let json = without(commit_json(&c), field);
        assert!(
            parse_signed_commit(&json).is_err(),
            "a commit without {field} must not parse"
        );
    }
}

#[test]
fn every_page_is_collected_following_the_cursor() {
    let pager = collect_repo_ops(SPACE, AUTHOR, Some("3start"));
    let first = pager.request();
    assert!(first.contains(&("space", SPACE.to_string())));
    assert!(first.contains(&("repo", AUTHOR.to_string())));
    assert!(first.contains(&("since", "3start".to_string())));
    let page = Json::parse(
        r#"{ "ops": [
            { "rev": "3a", "collection": "c.n", "rkey": "a", "cid": "bafya", "prev": null }
        ], "cursor": "3a/0" }"#,
    )
    .unwrap();
    let pager = match pager.on_page(&page).expect("collects") {
        PageStep::More(pager) => pager,
        PageStep::Done(_) => panic!("there is a cursor"),
    };
    let second = pager.request();
    assert!(second.contains(&("cursor", "3a/0".to_string())));
    assert!(
        second.contains(&("since", "3a".to_string())),
        "a continuation also carries the last rev, for hosts that ignore cursor"
    );
    let page = Json::parse(
        r#"{ "ops": [
            { "rev": "3b", "collection": "c.n", "rkey": "b", "cid": "bafyb", "prev": null }
        ] }"#,
    )
    .unwrap();
    match pager.on_page(&page).expect("collects") {
        PageStep::Done(ops) => assert_eq!(ops.len(), 2),
        PageStep::More(_) => panic!("there is no cursor"),
    }
}

#[test]
fn a_cursor_that_does_not_advance_is_an_error_not_a_hang() {
    let stuck = Json::parse(r#"{ "ops": [], "cursor": "stuck" }"#).unwrap();
    let mut pager = collect_repo_ops(SPACE, AUTHOR, None);
    loop {
        match pager.on_page(&stuck) {
            Ok(PageStep::More(next)) => pager = next,
            Ok(PageStep::Done(_)) => panic!("there is a cursor"),
            Err(_) => break,
        }
    }
}

#[test]
fn the_latest_commit_is_asked_for_and_read() {
    assert_eq!(
        latest_commit_params(SPACE, AUTHOR),
        vec![("space", SPACE.to_string()), ("repo", AUTHOR.to_string())]
    );
    let signing = P256SigningKey::from_slice(&[0x61u8; 32]).unwrap();
    let c = sign_commit(&[1u8; 32], SPACE, AUTHOR, "3krev", &signing).unwrap();
    let body = Json::Object(vec![("commit".to_string(), commit_json(&c))]);
    assert_eq!(get_latest_commit(&body).unwrap().mac, c.mac);
    assert!(get_latest_commit(&Json::Object(vec![])).is_err());
}

fn a_space() -> Space {
    Space {
        id: "s".into(),
        did: "did:plc:auth".into(),
        authority_did: "did:plc:auth".into(),
        creator_did: "did:plc:auth".into(),
        type_nsid: "com.example.forum".into(),
        skey: "main".into(),
        display_name: None,
        description: None,
        read_policy: Policy::MemberList,
        write_policy: Policy::MemberList,
        app_access: AppAccess::Open,
        config: SpaceConfig::default(),
        revision: None,
        created_at: String::new(),
        updated_at: String::new(),
    }
}

#[test]
fn a_record_uri_is_the_space_uri_plus_the_record_path() {
    let space = a_space();

    assert_eq!(
        record_uri(&space, "did:plc:me", "com.example.note", "abc"),
        "at://did:plc:auth/space/com.example.forum/main/did:plc:me/com.example.note/abc"
    );
}

fn state(host_mode: HostMode) -> RepoState {
    RepoState {
        space_id: "s".into(),
        author_did: AUTHOR.into(),
        lthash_state: vec![],
        rev: None,
        hash: None,
        ikm: None,
        sig: None,
        mac: None,
        host_mode,
        sync_cursor: Some("3".into()),
    }
}

#[test]
fn a_polyfill_repo_is_never_synced_from_upstream() {
    assert!(matches!(
        sync_repo(&state(HostMode::Polyfill)),
        SyncStart::Stop(SyncOutcome::NotNative)
    ));
    assert!(matches!(
        sync_repo(&state(HostMode::Migrating)),
        SyncStart::Stop(SyncOutcome::NotNative)
    ));
    assert!(matches!(
        sync_repo(&state(HostMode::Native)),
        SyncStart::Fetch { since: Some(since) } if since == "3"
    ));
}

/// Runs a sync over the ops of [`oplog_page`], against a commit over `hash`.
fn run_sync(hash: &[u8; 32], ours: &[u8; 32]) -> (Vec<IndexChange>, SyncOutcome, Option<RepoState>) {
    let space = a_space();
    let (ops, _) = parse_repo_ops_page(&oplog_page()).unwrap();
    let mut changes = vec![];
    let mut run = SyncRun::begin(&space, AUTHOR, &ops).expect("there are ops");
    let check = loop {
        match run.step("2026-01-01T00:00:00Z").unwrap() {
            SyncStep::Apply { change, rest } => {
                changes.push(change);
                run = rest;
            }
            SyncStep::Check(check) => break check,
        }
    };
    let signing = P256SigningKey::from_slice(&[0x61u8; 32]).unwrap();
    let commit = sign_commit(hash, SPACE, AUTHOR, "3krev", &signing).unwrap();
    let verified = check
        .verify(commit, &SpaceVerifyingKey::P256(signing.public_key()))
        .expect("the author signed it");
    let (outcome, after) = verified.conclude(state(HostMode::Native), ours, vec![1, 2, 3]);
    (changes, outcome, after)
}

#[test]
fn a_sync_applies_each_records_latest_op_and_adopts_the_commit() {
    let (changes, outcome, after) = run_sync(&[7; 32], &[7; 32]);
    assert_eq!(changes.len(), 2);
    match &changes[0] {
        IndexChange::Upsert(record) => {
            assert_eq!(record.uri, format!("{SPACE}/{AUTHOR}/com.example.note/b"));
            assert_eq!(record.cid, "bafyb2");
            assert_eq!(record.record.get_str("text"), Some("b2"));
            assert_eq!(record.indexed_at, "2026-01-01T00:00:00Z");
        }
        other => panic!("{other:?}"),
    }
    assert!(matches!(
        &changes[1],
        IndexChange::Delete(uri) if *uri == format!("{SPACE}/{AUTHOR}/com.example.note/a")
    ));
    assert_eq!(outcome, SyncOutcome::Applied { ops: 4, rev: "3d".into() });
    let after = after.unwrap();
    assert_eq!(after.sync_cursor.as_deref(), Some("3d"));
    assert_eq!(after.rev.as_deref(), Some("3krev"));
    assert_eq!(after.hash, Some(vec![7; 32]));
    assert_eq!(after.lthash_state, vec![1, 2, 3]);
}

#[test]
fn a_diverged_index_leaves_the_cursor_where_it_is() {
    let (_, outcome, after) = run_sync(&[7; 32], &[8; 32]);
    assert_eq!(
        outcome,
        SyncOutcome::Diverged {
            expected: "07".repeat(32),
            ours: "08".repeat(32),
        }
    );
    assert!(after.is_none());
}

#[test]
fn a_commit_of_another_author_ends_a_sync() {
    let space = a_space();
    let ops = vec![RepoOp {
        rev: "3a".into(),
        action: OpAction::Delete,
        collection: "c".into(),
        rkey: "k".into(),
        cid: None,
        prev: Some("bafy".into()),
        value: None,
    }];
    let run = SyncRun::begin(&space, AUTHOR, &ops).unwrap();
    let rest = match run.step("now").unwrap() {
        SyncStep::Apply { rest, .. } => rest,
        SyncStep::Check(_) => panic!("the delete comes first"),
    };
    let check = match rest.step("now").unwrap() {
        SyncStep::Check(check) => check,
        SyncStep::Apply { .. } => panic!("there is one op"),
    };
    let signing = P256SigningKey::from_slice(&[0x61u8; 32]).unwrap();
    let commit = sign_commit(&[7; 32], SPACE, "did:plc:eve", "3krev", &signing).unwrap();
    let refused = check.verify(commit, &SpaceVerifyingKey::P256(signing.public_key()));
    assert!(matches!(refused, Err(AppError::Auth(_))));
    assert!(SyncRun::begin(&space, AUTHOR, &vec![]).is_none());
}

#[test]
fn an_op_without_its_value_cannot_be_indexed() {
    let op = RepoOp {
        rev: "3a".into(),
        action: OpAction::Update,
        collection: "c".into(),
        rkey: "k".into(),
        cid: Some("bafy".into()),
        prev: Some("bafx".into()),
        value: None,
    };
    match index_change(&a_space(), AUTHOR, &op, "now") {
        Err(AppError::Internal(message)) => assert_eq!(
            message,
            format!("listRepoOps returned a Update op with no record value for {SPACE}/{AUTHOR}/c/k")
        ),
        other => panic!("{other:?}"),
    }
}

#[test]
fn an_authors_key_is_the_one_that_their_document_names() {
    let sk = P256SigningKey::from_slice(&[0x22u8; 32]).unwrap();
    let point = sk.public_key();
    let mut bytes = vec![0x80, 0x24, 2 + (point[64] & 1)];
    bytes.extend_from_slice(&point[1..33]);
    let doc = DidDocument {
        verification_method: vec![VerificationMethod {
            id: format!("{AUTHOR}#atproto"),
            public_key_multibase: Some(multibase::encode(multibase::Base::Base58Btc, bytes)),
        }],
        service: vec![],
    };
    let key = author_signing_key(&doc, AUTHOR).unwrap();
    assert!(key.verify(b"m", &sk.sign(b"m")).is_ok());
    let nobody = DidDocument { verification_method: vec![], service: vec![] };
    assert!(author_signing_key(&nobody, AUTHOR).is_err());
}
