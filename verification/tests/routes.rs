//! The endpoints of spaces: which there are, and what they answer.
use happyview::auth::{Claims, ServiceAuth, XrpcClaims};
use happyview::crypto::K256SigningKey;
use happyview::error::AppError;
use happyview::json::Json;
use happyview::spaces::auth::IssueStep;
use happyview::spaces::credential::SpaceCredentialClaims;
use happyview::spaces::describe::{advertised_methods, describe, describe_routes, DESCRIBE_NSID, NSID_ENTRY_TYPE};
use happyview::spaces::host_mode::HostMode;
use happyview::spaces::reads::{begin_read, MemberReader, ReadStart};
use happyview::spaces::routes::{
    accept_grant_at, blob_author, blob_url, check_blob_answer, check_unregister, check_visibility,
    credential_hash, delegation_key, found_record, get_space_credential_at, invite_revoked,
    issue_delegation_token_at, latest_commit_json, legacy_method_table, list_blobs,
    lists_repos_to_all, may_delegate, ops_limit, page_limit, protocol_method_table, record_json,
    repo_state_commit_json, require_auth, require_notify_caller, space_routes, state_commit,
    Endpoint, ReadTarget,
};
use happyview::spaces::simplespace::{
    check_member_list, parse_app_access, parse_policy, requested_access, simplespace_routes,
};
use happyview::spaces::types::{
    AppAccess, MemberAccess, Policy, RepoState, Space, SpaceConfig, SpaceRecord,
};

fn a_space() -> Space {
    Space {
        id: "sp1".into(),
        did: "did:plc:owner".into(),
        authority_did: "did:plc:owner".into(),
        creator_did: "did:plc:owner".into(),
        type_nsid: "com.example.forum".into(),
        skey: "main".into(),
        display_name: None,
        description: None,
        read_policy: Policy::MemberList,
        write_policy: Policy::MemberList,
        app_access: AppAccess::Open,
        config: SpaceConfig::default(),
        revision: None,
        created_at: String::new(),
        updated_at: String::new(),
    }
}

const SPACE: &str = "at://did:plc:owner/space/com.example.forum/main";

fn user(did: &str) -> XrpcClaims {
    XrpcClaims {
        identity: Some(Claims::internal(did.into())),
        service_auth: None,
        space_credential: None,
    }
}

fn nobody() -> XrpcClaims {
    XrpcClaims { identity: None, service_auth: None, space_credential: None }
}

fn bearer(token: &str) -> XrpcClaims {
    XrpcClaims { identity: None, service_auth: None, space_credential: Some(token.into()) }
}

fn credential(sub: &str) -> SpaceCredentialClaims {
    SpaceCredentialClaims { iss: "did:plc:owner".into(), sub: sub.into(), iat: 0, exp: 1, jti: "n".into() }
}

#[test]
fn every_method_is_routed_under_its_name() {
    let routes = space_routes();
    let find = |path: &str| routes.iter().find(|(p, _)| p == path).map(|(_, e)| *e);
    assert_eq!(find("/xrpc/com.atproto.space.getRecord"), Some(Endpoint::GetRecord));
    assert_eq!(
        find("/xrpc/dev.happyview.space.getMemberGrant"),
        Some(Endpoint::GetDelegationToken)
    );
    assert_eq!(
        find("/xrpc/com.atproto.space.getDelegationToken"),
        Some(Endpoint::GetDelegationToken)
    );
    assert!(routes.len() >= protocol_method_table().len() + legacy_method_table().len());
    let management = simplespace_routes();
    let legacy = management.iter().find(|(p, _)| p.ends_with("dev.happyview.space.createSpace"));
    let current = management.iter().find(|(p, _)| p.ends_with("com.atproto.simplespace.createSpace"));
    assert_eq!(legacy.unwrap().1, current.unwrap().1);
    assert!(Endpoint::GetRecord.is_query());
    assert!(!Endpoint::CreateRecord.is_query());
    assert_eq!(Endpoint::CreateRecord.status(), 201);
    assert_eq!(Endpoint::PutMember.status(), 201);
    assert_eq!(Endpoint::DeleteRecord.status(), 200);
    assert_eq!(Endpoint::GetRecord.status(), 200);
}

#[test]
fn what_is_advertised_is_what_is_routed() {
    let methods = advertised_methods(true);
    assert!(methods.contains(&"com.atproto.space.getRecord".to_string()));
    assert!(!methods.iter().any(|m| m.starts_with("dev.happyview")));
    let mut sorted = methods.clone();
    sorted.sort();
    assert_eq!(methods, sorted);
    let without = advertised_methods(false);
    assert!(!without.contains(&"com.atproto.space.getRecord".to_string()));
    let body = describe(&methods);
    let entries = body.get("methods").unwrap().as_list().unwrap();
    assert_eq!(entries.len(), methods.len());
    assert_eq!(entries[0].get_str("$type"), Some(NSID_ENTRY_TYPE));
    assert_eq!(entries[0].get_str("value"), Some(methods[0].as_str()));
    assert_eq!(DESCRIBE_NSID, "community.lexicon.service.describe");
    assert_eq!(
        describe_routes(),
        vec![("/xrpc/community.lexicon.service.describe".to_string(), Endpoint::Describe)]
    );
}

#[test]
fn callers_are_told_apart() {
    assert!(matches!(
        require_auth(&nobody()),
        Err(AppError::Auth(m)) if m == "This endpoint requires authentication"
    ));
    assert_eq!(require_auth(&user("did:plc:u")).unwrap().did(), "did:plc:u");
    let service = XrpcClaims {
        identity: None,
        service_auth: Some(ServiceAuth { did: "did:web:s".into() }),
        space_credential: None,
    };
    assert_eq!(require_notify_caller(&service).unwrap(), "did:web:s");
    assert!(require_notify_caller(&bearer("t")).is_err());
    assert_eq!(
        credential_hash("abc"),
        "ba7816bf8f01cfea414140de5dae2223b00361a396177a9cb410ff61f20015ad"
    );
}

fn member(claims: XrpcClaims, listed: Option<MemberAccess>) -> Result<MemberReader, AppError> {
    match begin_read(claims)? {
        ReadStart::Known(reader) => reader.on_space(Some(a_space()))?.on_membership(None, false, listed),
        ReadStart::Verify(_) => panic!("there is a session"),
    }
}

#[test]
fn a_read_needs_a_caller_a_space_and_membership() {
    assert!(matches!(begin_read(nobody()), Err(AppError::Auth(_))));
    let reader = match begin_read(user("did:plc:u")).unwrap() {
        ReadStart::Known(reader) => reader,
        ReadStart::Verify(_) => panic!("there is a session"),
    };
    assert!(matches!(reader.on_space(None), Err(AppError::NotFound(_))));
    assert!(matches!(member(user("did:plc:u"), None), Err(AppError::Forbidden(_))));
    let reader = member(user("did:plc:u"), Some(MemberAccess::reader())).unwrap();
    assert_eq!(reader.scope_for("did:plc:u"), Some(ReadTarget::ReadSelf));
    assert_eq!(reader.scope_for("did:plc:v"), Some(ReadTarget::Read));
    assert_eq!(reader.listed_repo(None).as_deref(), Some("did:plc:u"));
    assert_eq!(reader.listed_repo(Some("did:plc:v".into())).as_deref(), Some("did:plc:v"));
    let read = reader.authorize("did:plc:v".into(), Some(true)).unwrap();
    assert_eq!(read.subject().1, "did:plc:v");
    let reader = member(user("did:plc:u"), Some(MemberAccess::reader())).unwrap();
    assert!(matches!(reader.authorize("did:plc:v".into(), Some(false)), Err(AppError::Forbidden(_))));
}

#[test]
fn who_reads_only_own_records_gets_no_others() {
    let reader = || member(user("did:plc:u"), Some(MemberAccess::self_reader())).unwrap();
    assert_eq!(reader().listed_repo(Some("did:plc:v".into())).as_deref(), Some("did:plc:u"));
    assert!(reader().authorize("did:plc:v".into(), None).is_err());
    assert!(reader().authorize("did:plc:u".into(), None).is_ok());
}

#[test]
fn the_bearer_of_a_credential_reads_its_whole_space() {
    let unverified = || match begin_read(bearer("token")).unwrap() {
        ReadStart::Verify(unverified) => unverified,
        ReadStart::Known(_) => panic!("there is no session"),
    };
    assert_eq!(unverified().credential(), "token");
    assert!(matches!(
        unverified().on_verified(Ok(credential(SPACE)), true),
        Err(AppError::Auth(m)) if m == "space credential has been revoked"
    ));
    assert!(unverified().on_verified(Err(AppError::Auth("bad".into())), false).is_err());
    let reader = unverified().on_verified(Ok(credential(SPACE)), false).unwrap();
    let in_space = reader.on_space(Some(a_space())).unwrap();
    assert_eq!(in_space.question().2, Some("token"));
    let reader = in_space.on_membership(Some(&credential(SPACE)), false, None).unwrap();
    assert_eq!(reader.scope_for("did:plc:v"), None);
    assert_eq!(reader.listed_repo(None), None);
    assert!(reader.authorize("did:plc:v".into(), None).is_ok());
    let elsewhere = unverified()
        .on_verified(Ok(credential("at://did:plc:x/space/t/s")), false)
        .unwrap()
        .on_space(Some(a_space()))
        .unwrap();
    assert!(elsewhere
        .on_membership(Some(&credential("at://did:plc:x/space/t/s")), false, None)
        .is_err());
}

fn record(rkey: &str, value: &str) -> SpaceRecord {
    SpaceRecord {
        uri: format!("{SPACE}/did:plc:u/c.x/{rkey}"),
        space_id: "sp1".into(),
        author_did: "did:plc:u".into(),
        collection: "c.x".into(),
        rkey: rkey.into(),
        record: Json::parse(value).unwrap(),
        cid: "bafy".into(),
        indexed_at: "now".into(),
    }
}

fn sealed_state() -> RepoState {
    RepoState {
        space_id: "sp1".into(),
        author_did: "did:plc:u".into(),
        lthash_state: vec![],
        rev: Some("3rev".into()),
        hash: Some(vec![1; 32]),
        ikm: Some(vec![2; 32]),
        sig: Some(vec![3; 64]),
        mac: Some(vec![4; 32]),
        host_mode: HostMode::Polyfill,
        sync_cursor: None,
    }
}

#[test]
fn a_repo_is_shown_with_its_latest_commit() {
    let shown = latest_commit_json(&sealed_state()).unwrap();
    assert_eq!(shown.get_str("rev"), Some("3rev"));
    let commit = shown.get("commit").unwrap();
    assert_eq!(commit.get_u64("ver"), Some(1));
    assert!(commit.get("sig").unwrap().get_str("$bytes").is_some());
    let mut empty = sealed_state();
    empty.hash = None;
    assert_eq!(repo_state_commit_json(&empty), Ok(None));
    assert!(matches!(state_commit(empty), Err(AppError::NotFound(_))));
    let mut corrupt = sealed_state();
    corrupt.mac = None;
    assert!(matches!(repo_state_commit_json(&corrupt), Err(AppError::Internal(_))));
    let mut corrupt = sealed_state();
    corrupt.ikm = Some(vec![2; 31]);
    assert!(matches!(
        state_commit(corrupt),
        Err(AppError::Internal(m)) if m == "corrupt repo state: ikm is not 32 bytes"
    ));
    let read = member(user("did:plc:u"), Some(MemberAccess::reader()))
        .unwrap()
        .authorize("did:plc:u".into(), None)
        .unwrap();
    let archive = read.get_repo(sealed_state(), &vec![record("1", r#"{"a":1}"#)]).unwrap();
    assert!(archive.len() > 100);
}

#[test]
fn a_record_is_shown_with_its_address_and_value() {
    let shown = record_json(record("1", r#"{"a":1}"#));
    assert_eq!(shown.get_str("cid"), Some("bafy"));
    assert_eq!(shown.get("value").unwrap().get_u64("a"), Some(1));
    assert!(matches!(found_record(None), Err(AppError::NotFound(m)) if m == "Record not found"));
    assert!(found_record(Some(record("1", "{}"))).is_ok());
}

fn with_blob(rkey: &str, cid: &str) -> SpaceRecord {
    record(rkey, &format!(r#"{{"image":{{"$type":"blob","ref":{{"$link":"{cid}"}}}}}}"#))
}

#[test]
fn blobs_are_listed_once_and_in_order() {
    let records = vec![with_blob("1", "bafc"), with_blob("2", "bafa"), with_blob("3", "bafb"), with_blob("4", "bafa")];
    let (page, cursor) = list_blobs(&records, None, None);
    assert_eq!(page, vec!["bafa", "bafb", "bafc"]);
    assert_eq!(cursor, None);
    let (page, cursor) = list_blobs(&records, None, Some(2));
    assert_eq!(page, vec!["bafa", "bafb"]);
    let cursor = cursor.expect("there is more");
    let (page, cursor) = list_blobs(&records, Some(&cursor), Some(2));
    assert_eq!(page, vec!["bafc"]);
    assert_eq!(cursor, None);
}

#[test]
fn a_blob_comes_from_its_authors_pds() {
    assert_eq!(
        blob_url("https://pds.example", "did:plc:u", "bafy"),
        "https://pds.example/xrpc/com.atproto.sync.getBlob?did=did%3Aplc%3Au&cid=bafy"
    );
    assert!(check_blob_answer(true, "200 OK", "bafy").is_ok());
    assert!(check_blob_answer(false, "404 Not Found", "bafy").is_err());
    assert!(matches!(blob_author(None), Err(AppError::NotFound(_))));
    assert_eq!(blob_author(Some("did:plc:u".into())).unwrap(), "did:plc:u");
}

#[test]
fn pages_have_a_limit() {
    assert_eq!((page_limit(None), page_limit(Some(7)), page_limit(Some(1000))), (50, 7, 100));
    assert_eq!((ops_limit(None), ops_limit(Some(0)), ops_limit(Some(5000))), (100, 1, 1000));
}

#[test]
fn a_private_space_is_hidden_from_strangers() {
    let mut space = a_space();
    assert!(matches!(check_visibility(&space, &nobody(), false), Err(AppError::Auth(_))));
    assert!(matches!(check_visibility(&space, &user("did:plc:u"), false), Err(AppError::NotFound(_))));
    assert!(check_visibility(&space, &user("did:plc:u"), true).is_ok());
    assert!(check_visibility(&space, &user("did:plc:owner"), false).is_ok());
    assert!(check_member_list(&space, &user("did:plc:u"), false).is_err());
    space.config.membership_public = true;
    assert!(check_visibility(&space, &nobody(), false).is_ok());
    assert!(check_member_list(&space, &nobody(), false).is_ok());
    assert!(!lists_repos_to_all(&a_space()));
}

#[test]
fn notifications_are_unregistered_by_their_service_or_an_admin() {
    let space = a_space();
    assert!(check_unregister(&space, "did:web:s", "did:web:s", None).is_ok());
    assert!(check_unregister(&space, "did:plc:owner", "did:web:s", None).is_ok());
    assert!(check_unregister(&space, "did:plc:u", "did:web:s", None).is_err());
    assert!(invite_revoked(true).is_ok());
    assert!(matches!(invite_revoked(false), Err(AppError::NotFound(_))));
}

#[test]
fn a_delegation_is_exchanged_by_its_holder_while_it_lasts() {
    let secret = [0x42u8; 32];
    assert!(matches!(delegation_key(None), Err(AppError::Internal(_))));
    let key = delegation_key(Some(&secret)).unwrap();
    assert_eq!(key.public_key(), K256SigningKey::from_slice(&secret).unwrap().public_key());
    assert!(may_delegate(&a_space(), Some(MemberAccess::reader()), Some(true)).is_ok());
    assert!(may_delegate(&a_space(), Some(MemberAccess::self_reader()), Some(true)).is_err());
    assert!(may_delegate(&a_space(), Some(MemberAccess::reader()), Some(false)).is_err());
    assert!(may_delegate(&a_space(), None, None).is_err());
    let (grant, expires_at) = issue_delegation_token_at(&a_space(), "did:plc:u", &key, 1000).unwrap();
    assert_eq!(expires_at, "1970-01-01T00:17:40+00:00");
    let claims = accept_grant_at(&grant, "did:plc:u", Some(&secret), 1059).unwrap();
    assert_eq!(claims.sub, SPACE);
    assert!(accept_grant_at(&grant, "did:plc:u", Some(&secret), 1060).is_err());
    assert!(matches!(
        accept_grant_at(&grant, "did:plc:eve", Some(&secret), 1001),
        Err(AppError::Forbidden(_))
    ));
    assert!(accept_grant_at(&grant, "did:plc:u", Some(&[0x43; 32]), 1001).is_err());
    assert!(accept_grant_at("nonsense", "did:plc:u", Some(&secret), 1001).is_err());

    assert!(get_space_credential_at(&nobody(), &grant, Some(&secret), 1001).is_err());
    let exchange = get_space_credential_at(&user("did:plc:u"), &grant, Some(&secret), 1001).unwrap();
    assert_eq!(exchange.space(), SPACE);
    let exchange = exchange.on_space(Some(a_space())).unwrap();
    assert_eq!(exchange.question().0, "did:plc:u");
    let exchange = exchange.on_membership(Some(MemberAccess::reader())).unwrap();
    assert!(matches!(exchange.issue(None), Ok(IssueStep::Mint(_))));
    let removed = get_space_credential_at(&user("did:plc:u"), &grant, Some(&secret), 1001)
        .unwrap()
        .on_space(Some(a_space()))
        .unwrap();
    assert!(matches!(removed.on_membership(None), Err(AppError::Forbidden(_))));
}

#[test]
fn policies_are_read_from_requests() {
    let public = Json::parse(r#"{"$type":"com.atproto.simplespace.defs#publicPolicy"}"#).unwrap();
    assert_eq!(parse_policy(Some(&public), "readPolicy").unwrap(), Some(Policy::Public));
    assert_eq!(parse_policy(None, "readPolicy").unwrap(), None);
    assert!(matches!(
        parse_policy(Some(&Json::Text("public".into())), "readPolicy"),
        Err(AppError::BadRequest(_)) | Err(AppError::XrpcError { .. })
    ));
    let open = Json::parse(r#"{"$type":"com.atproto.simplespace.defs#open"}"#).unwrap();
    assert_eq!(parse_app_access(Some(&open)).unwrap(), Some(AppAccess::Open));
    assert!(parse_app_access(Some(&Json::Bool(true))).is_err());
    assert_eq!(requested_access(true, true), MemberAccess::writer());
    assert_eq!(requested_access(true, false), MemberAccess::reader());
}
