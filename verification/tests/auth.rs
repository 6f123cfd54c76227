//! Issuing space credentials.
use happyview::crypto::P256SigningKey;
use happyview::error::AppError;
use happyview::json::Json;
use happyview::profile::DidService;
use happyview::spaces::auth::{
    check_app_access, check_authority, check_user_access_params, check_user_access_url,
    check_user_access_with_managing_app, did_document_url, generate_space_keypair,
    issue_credential, keypair_of, managing_app_did, pds_endpoint, read_access_answer, read_signing_key, AccessKind, IssueStep,
};
use happyview::spaces::commit::SpaceVerifyingKey;
use happyview::spaces::credential::{jwk_signing_key, verify_credential_with_key_at};
use happyview::spaces::types::{AppAccess, Policy, Space, SpaceConfig};

fn test_space(app_access: AppAccess) -> Space {
    Space {
        id: "test-space".into(),
        did: "did:plc:owner".into(),
        authority_did: "did:plc:owner".into(),
        creator_did: "did:plc:owner".into(),
        type_nsid: "com.example.forum".into(),
        skey: "main".into(),
        display_name: None,
        description: None,
        read_policy: Policy::MemberList,
        write_policy: Policy::MemberList,
        app_access,
        config: SpaceConfig::default(),
        revision: None,
        created_at: String::new(),
        updated_at: String::new(),
    }
}

fn get(params: &[(&str, String)], key: &str) -> Option<String> {
    params
        .iter()
        .find(|(k, _)| *k == key)
        .map(|(_, v)| v.clone())
}

const SPACE: &str = "at://did:plc:auth/space/com.example.forum/main";

#[test]
fn app_access_open_allows_any() {
    let space = test_space(AppAccess::Open);
    assert!(check_app_access(&space, Some("any-app")).is_ok());
}

#[test]
fn app_access_allowlist_permits_listed() {
    let space = test_space(AppAccess::AllowList {
        allowed: vec!["good-app".into()],
    });
    assert!(check_app_access(&space, Some("good-app")).is_ok());
    assert!(check_app_access(&space, Some("other-app")).is_err());
}

#[test]
fn app_access_allowlist_requires_client_id() {
    let space = test_space(AppAccess::AllowList { allowed: vec![] });
    assert!(check_app_access(&space, None).is_err());
}

#[test]
fn app_access_open_allows_none_client_id() {
    let space = test_space(AppAccess::Open);
    assert!(check_app_access(&space, None).is_ok());
}

#[test]
fn app_access_empty_allowlist_rejects() {
    let space = test_space(AppAccess::AllowList { allowed: vec![] });
    assert!(check_app_access(&space, Some("any-client")).is_err());
}

#[test]
fn generate_keypair_produces_valid_jwk() {
    let kp = generate_space_keypair().unwrap();
    assert_eq!(kp.get_str("kty"), Some("EC"));
    assert_eq!(kp.get_str("crv"), Some("P-256"));
    assert!(kp.get_str("d").is_some());
    assert!(kp.get_str("x").is_some());
    assert!(kp.get_str("y").is_some());
}

#[test]
fn read_checks_carry_space_user_access_and_client() {
    let params =
        check_user_access_params(SPACE, "did:plc:user", Some("https://app"), AccessKind::Read);

    assert_eq!(get(&params, "space").as_deref(), Some(SPACE));
    // The lexicon names this parameter `user`, and the reference managing
    // app reads that key.
    assert_eq!(get(&params, "user").as_deref(), Some("did:plc:user"));
    assert_eq!(get(&params, "access").as_deref(), Some("read"));
    assert_eq!(get(&params, "clientId").as_deref(), Some("https://app"));
    assert!(
        get(&params, "did").is_none(),
        "the lexicon parameter is `user`, not `did`"
    );
}

#[test]
fn access_is_always_present() {
    // Required by the lexicon: bulletin 400s without it, so omitting it
    // makes every managing-app check fail regardless of policy.
    for access in [AccessKind::Read, AccessKind::Write] {
        let params = check_user_access_params(SPACE, "did:plc:user", None, access);
        assert!(get(&params, "access").is_some());
    }
}

#[test]
fn write_checks_omit_the_client_id() {
    let params = check_user_access_params(
        SPACE,
        "did:plc:user",
        Some("https://app"),
        AccessKind::Write,
    );

    assert_eq!(get(&params, "access").as_deref(), Some("write"));
    assert!(get(&params, "clientId").is_none());
}

#[test]
fn access_kind_uses_the_lexicon_known_values() {
    assert_eq!(AccessKind::Read.as_str(), "read");
    assert_eq!(AccessKind::Write.as_str(), "write");
}

#[test]
fn a_did_plc_endpoint_is_resolved_through_the_configured_directory() {
    assert_eq!(
        did_document_url("http://plc.test/", "did:plc:resolveme").unwrap(),
        "http://plc.test/did:plc:resolveme"
    );
    let services = vec![DidService {
        id: "#atproto_pds".into(),
        service_endpoint: "http://pds.test".into(),
    }];
    assert_eq!(pds_endpoint(&services, "did:plc:resolveme").unwrap(), "http://pds.test");
    assert!(pds_endpoint(&vec![], "did:plc:resolveme").is_err());
}

#[test]
fn a_did_web_document_is_on_its_own_host() {
    assert_eq!(
        did_document_url("http://plc.test", "did:web:example.com").unwrap(),
        "https://example.com/.well-known/did.json"
    );
    assert!(did_document_url("http://plc.test", "did:key:z6Mk").is_err());
}

#[test]
fn a_managing_app_names_its_pds_or_nothing() {
    assert_eq!(managing_app_did("did:web:app").unwrap(), "did:web:app");
    assert_eq!(managing_app_did("did:web:app#atproto_pds").unwrap(), "did:web:app");
    assert_eq!(
        managing_app_did("did:web:app#forum"),
        Err(AppError::BadRequest(
            "unsupported service fragment '#forum' for managing app".into()
        ))
    );
    assert_eq!(
        check_user_access_url("https://pds.test/"),
        "https://pds.test/xrpc/com.atproto.simplespace.checkUserAccess"
    );
}

#[test]
fn only_its_own_authority_can_be_signed_for() {
    assert!(check_authority("did:web:me", "did:web:me").is_ok());
    assert!(matches!(
        check_authority("did:web:me", "did:plc:other"),
        Err(AppError::Internal(m)) if m.contains("did:plc:other") && m.contains("did:web:me")
    ));
}

#[test]
fn a_refusal_is_a_denial_and_not_an_error() {
    let yes: Result<Json, String> = Ok(Json::parse(r#"{"authorized":true}"#).unwrap());
    let silent: Result<Json, String> = Ok(Json::parse("{}").unwrap());
    let broken: Result<Json, String> = Err("eof".into());
    assert_eq!(read_access_answer(200, "200 OK", &yes), Ok(true));
    assert_eq!(read_access_answer(200, "200 OK", &silent), Ok(false));
    assert_eq!(read_access_answer(403, "403 Forbidden", &yes), Ok(false));
    assert_eq!(read_access_answer(401, "401 Unauthorized", &broken), Ok(false));
    assert_eq!(
        read_access_answer(500, "500 Internal Server Error", &yes),
        Err(AppError::Internal(
            "checkUserAccess returned unexpected status 500 Internal Server Error".into()
        ))
    );
    assert_eq!(
        read_access_answer(200, "200 OK", &broken),
        Err(AppError::Internal("checkUserAccess response parse failed: eof".into()))
    );
}

#[test]
fn a_credential_is_minted_for_the_space_and_kept_by_its_hash() {
    let space = test_space(AppAccess::Open);
    let jwk = keypair_of(&[0x33; 32]).unwrap();
    let request = match issue_credential(&space, "did:plc:user", None).unwrap() {
        IssueStep::Mint(request) => request,
        IssueStep::Ask { .. } => panic!("members are let through"),
    };
    let (issued, row) = request.mint_at(&jwk, 1_000_000, "2026-01-01T00:00:00Z").unwrap();
    assert_eq!(issued.expires_at, "1970-01-12T15:46:40+00:00");
    assert_eq!(row.issued_to, "did:plc:user");
    assert_eq!(row.space_id, "test-space");
    assert_eq!(row.token_hash.len(), 64);
    assert_ne!(row.token_hash, issued.token);

    let key = SpaceVerifyingKey::P256(jwk_signing_key(&jwk).unwrap().public_key());
    let claims = verify_credential_with_key_at(&issued.token, &key, 1_000_001).unwrap();
    assert_eq!(claims.iss, "did:plc:owner");
    assert_eq!(claims.sub, "at://did:plc:owner/space/com.example.forum/main");
    assert_eq!(claims.exp, 1_007_200);
    assert!(verify_credential_with_key_at(&issued.token, &key, 1_007_200).is_err());
}

#[test]
fn a_managing_app_is_asked_before_a_credential_is_minted() {
    let mut space = test_space(AppAccess::AllowList { allowed: vec!["app".into()] });
    space.read_policy = Policy::ManagingApp { managing_app: "did:web:m#atproto_pds".into() };
    assert!(matches!(
        issue_credential(&space, "did:plc:user", Some("other")),
        Err(AppError::Forbidden(_))
    ));
    let ask = || match issue_credential(&space, "did:plc:user", Some("app")).unwrap() {
        IssueStep::Ask { question, check } => (question, check),
        IssueStep::Mint(_) => panic!("the policy asks the app"),
    };
    let (question, check) = ask();
    let lookup = question.look_up("https://plc.directory").unwrap();
    assert_eq!(lookup.document(), ("did:web:m", "https://m/.well-known/did.json"));
    let services = vec![DidService {
        id: "#atproto_pds".into(),
        service_endpoint: "https://app.example/".into(),
    }];
    let token = lookup.on_document(&services).unwrap();
    assert_eq!(
        token.audience(),
        ("did:web:m#atproto_pds", "com.atproto.simplespace.checkUserAccess")
    );
    let request = token.on_token("jwt".into(), "did:plc:owner").unwrap();
    assert_eq!(
        request.url,
        "https://app.example/xrpc/com.atproto.simplespace.checkUserAccess"
    );
    assert_eq!(request.token, "jwt");
    assert_eq!(
        get(&request.params, "space").as_deref(),
        Some("at://did:plc:owner/space/com.example.forum/main")
    );
    assert_eq!(get(&request.params, "clientId").as_deref(), Some("app"));
    let body = Ok(Json::parse(r#"{"authorized":true}"#).unwrap());
    assert!(request.on_answer(200, "200 OK", &body).unwrap());
    assert!(check.on_answer(true).is_ok());
    let (_, check) = ask();
    assert!(matches!(
        check.on_answer(false),
        Err(AppError::Forbidden(m)) if m == "managing app denied access to this space"
    ));
    space.read_policy = Policy::ManagingApp { managing_app: "did:web:m#forum".into() };
    assert!(matches!(
        issue_credential(&space, "did:plc:user", Some("app")),
        Err(AppError::BadRequest(_))
    ));
}

#[test]
fn a_stored_key_is_the_key_that_was_made() {
    let jwk = keypair_of(&[0x44; 32]).unwrap();
    let read = read_signing_key(&jwk.to_vec()).unwrap();
    assert_eq!(read, jwk);
    let key = jwk_signing_key(&read).unwrap();
    assert_eq!(
        key.public_key(),
        P256SigningKey::from_slice(&[0x44; 32]).unwrap().public_key()
    );
    assert!(matches!(
        read_signing_key(b"{"),
        Err(AppError::Internal(m)) if m.starts_with("failed to parse signing key: ")
    ));
}

#[test]
fn a_managing_app_is_not_asked_in_anothers_name() {
    let question = |app: &str| {
        check_user_access_with_managing_app(
            app,
            "at://did:plc:owner/space/t/s",
            "did:plc:user",
            None,
            "did:plc:owner",
            AccessKind::Read,
        )
    };
    assert!(matches!(question("did:web:m#other"), Err(AppError::BadRequest(_))));
    assert!(question("did:key:m").unwrap().look_up("https://plc.directory").is_err());
    let lookup = question("did:web:m").unwrap().look_up("https://plc.directory").unwrap();
    assert!(lookup.on_document(&vec![]).is_err());
    let services = vec![DidService {
        id: "did:web:m#atproto_pds".into(),
        service_endpoint: "https://app.example".into(),
    }];
    let lookup = question("did:web:m").unwrap().look_up("https://plc.directory").unwrap();
    let token = lookup.on_document(&services).unwrap();
    assert!(matches!(
        token.on_token("jwt".into(), "did:web:elsewhere"),
        Err(AppError::Internal(m)) if m.ends_with("this instance signs as did:web:elsewhere")
    ));
}
