//! Clients, their keys and their sessions.
use base64::engine::general_purpose::URL_SAFE_NO_PAD;
use base64::Engine;
use sha2::{Digest, Sha256};

use happyview::error::AppError;
use happyview::json::Json;
use happyview::oauth::client_auth::{
    authenticate_confidential, authenticate_public, effective_scopes, expand_permission_set, included_scopes, is_include,
    lex_permission, read_permission_set, resolve_client_by_key, validate_scopes, verify_pkce,
    ClientRow, IncludedPermission, LexValue, ResolvedClient,
};
use happyview::oauth::client_keys::{ClientKey, KeyStatus};
use happyview::oauth::routes::{
    authenticate_request_client, client_auth_of, concerned_session, dpop_credentials, dpop_htu, is_confidential,
    make_provision_id, mint_client_assertion, provision_dpop_key, register_session, AssertionBody,
    AssertionStep, AuthenticatedClient, ClientAuth, ProvisionedKey, RegisterSessionBody, RequestAuth,
    SessionAuthHeaders,
};
use happyview::spaces::auth::generate_space_keypair;

#[test]
fn verify_pkce_valid() {
    let verifier = "test-verifier-string-12345678901234567890";
    let hash = Sha256::digest(verifier.as_bytes());
    let challenge = URL_SAFE_NO_PAD.encode(hash);

    assert!(verify_pkce(&challenge, verifier));
}

#[test]
fn verify_pkce_invalid() {
    assert!(!verify_pkce("wrong-challenge", "some-verifier"));
}

fn hex_sha256(text: &str) -> String {
    Sha256::digest(text.as_bytes()).iter().map(|b| format!("{b:02x}")).collect()
}

fn challenge_of(verifier: &str) -> String {
    URL_SAFE_NO_PAD.encode(Sha256::digest(verifier.as_bytes()))
}

fn row(client_type: &str, origins: Option<&str>) -> ClientRow {
    ClientRow {
        id: "client-1".into(),
        client_key: "hvc_1".into(),
        client_type: client_type.into(),
        scopes: "atproto repo:*".into(),
        allowed_origins: origins.map(str::to_string),
        client_secret_hash: hex_sha256("secret"),
    }
}

#[test]
fn a_confidential_client_proves_itself_by_its_secret() {
    let client = authenticate_confidential(Some(row("confidential", None)), "secret").unwrap();
    assert_eq!(client.id, "client-1");
    assert!(matches!(
        authenticate_confidential(Some(row("confidential", None)), "wrong"),
        Err(AppError::Auth(_))
    ));
    assert!(matches!(authenticate_confidential(None, "secret"), Err(AppError::Auth(_))));
    assert!(resolve_client_by_key(None).is_err());
    assert_eq!(resolve_client_by_key(Some(row("public", None))).unwrap().client_key, "hvc_1");
}

#[test]
fn a_public_client_is_used_from_its_origins() {
    let origins = Some(r#"["https://app.example"]"#);
    assert!(authenticate_public(Some(row("public", origins)), Some("https://app.example")).is_ok());
    assert!(authenticate_public(Some(row("public", origins)), Some("https://evil.example")).is_err());
    assert!(authenticate_public(None, Some("https://app.example")).is_err());
}

fn list(items: &[&str]) -> Vec<String> {
    items.iter().map(|s| s.to_string()).collect()
}

#[test]
fn a_token_names_atproto_and_nothing_uncovered() {
    assert_eq!(
        validate_scopes(&list(&["repo:a"]), &vec![true]),
        Err(AppError::BadRequest("token must include the 'atproto' scope".into()))
    );
    assert!(validate_scopes(&list(&["atproto", "repo:a"]), &vec![true, true]).is_ok());
    assert_eq!(
        validate_scopes(&list(&["atproto", "repo:a"]), &vec![true, false]),
        Err(AppError::BadRequest("scope 'repo:a' is not allowed for this client".into()))
    );
}

#[test]
fn included_sets_are_put_in_place_of_their_name() {
    assert!(is_include("include:com.example.perms"));
    assert!(!is_include("repo:com.example.post"));
    let effective = effective_scopes(
        &list(&["atproto", "include:com.example.perms"]),
        &vec![vec![], list(&["repo:com.example.post"])],
    );
    assert!(effective.contains(&"atproto".to_string()));
    assert!(effective.contains(&"repo:com.example.post".to_string()));
}

#[test]
fn a_permission_is_read_with_its_parameters() {
    let permission = lex_permission(
        &Json::parse(
            r#"{"type":"permission","resource":"repo","collection":["com.example.post"],"inheritAud":true}"#,
        )
        .unwrap(),
    )
    .unwrap();
    assert_eq!(permission.resource, "repo");
    assert!(permission.params.iter().any(|(key, value)| key == "collection"
        && matches!(value, LexValue::List(items) if *items == list(&["com.example.post"]))));
    assert!(permission
        .params
        .iter()
        .any(|(key, value)| key == "inheritAud" && matches!(value, LexValue::Bool(true))));
    assert!(lex_permission(&Json::Text("repo".into())).is_none());
    let set = read_permission_set(
        &Json::parse(
            r#"{"defs":{"main":{"type":"permission-set","permissions":[{"type":"permission","resource":"rpc"}]}}}"#,
        )
        .unwrap(),
    )
    .unwrap();
    assert_eq!(set.len(), 1);
    assert_eq!(set[0].resource, "rpc");
    assert!(read_permission_set(&Json::parse("{}").unwrap()).is_none());
}

#[test]
fn an_included_permission_grants_each_of_its_scopes() {
    let scopes = included_scopes(&IncludedPermission::Repo {
        collection: list(&["com.example.a", "com.example.b"]),
        action: list(&["create", "delete"]),
    });
    assert_eq!(
        scopes,
        list(&[
            "repo:com.example.a?action=create",
            "repo:com.example.a?action=delete",
            "repo:com.example.b?action=create",
            "repo:com.example.b?action=delete",
        ])
    );
    let scopes = included_scopes(&IncludedPermission::Rpc {
        lxm: list(&["com.example.q"]),
        aud: "did:web:a#s".into(),
    });
    assert_eq!(scopes, list(&["rpc:com.example.q?aud=did%3Aweb%3Aa%23s"]));
}

#[test]
fn a_permission_set_expands_to_the_scopes_of_its_permissions_in_order() {
    let set = vec![
        IncludedPermission::Space {
            space_type: "com.example.forum".into(),
            authority: "*".into(),
            skey: "main".into(),
            collection: list(&["com.example.post"]),
            action: list(&["read", "create"]),
            manage: list(&["members"]),
        },
        IncludedPermission::Rpc { lxm: list(&["com.example.q"]), aud: "*".into() },
    ];
    assert_eq!(
        expand_permission_set(&set),
        list(&[
            "space:com.example.forum?authority=%2A&skey=main&collection=com.example.post&action=read&action=create&manage=members",
            "rpc:com.example.q?aud=%2A",
        ])
    );
    assert!(expand_permission_set(&vec![]).is_empty());
}

fn headers(key: Option<&str>, secret: Option<&str>, auth: Option<&str>, proof: Option<&str>) -> SessionAuthHeaders {
    SessionAuthHeaders::from_values(
        key.map(str::to_string),
        secret.map(str::to_string),
        auth.map(str::to_string),
        proof.map(str::to_string),
        None,
    )
}

#[test]
fn a_request_authenticates_by_secret_or_by_proof() {
    assert!(matches!(
        client_auth_of(&headers(None, Some("s"), None, None)),
        Err(AppError::Auth(m)) if m == "X-Client-Key header required"
    ));
    assert!(matches!(
        client_auth_of(&headers(Some("k"), Some("s"), None, None)),
        Ok(ClientAuth::Secret(s)) if s == "s"
    ));
    assert!(matches!(client_auth_of(&headers(Some("k"), None, None, None)), Ok(ClientAuth::Dpop)));
    assert_eq!(
        dpop_credentials(&headers(Some("k"), None, Some("DPoP token"), Some("proof"))).unwrap(),
        ("token".to_string(), "proof".to_string())
    );
    for (auth, proof, message) in [
        (None, Some("p"), "DPoP auth requires Authorization: DPoP <token>"),
        (Some("Bearer t"), Some("p"), "DPoP auth requires the DPoP authorization scheme"),
        (Some("DPoP t"), None, "DPoP auth requires a DPoP proof header"),
    ] {
        assert_eq!(
            dpop_credentials(&headers(Some("k"), None, auth, proof)),
            Err(AppError::Auth(message.into()))
        );
    }
    assert_eq!(headers(Some("k"), None, None, None).host, "localhost");
    assert_eq!(dpop_htu("https://hv.example", "hv.example", "/oauth/sessions"), "https://hv.example/oauth/sessions");
    assert_eq!(dpop_htu("http://localhost", "localhost:3000", "/p"), "http://localhost:3000/p");
}

#[test]
fn a_key_is_provisioned_for_a_client_that_proves_itself() {
    let request = |key: Option<&str>, has_key: bool, secret: Option<&str>, challenge: Option<&str>| {
        provision_dpop_key(
            key.map(str::to_string),
            has_key,
            secret.map(str::to_string),
            challenge.map(str::to_string),
            Some("https://app.example".into()),
        )
    };
    assert!(matches!(request(None, true, Some("secret"), None), Err(AppError::Auth(_))));
    assert!(matches!(request(Some("hvc_1"), false, Some("secret"), None), Err(AppError::Internal(_))));
    assert!(matches!(
        request(Some("hvc_1"), true, None, None),
        Err(AppError::BadRequest(m)) if m == "public clients must provide pkce_challenge"
    ));
    let waiting = request(Some("hvc_1"), true, Some("secret"), None).unwrap();
    assert_eq!(waiting.client(), "hvc_1");
    let provision = waiting.on_client(Some(row("confidential", None))).unwrap();
    assert_eq!(provision.client.id, "client-1");
    assert!(provision.provision_id.starts_with("hvp_"));
    assert_eq!(provision.provision_id.len(), 36);
    assert!(provision.pkce_challenge.is_none());
    let waiting = request(Some("hvc_1"), true, None, Some("c")).unwrap();
    let provision = waiting
        .on_client(Some(row("public", Some(r#"["https://app.example"]"#))))
        .unwrap();
    assert_eq!(provision.pkce_challenge.as_deref(), Some("c"));
    assert!(request(Some("hvc_1"), true, Some("wrong"), None)
        .unwrap()
        .on_client(Some(row("confidential", None)))
        .is_err());
    assert_ne!(make_provision_id(), make_provision_id());
    assert!(is_confidential(true, Some(true), false));
    assert!(is_confidential(true, None, true));
    assert!(!is_confidential(false, Some(true), true));
}

fn body(verifier: Option<&str>) -> RegisterSessionBody {
    RegisterSessionBody {
        provision_id: "hvp_1".into(),
        pkce_verifier: verifier.map(str::to_string),
        did: "did:plc:u".into(),
        access_token: "at".into(),
        refresh_token: None,
        expires_at: None,
        scopes: "atproto  repo:a".into(),
        pds_url: Some("https://pds".into()),
        issuer: None,
    }
}

fn provisioned(client_id: &str, verifier: Option<&str>) -> ProvisionedKey {
    ProvisionedKey {
        dpop_key_id: "key-1".into(),
        client_id: client_id.into(),
        pkce_challenge: verifier.map(challenge_of),
    }
}

#[test]
fn a_session_is_registered_for_whom_the_token_belongs_to() {
    let start = register_session(Some("hvc_1".into()), Some("secret".into()), body(None), true).unwrap();
    assert_eq!(start.provision_id(), "hvp_1");
    let awaiting = start.on_provision(provisioned("client-1", None)).unwrap();
    assert_eq!(awaiting.client(), "hvc_1");
    let client = awaiting
        .on_client(Some(row("confidential", None)))
        .unwrap();
    assert_eq!(client.scopes(), ("atproto  repo:a", "atproto repo:*"));
    let token = client.on_scopes(Ok(())).unwrap();
    assert_eq!(token.claim(), ("did:plc:u", "at"));
    let verified = token.on_token("did:plc:u").unwrap();
    assert_eq!(verified.client_id(), "client-1");
    let registered = verified.finish(Some("kid".into()));
    assert_eq!(registered.row.client_id, "client-1");
    assert_eq!(registered.row.dpop_key_id, "key-1");
    assert_eq!(registered.row.did, "did:plc:u");
    assert_eq!(registered.row.signing_kid.as_deref(), Some("kid"));
    assert_eq!(registered.scopes, list(&["atproto", "repo:a"]));
    assert!(!registered.refreshable);
}

#[test]
fn a_registration_fails_where_something_does_not_hold() {
    assert!(matches!(
        register_session(None, None, body(None), false),
        Err(AppError::Auth(m)) if m == "X-Client-Key header required"
    ));
    assert!(matches!(
        register_session(Some("hvc_1".into()), None, body(None), false),
        Err(AppError::Internal(m)) if m == "TOKEN_ENCRYPTION_KEY not configured"
    ));
    let public = |verifier: Option<&str>| register_session(Some("hvc_1".into()), None, body(verifier), true).unwrap();
    let message = |r: Result<_, AppError>| match r.map(|_: happyview::oauth::routes::AwaitingClient| ()) {
        Err(AppError::BadRequest(m)) | Err(AppError::Auth(m)) => m,
        other => panic!("{other:?}"),
    };
    assert_eq!(
        message(public(None).on_provision(provisioned("client-1", Some("v")))),
        "public clients must provide pkce_verifier"
    );
    assert_eq!(
        message(public(Some("v")).on_provision(provisioned("client-1", None))),
        "no PKCE challenge found for this provision"
    );
    assert_eq!(
        message(public(Some("w")).on_provision(provisioned("client-1", Some("v")))),
        "PKCE verification failed"
    );
    let waiting = || public(Some("v")).on_provision(provisioned("client-2", Some("v"))).unwrap();
    assert!(matches!(
        waiting().on_client(Some(row("public", None))),
        Err(AppError::Auth(m)) if m == "provision_id does not belong to this client"
    ));
    assert!(matches!(waiting().on_client(None), Err(AppError::Auth(m)) if m == "unknown client"));
    let scopes = || {
        public(Some("v"))
            .on_provision(provisioned("client-1", Some("v")))
            .unwrap()
            .on_client(Some(row("public", None)))
            .unwrap()
    };
    let refused = validate_scopes(&list(&["atproto", "repo:a"]), &vec![true, false]);
    assert!(matches!(
        scopes().on_scopes(refused),
        Err(AppError::BadRequest(m)) if m == "scope 'repo:a' is not allowed for this client"
    ));
    let token = scopes().on_scopes(Ok(())).unwrap();
    assert!(matches!(
        token.on_token("did:plc:eve"),
        Err(AppError::Auth(m)) if m == "access token does not belong to the claimed DID"
    ));
}

fn key(kid: &str, status: KeyStatus) -> ClientKey {
    ClientKey { kid: kid.into(), status, private_jwk: generate_space_keypair().unwrap() }
}

fn assertion(kid: Option<&str>, provision: Option<&str>, verifier: Option<&str>) -> Result<AssertionStep, AppError> {
    let headers =
        SessionAuthHeaders::from_values(Some("hvc_1".into()), None, None, None, None);
    mint_client_assertion(
        &headers,
        AssertionBody {
            kid: kid.map(str::to_string),
            provision_id: provision.map(str::to_string),
            pkce_verifier: verifier.map(str::to_string),
        },
        Some("https://app.example".into()),
    )
}

#[test]
fn an_assertion_is_minted_against_a_provision() {
    let keys = vec![key("old", KeyStatus::Retiring), key("new", KeyStatus::Current)];
    let client = match assertion(None, Some("hvp_1"), Some("v")).unwrap() {
        AssertionStep::Client(state) => state,
        AssertionStep::Session(_) => panic!("it names a provision"),
    };
    let row = || Some(row("public", Some(r#"["https://app.example"]"#)));
    assert_eq!(client.client(), "hvc_1");
    let waiting = client.on_client(row(), true).unwrap();
    assert_eq!(waiting.provision(), "hvp_1");
    let ready = waiting.on_provision(&provisioned("client-1", Some("v"))).unwrap();
    assert_eq!(ready.client().id, "client-1");
    assert_eq!(ready.signing_key(&keys).unwrap().kid, "new");
}

#[test]
fn an_assertion_needs_both_halves_of_the_proof() {
    assert!(matches!(
        assertion(None, Some("hvp_1"), None),
        Err(AppError::BadRequest(m)) if m == "provision_id and pkce_verifier must be sent together"
    ));
    assert!(assertion(None, None, Some("v")).is_err());
    let state = |verifier: &str| match assertion(None, Some("hvp_1"), Some(verifier)).unwrap() {
        AssertionStep::Client(state) => state,
        AssertionStep::Session(_) => panic!("it names a provision"),
    };
    let row = || Some(row("public", Some(r#"["https://app.example"]"#)));
    assert!(matches!(state("v").on_client(row(), false), Err(AppError::Internal(_))));
    assert!(state("v").on_client(None, true).is_err());
    assert!(state("w")
        .on_client(row(), true)
        .unwrap()
        .on_provision(&provisioned("client-1", Some("v")))
        .is_err());
    assert!(state("v")
        .on_client(row(), true)
        .unwrap()
        .on_provision(&provisioned("client-2", Some("v")))
        .is_err());
}

#[test]
fn an_assertion_is_signed_by_a_key_that_is_in_use() {
    let session = |kid: Option<&str>| match assertion(kid, None, None).unwrap() {
        AssertionStep::Session(state) => state,
        AssertionStep::Client(_) => panic!("it names no provision"),
    };
    let client = || ResolvedClient {
        id: "client-1".into(),
        client_key: "hvc_1".into(),
        client_type: "confidential".into(),
        scopes: String::new(),
        allowed_origins: None,
    };
    let keys = vec![key("gone", KeyStatus::Revoked), key("old", KeyStatus::Retiring)];
    assert_eq!(
        session(Some("old")).on_client(client()).signing_key(&keys).unwrap().kid,
        "old"
    );
    assert!(matches!(
        session(Some("gone")).on_client(client()).signing_key(&keys),
        Err(AppError::BadRequest(m)) if m.starts_with("no usable authentication key 'gone'")
    ));
    assert!(matches!(
        session(None).on_client(client()).signing_key(&vec![]),
        Err(AppError::BadRequest(m)) if m == "this client has no authentication key; provision one first"
    ));
    let bound = AuthenticatedClient { resolved: client(), dpop_key_id: Some("key-1".into()) };
    assert_eq!(concerned_session(&bound).as_deref(), Some("key-1"));
}

#[test]
fn a_request_proves_its_client() {
    assert!(authenticate_request_client(headers(None, None, None, None)).is_err());
    let request = authenticate_request_client(headers(Some("hvc_1"), Some("secret"), None, None)).unwrap();
    assert_eq!(request.client(), "hvc_1");
    match request.on_client(Some(row("confidential", None))).unwrap() {
        RequestAuth::Authenticated(client) => {
            assert_eq!(client.resolved.id, "client-1");
            assert!(client.dpop_key_id.is_none());
        }
        RequestAuth::Check(_) => panic!("the secret decides"),
    }
    let wrong = authenticate_request_client(headers(Some("hvc_1"), Some("no"), None, None)).unwrap();
    assert!(wrong.on_client(Some(row("confidential", None))).is_err());
    let request = || {
        authenticate_request_client(headers(Some("hvc_1"), None, Some("DPoP t"), Some("p"))).unwrap()
    };
    assert!(request().on_client(None).is_err());
    match request().on_client(Some(row("public", None))).unwrap() {
        RequestAuth::Check(check) => {
            let (client, token, value, htu) = check.question("https://hv", "/oauth/sessions/x");
            assert_eq!(client.id, "client-1");
            assert_eq!((token, value), ("t", "p"));
            assert_eq!(htu, "https://localhost/oauth/sessions/x");
            assert_eq!(check.on_key("key-1".into()).dpop_key_id.as_deref(), Some("key-1"));
        }
        RequestAuth::Authenticated(_) => panic!("the proof is still to be checked"),
    }
}
