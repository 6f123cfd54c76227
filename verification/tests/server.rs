//! The server's own answers.
use happyview::auth::{Claims, ServiceAuth, XrpcClaims};
use happyview::error::AppError;
use happyview::json::Json;
use happyview::oauth::client_keys::{current_kid, find_by_kid, public_jwk, ClientKey, KeyStatus};
use happyview::server::{
    apply_jwks_override, check_rate_limit, client_metadata, config_endpoint, cors, logo_url, profile_caller,
    public_key_multibase, published_jwks, rate_limit_headers, read_stored_signing_key,
    rewrite_location, service_endpoint, setting_or, spa_fallback, well_known_did_json, CheckResult,
    ClientSettings, CorsDecision, IdentityMode, InstanceConfig,
};
use happyview::spaces::auth::generate_space_keypair;
use happyview::spaces::credential::make_jti;

const PRIVATE_JWK_PARAMS: &[&str] = &["d", "p", "q", "dp", "dq", "qi"];

fn key_with_status(status: KeyStatus) -> ClientKey {
    ClientKey {
        kid: make_jti(),
        status,
        private_jwk: generate_space_keypair().unwrap(),
    }
}

fn copy(key: &ClientKey) -> ClientKey {
    ClientKey {
        kid: key.kid.clone(),
        status: key.status,
        private_jwk: key.private_jwk.copy(),
    }
}

fn keys_of(jwks: &Json) -> &Vec<Json> {
    jwks.get("keys").unwrap().as_list().unwrap()
}

/// Regression test for the defect: after a rotation there are two
/// non-revoked keys (current + retiring), and both must be published —
/// the retiring one is what live sessions' refreshes are pinned to.
#[test]
fn both_current_and_retiring_keys_are_published() {
    let current = key_with_status(KeyStatus::Current);
    let retiring = key_with_status(KeyStatus::Retiring);

    let jwks = published_jwks(&vec![copy(&current), copy(&retiring)]).unwrap();
    let kids: Vec<&str> = keys_of(&jwks)
        .iter()
        .map(|k| k.get_str("kid").unwrap())
        .collect();

    assert!(kids.contains(&current.kid.as_str()));
    assert!(kids.contains(&retiring.kid.as_str()));
    assert_eq!(kids.len(), 2);
}

#[test]
fn a_revoked_key_is_not_published_alongside_a_current_one() {
    let current = key_with_status(KeyStatus::Current);
    let revoked = key_with_status(KeyStatus::Revoked);

    let jwks = published_jwks(&vec![copy(&current), copy(&revoked)]).unwrap();
    let kids: Vec<&str> = keys_of(&jwks)
        .iter()
        .map(|k| k.get_str("kid").unwrap())
        .collect();

    assert_eq!(kids, vec![current.kid.as_str()]);
}

#[test]
fn published_jwks_contains_no_private_key_material() {
    let current = key_with_status(KeyStatus::Current);
    let retiring = key_with_status(KeyStatus::Retiring);

    // Sanity check the fixture actually has private material to omit,
    // so this test cannot pass vacuously.
    assert!(current.private_jwk.get_str("d").is_some());

    let jwks = published_jwks(&vec![current, retiring]).unwrap();
    for key in keys_of(&jwks) {
        for param in PRIVATE_JWK_PARAMS {
            assert!(
                key.get(*param).is_none(),
                "published JWK unexpectedly contains private parameter `{param}`"
            );
        }
    }
}

#[test]
fn only_revoked_keys_publish_nothing() {
    let revoked = key_with_status(KeyStatus::Revoked);
    assert!(published_jwks(&vec![revoked]).is_none());
}

#[test]
fn no_keys_publishes_nothing() {
    assert!(published_jwks(&vec![]).is_none());
}

#[test]
fn a_public_clients_metadata_gets_no_jwks_field() {
    let metadata = Json::parse(
        r#"{
        "client_id": "https://example.com/oauth-client-metadata.json",
        "client_name": "Example"
    }"#,
    )
    .unwrap();
    let keys = vec![key_with_status(KeyStatus::Current)];

    let metadata = apply_jwks_override(metadata, &keys);

    assert!(metadata.get("jwks").is_none());
}

#[test]
fn a_confidential_clients_jwks_field_is_replaced_with_the_full_key_set() {
    let metadata = Json::parse(
        r#"{
        "client_id": "https://example.com/oauth-client-metadata.json",
        "jwks": {"keys": []}
    }"#,
    )
    .unwrap();
    let current = key_with_status(KeyStatus::Current);
    let retiring = key_with_status(KeyStatus::Retiring);

    let metadata = apply_jwks_override(metadata, &vec![copy(&current), copy(&retiring)]);

    let kids: Vec<&str> = keys_of(metadata.get("jwks").unwrap())
        .iter()
        .map(|k| k.get_str("kid").unwrap())
        .collect();
    assert!(kids.contains(&current.kid.as_str()));
    assert!(kids.contains(&retiring.kid.as_str()));
}

#[test]
fn a_key_is_found_by_its_name_unless_it_is_revoked() {
    let keys = vec![
        key_with_status(KeyStatus::Revoked),
        key_with_status(KeyStatus::Retiring),
        key_with_status(KeyStatus::Current),
    ];
    assert!(find_by_kid(&keys, Some(&keys[0].kid)).is_none());
    assert_eq!(find_by_kid(&keys, Some(&keys[1].kid)).unwrap().kid, keys[1].kid);
    assert_eq!(find_by_kid(&keys, None).unwrap().kid, keys[2].kid);
    assert_eq!(current_kid(&keys), Some(keys[2].kid.clone()));
    let public = public_jwk(&keys[1]);
    assert_eq!(public.get_str("kid"), Some(keys[1].kid.as_str()));
    assert_eq!(public.get_str("x"), keys[1].private_jwk.get_str("x"));
}

fn header<'a>(headers: &'a [(&'static str, String)], name: &str) -> Option<&'a str> {
    headers.iter().find(|(n, _)| *n == name).map(|(_, v)| v.as_str())
}

#[test]
fn credentials_are_allowed_to_trusted_origins_alone() {
    match cors(Some("https://app.example"), true, true, false) {
        CorsDecision::Serve(headers) => {
            assert_eq!(header(&headers, "access-control-allow-origin"), Some("https://app.example"));
            assert_eq!(header(&headers, "access-control-allow-credentials"), Some("true"));
        }
        CorsDecision::Preflight(_) => panic!("it is no preflight"),
    }
    match cors(Some("https://evil.example"), true, false, true) {
        CorsDecision::Preflight(headers) => {
            assert_eq!(header(&headers, "access-control-allow-origin"), Some("https://evil.example"));
            assert_eq!(header(&headers, "access-control-allow-credentials"), None);
        }
        CorsDecision::Serve(_) => panic!("it is a preflight"),
    }
    match cors(None, true, true, false) {
        CorsDecision::Serve(headers) => assert!(headers.is_empty()),
        CorsDecision::Preflight(_) => panic!("it is no preflight"),
    }
}

#[test]
fn a_location_is_put_under_the_base_path_once() {
    assert_eq!(rewrite_location("/hv", "/login").as_deref(), Some("/hv/login"));
    assert_eq!(rewrite_location("/hv", "/hv/login"), None);
    assert_eq!(rewrite_location("/hv", "https://other.example/"), None);
}

#[test]
fn a_page_falls_back_to_its_own_shell_and_then_the_first() {
    let (own, root) = spa_fallback("/static", "/admin/users");
    assert_eq!(root, "/static/index.html");
    assert!(own.is_some());
}

#[test]
fn settings_come_before_the_configuration() {
    assert_eq!(setting_or(Some("a".into()), Some("b".into())), Some("a".to_string()));
    assert_eq!(setting_or(None, Some("b".into())), Some("b".to_string()));
    assert_eq!(setting_or(None, None), None);
    assert!(logo_url("https://hv.example", true, None, None).unwrap().starts_with("https://hv.example"));
    assert_eq!(
        logo_url("https://hv.example", false, Some("https://l".into()), None).as_deref(),
        Some("https://l")
    );
}

#[test]
fn metadata_shows_what_is_set() {
    let settings = ClientSettings {
        app_name: Some("My App".into()),
        client_uri: None,
        has_logo_data: false,
        logo_uri: None,
        tos_uri: Some("https://tos".into()),
        policy_uri: None,
    };
    let metadata = client_metadata(
        Json::parse(r#"{"client_id":"https://hv.example/m.json"}"#).unwrap(),
        "https://hv.example",
        settings,
        Some("atproto transition:generic".into()),
    );
    assert_eq!(
        metadata.get_str("client_id"),
        Some("https://hv.example/oauth-client-metadata.json")
    );
    assert_eq!(metadata.get_str("client_name"), Some("My App"));
    assert_eq!(metadata.get_str("tos_uri"), Some("https://tos"));
    assert_eq!(metadata.get_str("scope"), Some("atproto transition:generic"));
    assert!(metadata.get("policy_uri").is_none());

    let settings = ClientSettings {
        app_name: None,
        client_uri: None,
        has_logo_data: false,
        logo_uri: None,
        tos_uri: None,
        policy_uri: None,
    };
    assert_eq!(
        client_metadata(Json::Null, "https://hv.example/", settings, None).to_text(),
        r#"{"client_id":"https://hv.example/oauth-client-metadata.json"}"#
    );
}

#[test]
fn a_stored_signing_key_is_base64_with_padding() {
    assert_eq!(read_stored_signing_key(Some("AQID")).unwrap(), vec![1, 2, 3]);
    assert_eq!(read_stored_signing_key(Some("AQI=")).unwrap(), vec![1, 2]);
    assert!(read_stored_signing_key(Some("AQI")).is_err());
    assert!(read_stored_signing_key(None).is_err());
}

#[test]
fn a_public_key_is_published_as_a_multikey() {
    let text = public_key_multibase(&[0x22; 32]).unwrap();
    assert!(text.starts_with("zDn"));
    let (base, bytes) = multibase::decode(&text).unwrap();
    assert_eq!(base, multibase::Base::Base58Btc);
    assert_eq!(bytes.len(), 35);
    assert_eq!(&bytes[..2], &[0x80, 0x24]);
    assert!(public_key_multibase(&[0; 32]).is_err());
}

#[test]
fn a_did_document_is_served_under_its_own_domain_alone() {
    assert_eq!(
        well_known_did_json(Some(IdentityMode::DidWeb), Some("hv.example".into())).unwrap(),
        "hv.example"
    );
    assert!(matches!(
        well_known_did_json(Some(IdentityMode::Other), Some("hv.example".into())),
        Err(AppError::NotFound(_))
    ));
    assert!(well_known_did_json(None, Some("hv.example".into())).is_err());
    assert!(well_known_did_json(Some(IdentityMode::DidWeb), None).is_err());
    assert_eq!(service_endpoint("hv.example"), "https://hv.example");
}

#[test]
fn a_spent_allowance_is_told() {
    assert!(check_rate_limit(None).is_ok());
    let allowed = CheckResult::Allowed { remaining: 3, limit: 10, reset: 99 };
    assert!(check_rate_limit(Some(allowed)).is_ok());
    let limited = CheckResult::Limited { retry_after: 5, limit: 10, reset: 99 };
    assert_eq!(
        check_rate_limit(Some(limited)),
        Err(AppError::RateLimited { retry_after: 5, limit: 10, reset: 99 })
    );
    let allowed = CheckResult::Allowed { remaining: 3, limit: 10, reset: 99 };
    assert!(rate_limit_headers(Some(allowed)).iter().any(|(_, v)| *v == 3));
    assert!(rate_limit_headers(None).is_empty());
}

#[test]
fn a_profile_is_shown_to_a_user() {
    let user = XrpcClaims {
        identity: Some(Claims::internal("did:plc:u".into())),
        service_auth: None,
        space_credential: None,
    };
    assert_eq!(profile_caller(user).unwrap().did(), "did:plc:u");
    let service = XrpcClaims {
        identity: None,
        service_auth: Some(ServiceAuth { did: "did:web:s".into() }),
        space_credential: None,
    };
    assert!(profile_caller(service).is_err());
}

#[test]
fn an_instance_shows_its_configuration() {
    let answer = config_endpoint(InstanceConfig {
        public_url: "https://hv.example".into(),
        version: "1.0".into(),
        database_backend: "sqlite".into(),
        jetstream_url: "wss://j".into(),
        relay_url: "https://r".into(),
        plc_url: "https://plc".into(),
        default_rate_limit_capacity: 100,
        default_rate_limit_refill_rate: Json::parse("2.5").unwrap(),
        app_name: None,
        logo_url: Some("https://l".into()),
        spaces_enabled: true,
        config_errors: Json::List(vec![]),
    });
    assert_eq!(
        answer.to_text(),
        r#"{"public_url":"https://hv.example","version":"1.0","database_backend":"sqlite","jetstream_url":"wss://j","relay_url":"https://r","plc_url":"https://plc","default_rate_limit_capacity":100,"default_rate_limit_refill_rate":2.5,"app_name":null,"logo_url":"https://l","features":{"spaces":true},"configErrors":[]}"#
    );
}
