//! Space credentials and delegation tokens.
use base64::engine::general_purpose::URL_SAFE_NO_PAD;
use base64::Engine;

use happyview::crypto::{K256SigningKey, P256SigningKey};
use happyview::error::AppError;
use happyview::json::Json;
use happyview::profile::{DidDocument, VerificationMethod};
use happyview::spaces::auth::generate_space_keypair;
use happyview::spaces::commit::SpaceVerifyingKey;
use happyview::spaces::credential::{
    credential_issuer, make_jti, multikey_to_p256_jwk, multikey_to_space_key,
    p256_jwk_to_verifying_key, peek_credential_sub, peek_delegation_sub, peek_jwt_typ,
    resolve_space_key, sign_credential, sign_delegation_token, verify_credential,
    verify_credential_at, verify_credential_with_key, verify_credential_with_key_at,
    verify_delegation_token, verify_delegation_token_at, verify_external_credential,
    verify_external_credential_at, DelegationTokenClaims,
    SpaceCredentialClaims, DEFAULT_CREDENTIAL_TTL_SECS, DELEGATION_TOKEN_TTL_SECS,
    DELEGATION_TOKEN_TYP, SPACE_CREDENTIAL_TYP,
};

struct Keypair {
    private_jwk: Json,
    public_jwk: Json,
}

fn generate_keypair() -> Keypair {
    let private_jwk = generate_space_keypair().unwrap();
    let public_jwk = match &private_jwk {
        Json::Object(members) => Json::Object(
            members
                .iter()
                .filter(|(key, _)| key != "d")
                .map(|(key, value)| (key.clone(), value.copy()))
                .collect(),
        ),
        _ => panic!("a JWK is an object"),
    };
    Keypair { private_jwk, public_jwk }
}

fn message_of(error: &AppError) -> String {
    match error {
        AppError::BadRequest(m)
        | AppError::Auth(m)
        | AppError::Forbidden(m)
        | AppError::NotFound(m)
        | AppError::Conflict(m)
        | AppError::Internal(m)
        | AppError::BadGateway(m) => m.clone(),
        other => format!("{other:?}"),
    }
}

fn now_secs() -> u64 {
    std::time::SystemTime::now()
        .duration_since(std::time::UNIX_EPOCH)
        .unwrap()
        .as_secs()
}

fn make_claims() -> SpaceCredentialClaims {
    let now = now_secs();
    SpaceCredentialClaims {
        iss: "did:plc:spaceowner".into(),
        sub: "at://did:plc:spaceowner/space/com.example.forum/main".into(),
        iat: now,
        exp: now + DEFAULT_CREDENTIAL_TTL_SECS,
        jti: make_jti(),
    }
}

fn make_k256_signing_key() -> K256SigningKey {
    let key_bytes = [0x42u8; 32];
    K256SigningKey::from_slice(&key_bytes[..]).expect("valid key")
}

fn make_delegation_claims() -> DelegationTokenClaims {
    let now = now_secs();
    DelegationTokenClaims {
        iss: "did:plc:member".into(),
        sub: "at://did:plc:space/space/com.example.forum/main".into(),
        aud: "did:plc:space#atproto_space_host".into(),
        iat: now,
        exp: now + DELEGATION_TOKEN_TTL_SECS,
        jti: make_jti(),
    }
}

fn signed(aud: &str) -> (String, Vec<u8>) {
    let sk = K256SigningKey::from_slice(&[0x55u8; 32]).unwrap();
    let vk = sk.public_key();
    let now = now_secs();
    let claims = DelegationTokenClaims {
        iss: "did:plc:user".into(),
        sub: "at://did:plc:auth/space/com.example.forum/main".into(),
        aud: aud.to_string(),
        iat: now,
        exp: now + 60,
        jti: "nonce".into(),
    };
    (sign_delegation_token(&claims, &sk).unwrap(), vk)
}

const ACCEPTED: [&str; 2] = [
    "did:plc:auth#atproto_space_host",
    "did:plc:auth#atproto_pds",
];

fn doc_with(methods: &[(&str, &str)]) -> DidDocument {
    DidDocument {
        verification_method: methods
            .iter()
            .map(|(id, mb)| VerificationMethod {
                id: (*id).to_string(),
                public_key_multibase: Some((*mb).to_string()),
            })
            .collect(),
        service: vec![],
    }
}

/// The compressed form of an uncompressed point.
fn compressed(point: &[u8]) -> Vec<u8> {
    let mut bytes = vec![2 + (point[64] & 1)];
    bytes.extend_from_slice(&point[1..33]);
    bytes
}

/// Real multibase keys, so the decoder is exercised rather than mocked.
fn p256_multibase() -> String {
    let sk = P256SigningKey::from_slice(&[0x22u8; 32]).unwrap();
    let mut bytes = vec![0x80, 0x24];
    bytes.extend_from_slice(&compressed(&sk.public_key()));
    multibase::encode(multibase::Base::Base58Btc, bytes)
}

fn k256_multibase() -> String {
    let sk = K256SigningKey::from_slice(&[0x11u8; 32]).unwrap();
    let mut bytes = vec![0xe7, 0x01];
    bytes.extend_from_slice(&compressed(&sk.public_key()));
    multibase::encode(multibase::Base::Base58Btc, bytes)
}

#[test]
fn credential_sign_and_verify_roundtrip() {
    let keypair = generate_keypair();
    let claims = make_claims();

    let token = sign_credential(&claims, &keypair.private_jwk).unwrap();
    let verified = verify_credential(&token, &keypair.public_jwk).unwrap();

    assert_eq!(verified.iss, claims.iss);
    assert_eq!(verified.sub, claims.sub);
    assert_eq!(verified.iat, claims.iat);
    assert_eq!(verified.exp, claims.exp);
    assert_eq!(verified.jti, claims.jti);
}

#[test]
fn verify_rejects_tampered_payload() {
    let keypair = generate_keypair();
    let claims = make_claims();
    let token = sign_credential(&claims, &keypair.private_jwk).unwrap();

    let parts: Vec<&str> = token.split('.').collect();
    let mut payload_bytes = URL_SAFE_NO_PAD.decode(parts[1]).unwrap();
    payload_bytes[0] ^= 0xFF;
    let tampered_payload = URL_SAFE_NO_PAD.encode(&payload_bytes);
    let tampered = format!("{}.{}.{}", parts[0], tampered_payload, parts[2]);

    let result = verify_credential(&tampered, &keypair.public_jwk);
    assert!(result.is_err());
}

#[test]
fn verify_rejects_wrong_key() {
    let keypair1 = generate_keypair();
    let keypair2 = generate_keypair();
    let claims = make_claims();
    let token = sign_credential(&claims, &keypair1.private_jwk).unwrap();

    let result = verify_credential(&token, &keypair2.public_jwk);
    assert!(result.is_err());
}

#[test]
fn verify_rejects_expired() {
    let keypair = generate_keypair();
    let now = std::time::SystemTime::now()
        .duration_since(std::time::UNIX_EPOCH)
        .unwrap()
        .as_secs();
    let claims = SpaceCredentialClaims {
        iss: "did:plc:owner".into(),
        sub: "at://did:plc:owner/space/com.example.test/main".into(),
        iat: now - 7200,
        exp: now - 3600,
        jti: make_jti(),
    };

    let token = sign_credential(&claims, &keypair.private_jwk).unwrap();
    let result = verify_credential(&token, &keypair.public_jwk);
    assert!(result.is_err());
    assert!(message_of(&result.unwrap_err()).contains("expired"));
}

#[test]
fn verify_rejects_invalid_format() {
    let keypair = generate_keypair();
    let result = verify_credential("not-a-jwt", &keypair.public_jwk);
    assert!(result.is_err());
}

#[test]
fn delegation_sign_and_verify_roundtrip() {
    let signing_key = make_k256_signing_key();
    let verifying_key = signing_key.public_key();
    let claims = make_delegation_claims();

    let token = sign_delegation_token(&claims, &signing_key).unwrap();
    let verified =
        verify_delegation_token(&token, &verifying_key, &[claims.aud.as_str()]).unwrap();

    assert_eq!(verified.iss, claims.iss);
    assert_eq!(verified.sub, claims.sub);
    assert_eq!(verified.aud, claims.aud);
    assert_eq!(verified.jti, claims.jti);
}

#[test]
fn delegation_rejects_wrong_key() {
    let signing_key = make_k256_signing_key();
    let other_key = K256SigningKey::from_slice(&[0x99u8; 32][..]).unwrap();
    let verifying_key = other_key.public_key();
    let claims = make_delegation_claims();

    let token = sign_delegation_token(&claims, &signing_key).unwrap();
    let result = verify_delegation_token(&token, &verifying_key, &[claims.aud.as_str()]);
    assert!(result.is_err());
}

#[test]
fn delegation_rejects_wrong_aud() {
    let signing_key = make_k256_signing_key();
    let verifying_key = signing_key.public_key();
    let claims = make_delegation_claims();

    let token = sign_delegation_token(&claims, &signing_key).unwrap();
    let result = verify_delegation_token(
        &token,
        &verifying_key,
        &["did:plc:wrong#atproto_space_host"],
    );
    assert!(result.is_err());
    assert!(message_of(&result.unwrap_err()).contains("audience"));
}

#[test]
fn delegation_rejects_expired() {
    let signing_key = make_k256_signing_key();
    let verifying_key = signing_key.public_key();
    let now = std::time::SystemTime::now()
        .duration_since(std::time::UNIX_EPOCH)
        .unwrap()
        .as_secs();
    let claims = DelegationTokenClaims {
        iss: "did:plc:member".into(),
        sub: "at://did:plc:space/space/com.example.forum/main".into(),
        aud: "did:plc:space#atproto_space_host".into(),
        iat: now - 120,
        exp: now - 60,
        jti: make_jti(),
    };

    let token = sign_delegation_token(&claims, &signing_key).unwrap();
    let result = verify_delegation_token(&token, &verifying_key, &[claims.aud.as_str()]);
    assert!(result.is_err());
    assert!(message_of(&result.unwrap_err()).contains("expired"));
}

#[test]
fn delegation_rejects_wrong_typ() {
    let signing_key = make_k256_signing_key();
    let verifying_key = signing_key.public_key();
    let claims = make_delegation_claims();

    // Craft a token with wrong typ
    let header = Json::parse(r##"{ "alg": "ES256K", "typ": "wrong-typ", "kid": "#atproto" }"##).unwrap();
    let header_b64 = URL_SAFE_NO_PAD.encode(header.to_vec());
    let payload_b64 = URL_SAFE_NO_PAD.encode(claims.to_json().to_vec());
    let message = format!("{}.{}", header_b64, payload_b64);
    let sig = signing_key.sign(message.as_bytes());
    let token = format!(
        "{}.{}.{}",
        header_b64,
        payload_b64,
        URL_SAFE_NO_PAD.encode(&sig)
    );

    let result = verify_delegation_token(&token, &verifying_key, &[claims.aud.as_str()]);
    assert!(result.is_err());
    assert!(message_of(&result.unwrap_err()).contains("typ"));
}

#[test]
fn credential_has_space_credential_typ() {
    let keypair = generate_keypair();
    let claims = make_claims();
    let token = sign_credential(&claims, &keypair.private_jwk).unwrap();
    assert_eq!(peek_jwt_typ(&token).as_deref(), Some(SPACE_CREDENTIAL_TYP));
}

#[test]
fn delegation_has_delegation_typ() {
    let signing_key = make_k256_signing_key();
    let claims = make_delegation_claims();
    let token = sign_delegation_token(&claims, &signing_key).unwrap();
    assert_eq!(peek_jwt_typ(&token).as_deref(), Some(DELEGATION_TOKEN_TYP));
}

#[test]
fn peek_jwt_typ_returns_none_for_garbage() {
    assert_eq!(peek_jwt_typ("not-a-jwt"), None);
    assert_eq!(peek_jwt_typ(""), None);
}

#[test]
fn peek_credential_sub_extracts_space_uri() {
    let keypair = generate_keypair();
    let claims = make_claims();
    let token = sign_credential(&claims, &keypair.private_jwk).unwrap();
    assert_eq!(
        peek_credential_sub(&token).as_deref(),
        Some("at://did:plc:spaceowner/space/com.example.forum/main")
    );
}

#[test]
fn peek_credential_sub_returns_none_for_garbage() {
    assert_eq!(peek_credential_sub("not-a-jwt"), None);
}

#[test]
fn verify_rejects_wrong_typ() {
    let keypair = generate_keypair();
    let claims = make_claims();

    let d_b64 = keypair.private_jwk.get_str("d").unwrap();
    let d_bytes = URL_SAFE_NO_PAD.decode(d_b64).unwrap();
    let signing_key = P256SigningKey::from_slice(&d_bytes[..]).unwrap();

    let header = Json::parse(r#"{ "alg": "ES256", "typ": "JWT" }"#).unwrap();
    let header_b64 = URL_SAFE_NO_PAD.encode(header.to_vec());
    let payload_b64 = URL_SAFE_NO_PAD.encode(claims.to_json().to_vec());
    let message = format!("{}.{}", header_b64, payload_b64);
    let sig = signing_key.sign(message.as_bytes());
    let token = format!(
        "{}.{}.{}",
        header_b64,
        payload_b64,
        URL_SAFE_NO_PAD.encode(&sig)
    );

    let result = verify_credential(&token, &keypair.public_jwk);
    assert!(result.is_err());
    assert!(message_of(&result.unwrap_err()).contains("typ"));
}

#[test]
fn multikey_to_p256_jwk_invalid_multibase() {
    let result = multikey_to_p256_jwk("xabc123");
    assert!(result.is_err());
    assert!(message_of(&result.unwrap_err()).contains("multibase"));
}

#[test]
fn multikey_to_p256_jwk_wrong_codec() {
    let mut bytes = vec![0x99u8, 0x99];
    bytes.extend_from_slice(&[0u8; 33]);
    let encoded = multibase::encode(multibase::Base::Base58Btc, &bytes);
    let result = multikey_to_p256_jwk(&encoded);
    assert!(result.is_err());
    assert!(message_of(&result.unwrap_err()).contains("P-256"));
}

#[test]
fn accepts_the_dedicated_space_host_audience() {
    let (token, vk) = signed("did:plc:auth#atproto_space_host");
    assert!(verify_delegation_token(&token, &vk, &ACCEPTED).is_ok());
}

#[test]
fn accepts_the_pds_audience_when_no_space_host_is_published() {
    // See `verify_delegation_token` for why the PDS audience is accepted.
    let (token, vk) = signed("did:plc:auth#atproto_pds");
    assert!(verify_delegation_token(&token, &vk, &ACCEPTED).is_ok());
}

#[test]
fn still_rejects_an_audience_for_a_different_host() {
    let (token, vk) = signed("did:plc:someoneelse#atproto_space_host");
    assert!(verify_delegation_token(&token, &vk, &ACCEPTED).is_err());
}

#[test]
fn prefers_the_dedicated_space_key_when_present() {
    let doc = doc_with(&[
        ("did:plc:test#atproto", &k256_multibase()),
        ("did:plc:test#atproto_space", &p256_multibase()),
    ]);
    assert!(matches!(
        resolve_space_key(&doc).expect("resolves"),
        SpaceVerifyingKey::P256(_)
    ));
}

#[test]
fn falls_back_to_the_atproto_key_when_the_space_key_is_absent() {
    // The shape of every authority hosted on a stock PDS.
    let doc = doc_with(&[("did:plc:test#atproto", &k256_multibase())]);
    assert!(matches!(
        resolve_space_key(&doc).expect("falls back"),
        SpaceVerifyingKey::K256(_)
    ));
}

#[test]
fn errors_when_the_dedicated_key_is_present_but_malformed() {
    let doc = doc_with(&[
        ("did:plc:test#atproto", &k256_multibase()),
        ("did:plc:test#atproto_space", "zNOTAVALIDMULTIBASE!!"),
    ]);
    assert!(resolve_space_key(&doc).is_err());
}

#[test]
fn errors_when_no_usable_key_exists() {
    assert!(resolve_space_key(&doc_with(&[])).is_err());
}

#[test]
fn atproto_suffix_match_does_not_capture_the_space_key() {
    // "...#atproto_space".ends_with("#atproto") is false, so a document with
    // only a space key must not be found by the fallback branch.
    let doc = doc_with(&[("did:plc:test#atproto_space", &p256_multibase())]);
    assert!(matches!(
        resolve_space_key(&doc).expect("resolves via the dedicated branch"),
        SpaceVerifyingKey::P256(_)
    ));
}

/// Full delegation → space credential flow: sign delegation token, then sign space credential
/// and verify both in sequence.
#[test]
fn delegation_then_credential_flow() {
    let now = now_secs();
    let sk = make_k256_signing_key();
    let vk = sk.public_key();

    // Step 1: member signs delegation token
    let delegation = DelegationTokenClaims {
        iss: "did:plc:member".into(),
        sub: "at://did:plc:space/space/com.example.forum/main".into(),
        aud: "did:plc:space#atproto_space_host".into(),
        iat: now,
        exp: now + DELEGATION_TOKEN_TTL_SECS,
        jti: make_jti(),
    };
    let token = sign_delegation_token(&delegation, &sk).unwrap();

    // Peek must return the correct typ before verification
    assert_eq!(peek_jwt_typ(&token).as_deref(), Some(DELEGATION_TOKEN_TYP));

    // Step 2: space host verifies delegation token
    let verified_delegation =
        verify_delegation_token(&token, &vk, &[delegation.aud.as_str()]).unwrap();
    assert_eq!(verified_delegation.iss, "did:plc:member");
    assert_eq!(
        verified_delegation.sub,
        "at://did:plc:space/space/com.example.forum/main"
    );

    // Step 3: space host issues a space credential (using P-256 key)
    let keypair = generate_keypair();
    let cred_claims = SpaceCredentialClaims {
        iss: "did:plc:space".into(),
        sub: verified_delegation.sub.clone(),
        iat: now,
        exp: now + DEFAULT_CREDENTIAL_TTL_SECS,
        jti: make_jti(),
    };
    let credential = sign_credential(&cred_claims, &keypair.private_jwk).unwrap();

    // Peek on credential
    assert_eq!(
        peek_jwt_typ(&credential).as_deref(),
        Some(SPACE_CREDENTIAL_TYP)
    );
    assert_eq!(
        peek_credential_sub(&credential).as_deref(),
        Some("at://did:plc:space/space/com.example.forum/main")
    );

    // Step 4: verify credential
    let verified_cred = verify_credential(&credential, &keypair.public_jwk).unwrap();
    assert_eq!(verified_cred.iss, "did:plc:space");
    assert_eq!(
        verified_cred.sub,
        "at://did:plc:space/space/com.example.forum/main"
    );
}

/// An expired delegation token must be rejected before we even try to issue a credential.
#[test]
fn expired_delegation_blocks_credential_flow() {
    let now = now_secs();
    let sk = make_k256_signing_key();
    let vk = sk.public_key();

    let delegation = DelegationTokenClaims {
        iss: "did:plc:member".into(),
        sub: "at://did:plc:space/space/com.example.forum/main".into(),
        aud: "did:plc:space#atproto_space_host".into(),
        iat: now - 120,
        exp: now - 60, // already expired
        jti: make_jti(),
    };
    let token = sign_delegation_token(&delegation, &sk).unwrap();
    let result = verify_delegation_token(&token, &vk, &[delegation.aud.as_str()]);
    assert!(result.is_err());
    assert!(message_of(&result.unwrap_err()).contains("expired"));
}

#[test]
fn p256_keypair_generation_and_jwk_roundtrip() {
    let keypair = generate_keypair();

    // Public JWK must have kty, crv, x, y
    assert_eq!(keypair.public_jwk.get_str("kty"), Some("EC"));
    assert_eq!(keypair.public_jwk.get_str("crv"), Some("P-256"));
    assert!(keypair.public_jwk.get_str("x").is_some());
    assert!(keypair.public_jwk.get_str("y").is_some());

    // Private JWK must have d
    assert!(keypair.private_jwk.get_str("d").is_some());

    // Can reconstruct verifying key from public JWK
    let vk = p256_jwk_to_verifying_key(&keypair.public_jwk).unwrap();
    assert_eq!(vk.len(), 65);
    assert_eq!(vk[0], 4);
}

#[test]
fn sign_and_verify_with_generated_keypair() {
    let keypair = generate_keypair();
    let now = now_secs();

    let claims = SpaceCredentialClaims {
        iss: "did:plc:owner".into(),
        sub: "at://did:plc:owner/space/com.example.forum/main".into(),
        iat: now,
        exp: now + DEFAULT_CREDENTIAL_TTL_SECS,
        jti: make_jti(),
    };

    let token = sign_credential(&claims, &keypair.private_jwk).unwrap();
    let verified = verify_credential(&token, &keypair.public_jwk).unwrap();

    assert_eq!(verified.iss, claims.iss);
    assert_eq!(verified.sub, claims.sub);
    assert_eq!(verified.jti, claims.jti);
}

#[test]
fn two_different_keypairs_do_not_cross_verify() {
    let kp1 = generate_keypair();
    let kp2 = generate_keypair();
    let now = now_secs();

    let claims = SpaceCredentialClaims {
        iss: "did:plc:owner".into(),
        sub: "at://did:plc:owner/space/com.example.forum/main".into(),
        iat: now,
        exp: now + DEFAULT_CREDENTIAL_TTL_SECS,
        jti: make_jti(),
    };

    let token = sign_credential(&claims, &kp1.private_jwk).unwrap();
    let result = verify_credential(&token, &kp2.public_jwk);
    assert!(result.is_err());
}

#[test]
fn a_credential_lasts_until_it_expires() {
    let keypair = generate_keypair();
    let claims = SpaceCredentialClaims {
        iss: "did:plc:owner".into(),
        sub: "at://did:plc:owner/space/t/s".into(),
        iat: 1000,
        exp: 2000,
        jti: "nonce".into(),
    };
    let token = sign_credential(&claims, &keypair.private_jwk).unwrap();
    assert!(verify_credential_at(&token, &keypair.public_jwk, 1999).is_ok());
    assert!(verify_credential_at(&token, &keypair.public_jwk, 2000).is_err());
}

#[test]
fn a_delegation_token_names_its_space_before_it_is_verified() {
    let claims = make_delegation_claims();
    let token = sign_delegation_token(&claims, &make_k256_signing_key()).unwrap();
    assert_eq!(peek_delegation_sub(&token), Some(claims.sub));
    assert_eq!(peek_delegation_sub("x.y.z"), None);
}

#[test]
fn a_delegation_token_is_taken_at_the_time_it_is_valid_for() {
    let key = make_k256_signing_key();
    let claims = DelegationTokenClaims {
        iss: "did:plc:m".into(),
        sub: "at://did:plc:a/space/t/s".into(),
        aud: "did:plc:a#atproto_pds".into(),
        iat: 100,
        exp: 160,
        jti: "n".into(),
    };
    let token = sign_delegation_token(&claims, &key).unwrap();
    let accepted = ["did:plc:a#atproto_pds"];
    assert!(verify_delegation_token_at(&token, &key.public_key(), &accepted, 159).is_ok());
    assert!(verify_delegation_token_at(&token, &key.public_key(), &accepted, 160).is_err());
}

#[test]
fn a_credential_is_verified_by_the_key_that_its_issuer_publishes() {
    let secret = [0x22u8; 32];
    let jwk = happyview::spaces::auth::keypair_of(&secret).unwrap();
    let claims = SpaceCredentialClaims {
        iss: "did:plc:test".into(),
        sub: "at://did:plc:test/space/t/s".into(),
        iat: 1,
        exp: 100,
        jti: "n".into(),
    };
    let token = sign_credential(&claims, &jwk).unwrap();
    assert_eq!(credential_issuer(&token).unwrap(), "did:plc:test");

    let doc = doc_with(&[("did:plc:test#atproto_space", &p256_multibase())]);
    let verified = verify_external_credential_at(&token, &doc, 50).unwrap();
    assert_eq!(verified.sub, claims.sub);
    assert!(verify_external_credential_at(&token, &doc, 100).is_err());

    let other = doc_with(&[("did:plc:test#atproto", &k256_multibase())]);
    assert!(verify_external_credential_at(&token, &other, 50).is_err());
}

#[test]
fn a_published_key_is_the_key_that_signs() {
    let key = multikey_to_space_key(&p256_multibase()).unwrap();
    let sk = P256SigningKey::from_slice(&[0x22u8; 32]).unwrap();
    assert!(key.verify(b"message", &sk.sign(b"message")).is_ok());
    assert!(key.verify(b"another", &sk.sign(b"message")).is_err());

    let key = multikey_to_space_key(&k256_multibase()).unwrap();
    let sk = K256SigningKey::from_slice(&[0x11u8; 32]).unwrap();
    assert!(key.verify(b"message", &sk.sign(b"message")).is_ok());
    assert!(key.verify(b"another", &sk.sign(b"message")).is_err());
}

#[test]
fn a_published_key_is_read_into_the_same_point() {
    let jwk = multikey_to_p256_jwk(&p256_multibase()).unwrap();
    let sk = P256SigningKey::from_slice(&[0x22u8; 32]).unwrap();
    assert_eq!(p256_jwk_to_verifying_key(&jwk).unwrap(), sk.public_key());
}

#[test]
fn a_credential_for_a_k256_key_is_not_taken_as_p256() {
    let keypair = generate_keypair();
    let token = sign_credential(&make_claims(), &keypair.private_jwk).unwrap();
    let point = p256_jwk_to_verifying_key(&keypair.public_jwk).unwrap();
    assert!(verify_credential_with_key_at(&token, &SpaceVerifyingKey::P256(point), 0).is_ok());
    let other = make_k256_signing_key().public_key();
    assert!(verify_credential_with_key_at(&token, &SpaceVerifyingKey::K256(other), 0).is_err());
}

#[test]
fn a_credential_is_verified_at_the_present() {
    let jwk = happyview::spaces::auth::keypair_of(&[0x22u8; 32]).unwrap();
    let doc = doc_with(&[("did:plc:spaceowner#atproto_space", &p256_multibase())]);
    let key = multikey_to_space_key(&p256_multibase()).unwrap();
    let claims = make_claims();
    let token = sign_credential(&claims, &jwk).unwrap();
    assert_eq!(verify_credential_with_key(&token, &key).unwrap().sub, claims.sub);
    assert_eq!(verify_external_credential(&token, &doc).unwrap().jti, claims.jti);

    let past = SpaceCredentialClaims { exp: now_secs() - 1, ..make_claims() };
    let token = sign_credential(&past, &jwk).unwrap();
    assert!(verify_credential_with_key(&token, &key).is_err());
    assert!(verify_external_credential(&token, &doc).is_err());
}

#[test]
fn a_delegation_token_that_never_lasts_is_refused() {
    let key = make_k256_signing_key();
    let claims = DelegationTokenClaims { exp: 0, ..make_delegation_claims() };
    let token = sign_delegation_token(&claims, &key).unwrap();
    let accepted = ["did:plc:elsewhere#atproto_pds", "did:plc:space#atproto_space_host"];
    assert!(matches!(
        verify_delegation_token_at(&token, &key.public_key(), &accepted, 0),
        Err(AppError::Auth(m)) if m == "delegation token has expired"
    ));
    let token = sign_delegation_token(&make_delegation_claims(), &key).unwrap();
    assert!(verify_delegation_token_at(&token, &key.public_key(), &accepted, 0).is_ok());
    assert!(matches!(
        verify_delegation_token_at(&token, &key.public_key(), &accepted[..1], 0),
        Err(AppError::Auth(m)) if m == "delegation token audience does not match this host"
    ));
}
