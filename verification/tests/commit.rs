//! Signing and verifying commits.
use happyview::crypto::P256SigningKey;
use happyview::error::AppError;
use happyview::json::Json;
use happyview::spaces::commit::{
    build_context, compute_mac, decode_lex_bytes, derive_mac_key, encode_lex_bytes, sign_commit,
    sign_commit_with, verify_commit, SpaceVerifyingKey,
};

/// Fixed key so failures are reproducible.
fn test_key() -> P256SigningKey {
    P256SigningKey::from_slice(&[0x42u8; 32]).expect("valid test key")
}

fn test_verifier() -> SpaceVerifyingKey {
    SpaceVerifyingKey::P256(test_key().public_key())
}

fn hex_encode(bytes: &[u8]) -> String {
    bytes.iter().map(|b| format!("{b:02x}")).collect()
}

#[test]
fn context_string_format() {
    let ctx = build_context(
        "at://did:plc:abc/space/com.example.forum/main",
        "did:plc:testuser",
        "3k2abc",
        &[0xAA; 32],
    );
    // Starts with protocol tag
    assert!(ctx.starts_with(b"atproto-space-v1"));
}

#[test]
fn context_includes_all_fields() {
    let space = "at://did:plc:abc/space/com.example.forum/main";
    let author = "did:plc:testuser";
    let rev = "3k2abc";
    let ikm = [0xBB; 32];
    let ctx = build_context(space, author, rev, &ikm);

    // Context must contain the space URI, author, rev, and ikm
    assert!(ctx.windows(space.len()).any(|w| w == space.as_bytes()));
    assert!(ctx.windows(author.len()).any(|w| w == author.as_bytes()));
    assert!(ctx.windows(rev.len()).any(|w| w == rev.as_bytes()));
    assert!(ctx.windows(32).any(|w| w == ikm));
}

#[test]
fn context_includes_author_did() {
    let space = "at://did:plc:abc/space/com.example.forum/main";
    let author = "did:plc:user1";
    let rev = "3k2abc";
    let ikm = [0xBB; 32];
    let ctx = build_context(space, author, rev, &ikm);

    assert!(ctx.starts_with(b"atproto-space-v1"));
    assert!(ctx.windows(author.len()).any(|w| w == author.as_bytes()));

    // Author must appear after space and before rev in the byte stream
    let space_pos = ctx
        .windows(space.len())
        .position(|w| w == space.as_bytes())
        .unwrap();
    let author_pos = ctx
        .windows(author.len())
        .position(|w| w == author.as_bytes())
        .unwrap();
    let rev_pos = ctx
        .windows(rev.len())
        .position(|w| w == rev.as_bytes())
        .unwrap();
    assert!(space_pos < author_pos);
    assert!(author_pos < rev_pos);
}

#[test]
fn sign_produces_verifiable_signature() {
    let space = "at://did:plc:abc/space/com.example.forum/main";
    let commit = sign_commit(
        &[0xCCu8; 32],
        space,
        "did:plc:testuser",
        "3k2rev1",
        &test_key(),
    )
    .unwrap();

    assert_eq!(commit.ver, 1);
    assert!(!commit.sig.is_empty(), "commit must carry a signature");
    verify_commit(&commit, space, "did:plc:testuser", &test_verifier()).expect("verifies");
}

#[test]
fn verify_rejects_signature_from_another_key() {
    // The MAC still checks out; only the signature tells this author's
    // commit apart from a forgery.
    let other = P256SigningKey::from_slice(&[0x43u8; 32]).unwrap();
    let wrong = SpaceVerifyingKey::P256(other.public_key());

    let space = "at://did:plc:abc/space/com.example.forum/main";
    let commit = sign_commit(
        &[0xCCu8; 32],
        space,
        "did:plc:testuser",
        "3k2rev1",
        &test_key(),
    )
    .unwrap();

    assert!(verify_commit(&commit, space, "did:plc:testuser", &wrong).is_err());
}

#[test]
fn commit_sign_and_verify_roundtrip() {
    let hash = [0xCC; 32];
    let space = "at://did:plc:abc/space/com.example.forum/main";

    let commit = sign_commit(&hash, space, "did:plc:testuser", "3k2rev1", &test_key()).unwrap();

    assert_eq!(commit.hash, hash);
    assert_eq!(commit.rev, "3k2rev1");
    assert_eq!(commit.mac.len(), 32);
    assert_eq!(commit.ver, 1);

    assert!(verify_commit(&commit, space, "did:plc:testuser", &test_verifier()).is_ok());
}

#[test]
fn commit_has_version() {
    let hash = [0xCC; 32];
    let space = "at://did:plc:abc/space/com.example.forum/main";
    let commit = sign_commit(&hash, space, "did:plc:testuser", "rev1", &test_key()).unwrap();
    assert_eq!(commit.ver, 1);
}

#[test]
fn verify_rejects_wrong_author() {
    let hash = [0xAA; 32];
    let space = "at://did:plc:abc/space/com.example.forum/main";

    let commit = sign_commit(&hash, space, "did:plc:user1", "rev1", &test_key()).unwrap();
    assert!(verify_commit(&commit, space, "did:plc:user1", &test_verifier()).is_ok());
    assert!(verify_commit(&commit, space, "did:plc:user2", &test_verifier()).is_err());
}

#[test]
fn verify_rejects_tampered_hash() {
    let hash = [0xEE; 32];
    let space = "at://did:plc:abc/space/com.example.forum/main";

    let mut commit =
        sign_commit(&hash, space, "did:plc:testuser", "rev1", &test_key()).unwrap();
    commit.hash[0] ^= 0xFF; // tamper
    assert!(verify_commit(&commit, space, "did:plc:testuser", &test_verifier()).is_err());
}

#[test]
fn verify_rejects_tampered_ikm() {
    let hash = [0xEE; 32];
    let space = "at://did:plc:abc/space/com.example.forum/main";

    let mut commit =
        sign_commit(&hash, space, "did:plc:testuser", "rev1", &test_key()).unwrap();
    commit.ikm[0] ^= 0xFF; // tamper — changes both the HKDF salt and the context
    assert!(verify_commit(&commit, space, "did:plc:testuser", &test_verifier()).is_err());
}

#[test]
fn verify_rejects_tampered_rev() {
    let hash = [0xEE; 32];
    let space = "at://did:plc:abc/space/com.example.forum/main";

    let mut commit =
        sign_commit(&hash, space, "did:plc:testuser", "rev1", &test_key()).unwrap();
    commit.rev = "rev2".into();
    assert!(verify_commit(&commit, space, "did:plc:testuser", &test_verifier()).is_err());
}

#[test]
fn verify_rejects_wrong_space() {
    let hash = [0xFF; 32];

    let commit = sign_commit(
        &hash,
        "at://did:plc:abc/space/com.example.forum/main",
        "did:plc:user",
        "rev1",
        &test_key(),
    )
    .unwrap();
    assert!(
        verify_commit(
            &commit,
            "at://did:plc:xyz/space/com.example.forum/other",
            "did:plc:user",
            &test_verifier(),
        )
        .is_err()
    );
}

#[test]
fn different_ikm_per_commit() {
    let hash = [0xAA; 32];
    let space = "at://did:plc:abc/space/com.example.forum/main";

    let c1 = sign_commit(&hash, space, "did:plc:testuser", "rev1", &test_key()).unwrap();
    let c2 = sign_commit(&hash, space, "did:plc:testuser", "rev1", &test_key()).unwrap();

    // Each call generates fresh ikm
    assert_ne!(c1.ikm, c2.ikm);
    assert_ne!(c1.mac, c2.mac);
    // But both verify
    assert!(verify_commit(&c1, space, "did:plc:testuser", &test_verifier()).is_ok());
    assert!(verify_commit(&c2, space, "did:plc:testuser", &test_verifier()).is_ok());
}

#[test]
fn verify_rejects_unknown_version() {
    let hash = [0xCC; 32];
    let space = "at://did:plc:abc/space/com.example.forum/main";

    let mut commit =
        sign_commit(&hash, space, "did:plc:testuser", "rev1", &test_key()).unwrap();
    commit.ver = 2;
    assert!(verify_commit(&commit, space, "did:plc:testuser", &test_verifier()).is_err());
}

#[test]
fn verify_rejects_tampered_mac() {
    let hash = [0xCC; 32];
    let space = "at://did:plc:abc/space/com.example.forum/main";

    let mut commit =
        sign_commit(&hash, space, "did:plc:testuser", "rev1", &test_key()).unwrap();
    assert!(verify_commit(&commit, space, "did:plc:testuser", &test_verifier()).is_ok());
    commit.mac[0] ^= 0xFF;
    assert!(verify_commit(&commit, space, "did:plc:testuser", &test_verifier()).is_err());
}

/// The key is expanded from the random key without extracting first, and the tag
/// is over the hash alone.
#[test]
fn a_tag_is_computed_from_the_expanded_key() {
    let mut ikm = [0u8; 32];
    for (i, byte) in ikm.iter_mut().enumerate() {
        *byte = i as u8;
    }
    let ctx = build_context(
        "at://did:plc:abc/space/com.example.forum/main",
        "did:plc:testuser",
        "3k2abc",
        &ikm,
    );
    assert_eq!(ctx.len(), 123);
    assert_eq!(
        hex_encode(&derive_mac_key(&ikm, &ctx).unwrap()),
        "1ae0280ee9d34ac16bf4ba726a4d777ae3162392b09ccb81e9642626e11ce970"
    );
    assert_eq!(
        hex_encode(&compute_mac(&ikm, &ctx, &[0x5a; 32]).unwrap()),
        "25c1a85b0af12ed5ec1373a382ca01a6c91c3d997da3abf75bd09365e9a259dd"
    );
}

#[test]
fn a_commit_is_fixed_by_what_goes_into_it() {
    let space = "at://did:plc:abc/space/com.example.forum/main";
    let sign = || {
        sign_commit_with(&[7; 32], space, "did:plc:u", "r", &test_key(), [9; 32]).unwrap()
    };
    let (a, b) = (sign(), sign());
    assert_eq!(a.sig, b.sig);
    assert_eq!(a.mac, b.mac);
    assert_eq!(a.sig.len(), 64);
    assert!(verify_commit(&a, space, "did:plc:u", &test_verifier()).is_ok());
}

#[test]
fn each_way_to_fail_says_so() {
    let space = "at://did:plc:abc/space/com.example.forum/main";
    let mut commit = sign_commit(&[7; 32], space, "did:plc:u", "r", &test_key()).unwrap();
    commit.ver = 3;
    assert_eq!(
        verify_commit(&commit, space, "did:plc:u", &test_verifier()),
        Err(AppError::BadRequest("unsupported commit version: 3".into()))
    );
    commit.ver = 1;
    assert_eq!(
        verify_commit(&commit, space, "did:plc:v", &test_verifier()),
        Err(AppError::Auth("commit signature verification failed".into()))
    );
    commit.hash[5] ^= 1;
    assert_eq!(
        verify_commit(&commit, space, "did:plc:u", &test_verifier()),
        Err(AppError::Auth("commit MAC verification failed — repo hash mismatch".into()))
    );
}

#[test]
fn bytes_go_over_the_wire_and_back() {
    let value = encode_lex_bytes(&[0xfb, 0xff, 0x00]);
    assert_eq!(
        value,
        Json::Object(vec![("$bytes".to_string(), Json::Text("+/8A".to_string()))])
    );
    let commit = Json::Object(vec![("sig".to_string(), value)]);
    assert_eq!(decode_lex_bytes(&commit, "sig").unwrap(), vec![0xfb, 0xff, 0x00]);
    assert!(decode_lex_bytes(&commit, "mac").is_err());
    let padded = Json::parse(r#"{"sig":{"$bytes":"+/8="}}"#).unwrap();
    assert_eq!(decode_lex_bytes(&padded, "sig").unwrap(), vec![0xfb, 0xff]);
    let bare = Json::parse(r#"{"sig":"+/8A"}"#).unwrap();
    assert_eq!(
        decode_lex_bytes(&bare, "sig"),
        Err(AppError::Internal("commit sig is not a lexicon bytes value".into()))
    );
}
