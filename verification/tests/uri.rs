//! Addresses of spaces and records.
use happyview::error::AppError;
use happyview::spaces::SpaceUri;

#[test]
fn parse_space_uri() {
    let uri = SpaceUri::parse("at://did:plc:abc123/space/com.example.forum/main").unwrap();
    assert_eq!(uri.did, "did:plc:abc123");
    assert_eq!(uri.type_nsid, "com.example.forum");
    assert_eq!(uri.skey, "main");
    assert!(uri.is_space_uri());
    assert!(!uri.is_record_uri());
    assert_eq!(uri.user_did, None);
}

#[test]
fn parse_record_uri() {
    let uri = SpaceUri::parse(
        "at://did:plc:abc123/space/com.example.forum/main/did:plc:user1/com.example.forum.post/3k2abc",
    )
    .unwrap();
    assert_eq!(uri.did, "did:plc:abc123");
    assert_eq!(uri.type_nsid, "com.example.forum");
    assert_eq!(uri.skey, "main");
    assert_eq!(uri.user_did.as_deref(), Some("did:plc:user1"));
    assert_eq!(uri.collection.as_deref(), Some("com.example.forum.post"));
    assert_eq!(uri.rkey.as_deref(), Some("3k2abc"));
    assert!(uri.is_record_uri());
    assert!(!uri.is_space_uri());
}

#[test]
fn display_space_uri() {
    let uri = SpaceUri {
        did: "did:plc:abc123".into(),
        type_nsid: "com.example.forum".into(),
        skey: "main".into(),
        user_did: None,
        collection: None,
        rkey: None,
    };
    assert_eq!(
        uri.to_string(),
        "at://did:plc:abc123/space/com.example.forum/main"
    );
}

#[test]
fn display_record_uri() {
    let uri = SpaceUri {
        did: "did:plc:abc123".into(),
        type_nsid: "com.example.forum".into(),
        skey: "main".into(),
        user_did: Some("did:plc:user1".into()),
        collection: Some("com.example.forum.post".into()),
        rkey: Some("3k2abc".into()),
    };
    assert_eq!(
        uri.to_string(),
        "at://did:plc:abc123/space/com.example.forum/main/did:plc:user1/com.example.forum.post/3k2abc"
    );
}

#[test]
fn space_uri_extracts_space_part() {
    let uri = SpaceUri::parse(
        "at://did:plc:abc123/space/com.example.forum/main/did:plc:user1/com.example.forum.post/3k2abc",
    )
    .unwrap();
    assert_eq!(
        uri.space_uri(),
        "at://did:plc:abc123/space/com.example.forum/main"
    );
}

#[test]
fn rewrite_ats_space_uri() {
    let uri = SpaceUri::parse("ats://did:plc:abc123/com.example.forum/main").unwrap();
    assert_eq!(uri.did, "did:plc:abc123");
    assert_eq!(uri.type_nsid, "com.example.forum");
    assert_eq!(uri.skey, "main");
    assert!(uri.is_space_uri());
    assert_eq!(
        uri.to_string(),
        "at://did:plc:abc123/space/com.example.forum/main"
    );
}

#[test]
fn rewrite_ats_record_uri() {
    let uri = SpaceUri::parse(
        "ats://did:plc:abc123/com.example.forum/main/did:plc:user1/com.example.forum.post/3k2abc",
    )
    .unwrap();
    assert_eq!(uri.did, "did:plc:abc123");
    assert_eq!(uri.type_nsid, "com.example.forum");
    assert_eq!(uri.skey, "main");
    assert_eq!(uri.user_did.as_deref(), Some("did:plc:user1"));
    assert!(uri.is_record_uri());
}

#[test]
fn reject_ats_too_few_segments() {
    let result = SpaceUri::parse("ats://did:plc:abc123/com.example.forum");
    assert!(result.is_err());
}

#[test]
fn reject_missing_space_segment() {
    let result = SpaceUri::parse("at://did:plc:abc123/com.example.forum/main");
    assert!(result.is_err());
}

#[test]
fn reject_too_few_components() {
    let result = SpaceUri::parse("at://did:plc:abc123/space/com.example.forum");
    assert!(result.is_err());
}

#[test]
fn reject_wrong_component_count() {
    let result =
        SpaceUri::parse("at://did:plc:abc123/space/com.example.forum/main/did:plc:user1");
    assert!(result.is_err());
}

#[test]
fn reject_empty_components() {
    let result = SpaceUri::parse("at:///space/com.example.forum/main");
    assert!(result.is_err());
}

#[test]
fn roundtrip_parse_display() {
    let original = "at://did:plc:abc123/space/com.example.forum/main";
    let uri = SpaceUri::parse(original).unwrap();
    assert_eq!(uri.to_string(), original);

    let original_record = "at://did:plc:abc123/space/com.example.forum/main/did:plc:user1/com.example.forum.post/3k2abc";
    let uri = SpaceUri::parse(original_record).unwrap();
    assert_eq!(uri.to_string(), original_record);
}

#[test]
fn a_foreign_scheme_is_no_address() {
    assert!(matches!(
        SpaceUri::parse("https://did:plc:abc123/space/com.example.forum/main"),
        Err(AppError::BadRequest(_))
    ));
}

#[test]
fn records_of_one_space_have_addresses_of_their_own() {
    let a = SpaceUri::parse("at://did:plc:a/space/t/s/did:plc:u/c/1").unwrap();
    let b = SpaceUri::parse("at://did:plc:a/space/t/s/did:plc:u/c/2").unwrap();
    assert_eq!(a.space_uri(), b.space_uri());
    assert_ne!(a.to_string(), b.to_string());
}

#[test]
fn the_older_form_addresses_records_too() {
    let old = SpaceUri::parse("ats://did:plc:a/com.example.forum/main/did:plc:u/c.x/k").unwrap();
    let new = SpaceUri::parse("at://did:plc:a/space/com.example.forum/main/did:plc:u/c.x/k").unwrap();
    assert_eq!(old.to_string(), new.to_string());
    assert!(SpaceUri::parse("ats://did:plc:a/main").is_err());
    assert!(SpaceUri::parse("at://did:plc:a/space/main").is_err());
    assert!(SpaceUri::parse("ats://did:plc:a/com.example.forum/main/extra").is_err());
    assert!(SpaceUri::parse("at://did:plc:a/space/com.example.forum/main/extra").is_err());
}
