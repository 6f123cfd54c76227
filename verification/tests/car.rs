//! Archives of repos.
use happyview::error::AppError;
use happyview::ipld::{compute_record_cid, record_to_dag_cbor};
use happyview::json::Json;
use happyview::spaces::car::serialize_repo;
use happyview::spaces::commit::SignedCommit;
use happyview::spaces::types::SpaceRecord;

fn test_commit() -> SignedCommit {
    SignedCommit {
        sig: vec![0u8; 64],
        ver: 1,
        hash: [0u8; 32],
        ikm: [0u8; 32],
        mac: [0u8; 32],
        rev: "3k2rev1".to_string(),
    }
}

#[test]
fn serialize_empty_repo() {
    let commit = test_commit();
    let car = serialize_repo(&commit, &vec![]).unwrap();
    assert!(!car.is_empty());
    // CAR starts with a varint-prefixed header — must be more than 10 bytes
    assert!(car.len() > 10);
}

#[test]
fn serialize_repo_with_records() {
    let commit = SignedCommit {
        sig: vec![0u8; 64],
        ver: 1,
        hash: [0xAA; 32],
        ikm: [0xBB; 32],
        mac: [0xDD; 32],
        rev: "3k2rev1".to_string(),
    };

    let records =
        vec![
        SpaceRecord {
            uri: "at://did:plc:abc/space/com.example.forum/main/did:plc:user/com.example.post/1"
                .into(),
            space_id: "space1".into(),
            author_did: "did:plc:user".into(),
            collection: "com.example.post".into(),
            rkey: "1".into(),
            record: Json::parse(r#"{"text": "hello"}"#).unwrap(),
            cid: "bafyreiabc".into(),
            indexed_at: "2026-01-01T00:00:00Z".into(),
        },
        SpaceRecord {
            uri: "at://did:plc:abc/space/com.example.forum/main/did:plc:user/com.example.post/2"
                .into(),
            space_id: "space1".into(),
            author_did: "did:plc:user".into(),
            collection: "com.example.post".into(),
            rkey: "2".into(),
            record: Json::parse(r#"{"text": "world"}"#).unwrap(),
            cid: "bafyreixyz".into(),
            indexed_at: "2026-01-01T00:00:01Z".into(),
        },
    ];

    let car = serialize_repo(&commit, &records).unwrap();
    assert!(car.len() > 100);
}

#[test]
fn record_block_cid_is_the_records_real_cid() {
    let value = Json::parse(r#"{ "$type": "com.example.post", "text": "hello" }"#).unwrap();
    let expected = compute_record_cid(&value).expect("encodable");

    let records = vec![SpaceRecord {
        uri: "u1".into(),
        space_id: "s".into(),
        author_did: "d".into(),
        collection: "com.example.post".into(),
        rkey: "1".into(),
        record: value,
        cid: expected.clone(),
        indexed_at: "2026-01-01".into(),
    }];

    let car = serialize_repo(&test_commit(), &records).unwrap();
    let needle = cid::Cid::try_from(expected.as_str()).unwrap().to_bytes();
    assert!(
        car.windows(needle.len()).any(|w| w == needle),
        "CAR must address the record block by its canonical DAG-CBOR CID"
    );
}

#[test]
fn record_blocks_are_dag_cbor_not_json() {
    let records = vec![SpaceRecord {
        uri: "u1".into(),
        space_id: "s".into(),
        author_did: "d".into(),
        collection: "com.example.post".into(),
        rkey: "1".into(),
        record: Json::parse(r#"{ "text": "hello" }"#).unwrap(),
        cid: "unused".into(),
        indexed_at: "2026-01-01".into(),
    }];

    let car = serialize_repo(&test_commit(), &records).unwrap();
    let json = br#"{"text":"hello"}"#;
    assert!(
        !car.windows(json.len()).any(|w| w == json),
        "record must not be embedded as raw JSON"
    );
    // The DAG-CBOR encoding of {"text":"hello"} is present instead.
    let cbor = record_to_dag_cbor(&Json::parse(r#"{ "text": "hello" }"#).unwrap())
        .expect("encodable");
    assert!(car.windows(cbor.len()).any(|w| w == cbor));
}

#[test]
fn records_sorted_in_output() {
    let commit = test_commit();
    let records = vec![
        SpaceRecord {
            uri: "u1".into(),
            space_id: "s".into(),
            author_did: "d".into(),
            collection: "com.example.b".into(),
            rkey: "1".into(),
            record: Json::parse(r#"{"n": 2}"#).unwrap(),
            cid: "c2".into(),
            indexed_at: "2026-01-01".into(),
        },
        SpaceRecord {
            uri: "u2".into(),
            space_id: "s".into(),
            author_did: "d".into(),
            collection: "com.example.a".into(),
            rkey: "1".into(),
            record: Json::parse(r#"{"n": 1}"#).unwrap(),
            cid: "c1".into(),
            indexed_at: "2026-01-01".into(),
        },
    ];
    // Should not panic, and produces valid output
    let car = serialize_repo(&commit, &records).unwrap();
    assert!(car.len() > 100);
}

fn record(collection: &str, rkey: &str, text: &str) -> SpaceRecord {
    SpaceRecord {
        uri: format!("u-{rkey}"),
        space_id: "s".into(),
        author_did: "d".into(),
        collection: collection.into(),
        rkey: rkey.into(),
        record: Json::Object(vec![("text".to_string(), Json::Text(text.to_string()))]),
        cid: "unused".into(),
        indexed_at: "2026-01-01".into(),
    }
}

#[test]
fn the_order_in_which_records_come_does_not_matter() {
    let forward = vec![record("c.a", "1", "x"), record("c.a", "2", "y"), record("c.b", "1", "z")];
    let backward = vec![record("c.b", "1", "z"), record("c.a", "2", "y"), record("c.a", "1", "x")];
    assert_eq!(
        serialize_repo(&test_commit(), &forward).unwrap(),
        serialize_repo(&test_commit(), &backward).unwrap()
    );
}

#[test]
fn a_record_that_cannot_be_encoded_fails_the_archive() {
    let bad = || {
        let mut bad = record("c.a", "1", "x");
        bad.record = Json::parse(r#"{ "ref": { "$link": "not a cid" } }"#).unwrap();
        bad
    };
    let failure = || Err(AppError::Internal("record u-1 cannot be encoded as DAG-CBOR".into()));
    assert_eq!(serialize_repo(&test_commit(), &vec![bad()]), failure());
    let good = || record("c.a", "2", "y");
    assert_eq!(serialize_repo(&test_commit(), &vec![good(), bad()]), failure());
    assert_eq!(serialize_repo(&test_commit(), &vec![bad(), good()]), failure());
}
