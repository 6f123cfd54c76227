//! What a record refers to.
use happyview::json::Json;
use happyview::record_refs::{extract_at_uris, extract_blob_cids};

fn json(text: &str) -> Json {
    Json::parse(text).unwrap()
}

#[test]
fn extracts_top_level_uri() {
    let val = json(r#"{"subject": "at://did:plc:abc/com.example/123"}"#);
    let uris = extract_at_uris(&val);
    assert_eq!(uris.len(), 1);
    assert!(uris.contains("at://did:plc:abc/com.example/123"));
}

#[test]
fn extracts_nested_uri() {
    let val = json(r#"{"outer": {"inner": "at://did:plc:abc/col/rkey"}}"#);
    let uris = extract_at_uris(&val);
    assert_eq!(uris.len(), 1);
    assert!(uris.contains("at://did:plc:abc/col/rkey"));
}

#[test]
fn extracts_uris_from_arrays() {
    let val = json(r#"{"refs": ["at://did:plc:a/col/1", "at://did:plc:b/col/2"]}"#);
    let uris = extract_at_uris(&val);
    assert_eq!(uris.len(), 2);
}

#[test]
fn ignores_non_at_strings() {
    let val = json(r#"{"url": "https://example.com", "name": "test"}"#);
    let uris = extract_at_uris(&val);
    assert!(uris.is_empty());
}

#[test]
fn empty_object_returns_empty() {
    let uris = extract_at_uris(&json(r#"{}"#));
    assert!(uris.is_empty());
}

#[test]
fn deduplicates_repeated_uris() {
    let val = json(r#"{"a": "at://did:plc:x/c/1", "b": "at://did:plc:x/c/1"}"#);
    let uris = extract_at_uris(&val);
    assert_eq!(uris.len(), 1);
}

#[test]
fn finds_blobs_at_any_depth() {
    let record = json(r#"{
        "text": "hi",
        "embed": {
            "images": [
                { "image": { "$type": "blob", "ref": { "$link": "bafyimg1" },
                             "mimeType": "image/png", "size": 1 } },
                { "image": { "$type": "blob", "ref": { "$link": "bafyimg2" },
                             "mimeType": "image/png", "size": 2 } }
            ]
        }
    }"#);
    let cids = extract_blob_cids(&record);
    assert_eq!(cids.len(), 2);
    assert!(cids.contains("bafyimg1"));
    assert!(cids.contains("bafyimg2"));
}

#[test]
fn ignores_record_links_that_are_not_blobs() {
    // A strong ref carries a $link too; treating it as a blob would list
    // CIDs that getBlob cannot serve.
    let record = json(r#"{
        "subject": { "uri": "at://did:plc:x/c/r", "cid": { "$link": "bafyrecord" } }
    }"#);
    assert!(extract_blob_cids(&record).is_empty());
}

#[test]
fn a_blob_without_a_link_is_skipped_rather_than_panicking() {
    let record = json(r#"{ "image": { "$type": "blob", "mimeType": "image/png" } }"#);
    assert!(extract_blob_cids(&record).is_empty());
}
