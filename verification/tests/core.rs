//! Texts, JSON and encodings.
use happyview::ambient::{format_expiry, random_32};
use happyview::crypto::{array_32, ct_eq, hash_text, K256SigningKey, P256SigningKey};
use happyview::error::AppError;
use happyview::ipld::{cid_link, encode_cbor, make_cid, make_cid_text, record_to_dag_cbor, unsigned_varint, Cbor, DAG_CBOR};
use happyview::json::{set_member, Json};
use happyview::profile::{find_method, VerificationMethod};
use happyview::text;

#[test]
fn texts_are_split_and_joined() {
    assert_eq!(text::split("a//b", '/'), vec!["a", "", "b"]);
    assert_eq!(text::join(&text::split("a//b", '/'), "/"), "a//b");
    assert_eq!(text::split_whitespace("  a \t b\u{a0}c\n"), vec!["a", "b", "c"]);
    assert_eq!(text::trim(" \u{3000}x y\n"), "x y");
    assert_eq!(text::split_once("k=v=w", '='), Some(("k", "v=w")));
    assert_eq!(text::rsplit_once("k=v=w", '='), Some(("k=v", "w")));
    assert_eq!(text::split_once("kv", '='), None);
    assert_eq!(text::strip_prefix("DPoP x", "DPoP "), Some("x"));
    assert_eq!(text::trim_end_matches("a//", '/'), "a");
    assert_eq!(text::trim_matches("//a/", '/'), "a");
    assert_eq!(text::replace_char("a+b+", '+', ' '), "a b ");
    assert!(text::starts_with("äöü", "ä") && text::ends_with("äöü", "ü"));
    assert_eq!(text::find_char("äöü", 'ü'), Some(2));
}

#[test]
fn numbers_and_bytes_are_written_out() {
    assert_eq!(text::decimal(0), "0");
    assert_eq!(text::decimal(u64::MAX), "18446744073709551615");
    assert_eq!(text::hex(&[0x00, 0xab, 0xff]), "00abff");
    assert_eq!(hash_text(""), "e3b0c44298fc1c149afbf4c8996fb92427ae41e4649b934ca495991b7852b855");
    assert_eq!(format_expiry(0), "1970-01-01T00:00:00+00:00");
    assert_eq!(format_expiry(i64::MAX as u64), "");
}

#[test]
fn texts_are_ordered_by_their_bytes() {
    assert!(text::text_less("a", "b") && !text::text_less("b", "a"));
    assert!(text::text_less("a", "aa") && text::text_less("Z", "a"));
    let mut list = vec![];
    for item in ["b", "a", "b", "c"] {
        text::place(&mut list, item);
    }
    assert_eq!(list, vec!["a", "b", "c"]);
}

#[test]
fn whitespace_is_what_unicode_says() {
    for c in ['\u{0}', '\u{8}', '\u{1f}', 'a', '\u{200b}', '\u{feff}', '\u{180e}'] {
        assert_eq!(text::is_whitespace(c), c.is_whitespace(), "{c:?}");
    }
    for code in 0..0x11000u32 {
        if let Some(c) = char::from_u32(code) {
            assert_eq!(text::is_whitespace(c), c.is_whitespace(), "{c:?}");
        }
    }
}

#[test]
fn json_is_read_and_written() {
    let text = r#"{"b":[null,true,1,-2,1.5,"x\"y"],"a":{}}"#;
    let value = Json::parse(text).unwrap();
    assert_eq!(value.to_text(), text);
    assert_eq!(value.to_vec(), text.as_bytes());
    assert_eq!(value.copy(), value);
    match value.get("b") {
        Some(Json::List(items)) => {
            assert_eq!(items[2].as_u64(), Some(1));
            assert_eq!(items[3], Json::Negative(-2));
            assert_eq!(items[1].as_bool(), Some(true));
            assert_eq!(items[5].as_str(), Some("x\"y"));
        }
        other => panic!("{other:?}"),
    }
    assert!(Json::parse("{").is_err());
    assert!(Json::from_slice(&[0xff]).is_err());
    let set = set_member(Json::parse(r#"{"a":1}"#).unwrap(), "b", Json::Bool(true));
    assert_eq!(set.to_text(), r#"{"a":1,"b":true}"#);
    let set = set_member(set, "a", Json::Null);
    assert_eq!(set.to_text(), r#"{"a":null,"b":true}"#);
}

#[test]
fn blocks_are_encoded_canonically() {
    assert_eq!(unsigned_varint(300), vec![0xac, 0x02]);
    assert_eq!(unsigned_varint(0), vec![0]);
    assert_eq!(DAG_CBOR, 0x71);
    let table = Cbor::Table(vec![
        ("a".to_string(), Cbor::Unsigned(24)),
        ("b".to_string(), Cbor::Bytes(vec![1, 2])),
    ]);
    assert_eq!(encode_cbor(&table), vec![0xa2, 0x61, b'a', 0x18, 24, 0x61, b'b', 0x42, 1, 2]);
    assert_eq!(
        record_to_dag_cbor(&Json::parse(r#"{"aa":1,"b":2}"#).unwrap()).unwrap(),
        vec![0xa2, 0x61, b'b', 0x02, 0x62, b'a', b'a', 0x01]
    );
    assert_eq!(encode_cbor(&cid_link(&[1, 2])), vec![0xd8, 42, 0x43, 0, 1, 2]);
    let block = encode_cbor(&table);
    let bytes = make_cid(DAG_CBOR, &block);
    assert_eq!(&bytes[..4], &[1, 0x71, 0x12, 0x20]);
    assert_eq!(bytes.len(), 36);
    assert_eq!(
        make_cid_text(DAG_CBOR, &block),
        cid::Cid::try_from(bytes.as_slice()).unwrap().to_string()
    );
}

/// Links, bytes and numbers of all sizes, held against another encoder.
#[test]
fn links_and_numbers_are_encoded_by_their_kind() {
    let link = "bafyreidefdycgbfy3oglcb6ism3eqhyp5llsrpzxjsuac2gsy4mtrtx244";
    let record = Json::parse(&format!(r#"{{"l":{{"$link":"{link}"}}}}"#)).unwrap();
    let encoded = record_to_dag_cbor(&record).unwrap();
    let mut expected = vec![0xa1, 0x61, b'l', 0xd8, 0x2a, 0x58, 0x25, 0x00];
    expected.extend_from_slice(&cid::Cid::try_from(link).unwrap().to_bytes());
    assert_eq!(encoded, expected);
    for (text, value) in [("23", 23u64), ("24", 24), ("65536", 65536), ("18446744073709551615", u64::MAX)] {
        let mut expected = vec![];
        ciborium::into_writer(&value, &mut expected).unwrap();
        assert_eq!(record_to_dag_cbor(&Json::parse(text).unwrap()).unwrap(), expected, "{text}");
    }
    for (text, value) in [("-1", -1i64), ("-257", -257), ("-9223372036854775808", i64::MIN)] {
        let mut expected = vec![];
        ciborium::into_writer(&value, &mut expected).unwrap();
        assert_eq!(record_to_dag_cbor(&Json::parse(text).unwrap()).unwrap(), expected, "{text}");
    }
    assert!(record_to_dag_cbor(&Json::parse(r#"{"l":{"$link":"nope"}}"#).unwrap()).is_none());
    assert!(record_to_dag_cbor(&Json::parse(r#"{"x":{"$bytes":"?"}}"#).unwrap()).is_none());
}

#[test]
fn keys_sign_and_secrets_are_compared() {
    assert!(P256SigningKey::from_slice(&[0; 32]).is_none());
    assert!(K256SigningKey::from_slice(&[0; 31]).is_none());
    assert!(ct_eq(b"abc", b"abc") && !ct_eq(b"abc", b"abd") && !ct_eq(b"abc", b"ab"));
    assert_eq!(array_32(&[7; 32]), [7; 32]);
    assert_ne!(random_32(), random_32());
}

#[test]
fn errors_have_their_status() {
    for (error, status) in [
        (AppError::BadRequest(String::new()), 400),
        (AppError::Auth(String::new()), 401),
        (AppError::Forbidden(String::new()), 403),
        (AppError::NotFound(String::new()), 404),
        (AppError::Conflict(String::new()), 409),
        (AppError::Internal(String::new()), 500),
        (AppError::BadGateway(String::new()), 502),
        (AppError::RateLimited { retry_after: 1, limit: 1, reset: 1 }, 429),
        (AppError::PdsError(418, vec![]), 418),
    ] {
        assert_eq!(error.status(), status);
    }
}

#[test]
fn a_method_is_found_by_its_fragment() {
    let methods = vec![
        VerificationMethod { id: "did:plc:a#atproto_space".into(), public_key_multibase: None },
        VerificationMethod { id: "did:plc:a#atproto".into(), public_key_multibase: Some("z1".into()) },
    ];
    assert_eq!(
        find_method(&methods, "#atproto").unwrap().public_key_multibase.as_deref(),
        Some("z1")
    );
    assert!(find_method(&methods, "#other").is_none());
}
