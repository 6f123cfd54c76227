//! Talking to a user's PDS.
use happyview::auth::Claims;
use happyview::error::AppError;
use happyview::json::Json;
use happyview::repo::pds::{
    answer_body, answer_json, decode, forward_pds_response, forwarded_header, parse_labelers_header,
    parse_proxy_header, pds_auth_for_claims, query_pairs, require_dpop_key, ForwardedHeader,
    PdsAuthPlan, PdsOutput,
};

#[test]
fn proxy_header_splits_did_and_service_type() {
    let (did, service) = parse_proxy_header("did:web:api.bsky.app#bsky_appview").unwrap();
    assert_eq!(did.as_str(), "did:web:api.bsky.app");
    assert_eq!(service, "bsky_appview");
}

#[test]
fn proxy_header_accepts_a_plc_did() {
    let (did, service) =
        parse_proxy_header("did:plc:6msi3pj7krzih5qxqtryxlzw#atproto_pds").unwrap();
    assert_eq!(did.as_str(), "did:plc:6msi3pj7krzih5qxqtryxlzw");
    assert_eq!(service, "atproto_pds");
}

/// Refusing is the point: a dropped `atproto-proxy` would be handled by the
/// PDS itself, answering a different question than the caller asked.
#[test]
fn proxy_header_without_a_fragment_is_refused() {
    assert!(parse_proxy_header("did:web:api.bsky.app").is_err());
    assert!(parse_proxy_header("did:web:api.bsky.app#").is_err());
    assert!(parse_proxy_header("not-a-did#svc").is_err());
    assert!(parse_proxy_header("").is_err());
}

#[test]
fn labelers_header_parses_dids_and_redact_flags() {
    let out = parse_labelers_header(
        "did:plc:6msi3pj7krzih5qxqtryxlzw, did:web:labeler.example.com;redact",
    )
    .unwrap();
    assert_eq!(out.len(), 2);
    assert_eq!(out[0].0.as_str(), "did:plc:6msi3pj7krzih5qxqtryxlzw");
    assert!(!out[0].1);
    assert_eq!(out[1].0.as_str(), "did:web:labeler.example.com");
    assert!(out[1].1);
}

#[test]
fn labelers_header_ignores_empty_entries() {
    let out = parse_labelers_header("did:web:a.example.com,,  ,").unwrap();
    assert_eq!(out.len(), 1);
}

#[test]
fn labelers_header_rejects_an_invalid_did() {
    assert!(parse_labelers_header("did:web:a.example.com,nonsense").is_err());
}

#[test]
fn labelers_header_empty_is_empty_not_an_error() {
    assert!(parse_labelers_header("").unwrap().is_empty());
}

#[test]
fn a_did_with_more_parts_than_it_may_have_is_refused() {
    assert!(parse_proxy_header("did:PLC:abc#svc").is_err());
    assert!(parse_proxy_header("did:plc:#svc").is_err());
    assert!(parse_proxy_header("did:plc:a b#svc").is_err());
}

#[test]
fn only_protocol_headers_are_forwarded() {
    assert!(matches!(
        forwarded_header("atproto-proxy", "did:web:a.example.com#svc"),
        Ok(Some(ForwardedHeader::Proxy { did, service }))
            if did == "did:web:a.example.com" && service == "svc"
    ));
    assert!(matches!(
        forwarded_header("atproto-accept-labelers", "did:web:a.example.com;redact"),
        Ok(Some(ForwardedHeader::Labelers(list))) if list.len() == 1 && list[0].1
    ));
    assert!(matches!(forwarded_header("atproto-accept-labelers", " , "), Ok(None)));
    assert!(matches!(forwarded_header("x-other", "value"), Err(AppError::Internal(_))));
}

#[test]
fn a_query_is_decoded_pair_by_pair() {
    assert_eq!(
        query_pairs("a=1&b=two%20words&c=x+y&d"),
        vec![
            ("a".to_string(), "1".to_string()),
            ("b".to_string(), "two words".to_string()),
            ("c".to_string(), "x y".to_string()),
            ("d".to_string(), String::new()),
        ]
    );
    assert_eq!(decode("%41%2Fb"), "A/b");
    assert_eq!(decode("%ff"), "%ff");
}

#[test]
fn a_session_goes_the_way_that_its_claims_name() {
    let claims = |client: Option<&str>, key: Option<&str>| Claims {
        did: "did:plc:u".into(),
        client_key: client.map(str::to_string),
        dpop_key_id: key.map(str::to_string),
    };
    assert!(matches!(pds_auth_for_claims(&claims(None, None), true), Ok(PdsAuthPlan::OAuth)));
    assert!(matches!(
        pds_auth_for_claims(&claims(Some("c"), Some("k")), true),
        Ok(PdsAuthPlan::Dpop { client_key, dpop_key_id: Some(k) }) if client_key == "c" && k == "k"
    ));
    assert!(pds_auth_for_claims(&claims(Some("c"), Some("k")), false).is_err());
    assert!(require_dpop_key(None).is_err());
    assert_eq!(require_dpop_key(Some("k".into())).unwrap(), "k");
}

#[test]
fn an_answer_is_passed_on_and_a_failure_is_kept() {
    assert_eq!(forward_pds_response(200, vec![1]), Ok(vec![1]));
    assert_eq!(forward_pds_response(400, vec![1]), Err(AppError::PdsError(400, vec![1])));
    let data = || Ok(PdsOutput::Data(Json::parse(r#"{"a":1}"#).unwrap()));
    assert_eq!(answer_body(data(), "failed").unwrap(), br#"{"a":1}"#.to_vec());
    assert_eq!(answer_json(data()).unwrap().get_u64("a"), Some(1));
    assert_eq!(answer_body(Ok(PdsOutput::Bytes(vec![7])), "failed").unwrap(), vec![7]);
    assert!(answer_body(Err("no".into()), "failed").is_err());
    assert!(answer_json(Err("no".into())).is_err());
}
