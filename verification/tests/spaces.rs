//! Spaces across modules: what is stored of them, how they are routed, and who
//! may read.
use happyview::error::AppError;
use happyview::json::Json;
use happyview::spaces::routes::{LEGACY_NS, PROTO_NS};
use happyview::spaces::scope::{check_delegation_token_access, check_read_access};
use happyview::spaces::types::{AppAccess, MemberAccess, OplogAction, Policy, SpaceConfig};

#[test]
fn oplog_action_serde_roundtrip() {
    for action in [
        OplogAction::Create,
        OplogAction::Update,
        OplogAction::Delete,
    ] {
        let word = action.as_str();
        let parsed = OplogAction::parse(word).unwrap();
        assert_eq!(parsed, action);
    }
}

#[test]
fn policy_serde_roundtrip() {
    // Policies are lexicon open unions tagged by `$type`, not enum strings.
    let cases = [
        (
            Policy::MemberList,
            r#"{"$type":"com.atproto.simplespace.defs#memberListPolicy"}"#,
        ),
        (
            Policy::Public,
            r#"{"$type":"com.atproto.simplespace.defs#publicPolicy"}"#,
        ),
        (
            Policy::ManagingApp {
                managing_app: "did:web:app#forum".into(),
            },
            r#"{"$type":"com.atproto.simplespace.defs#managingAppPolicy","managingApp":"did:web:app#forum"}"#,
        ),
    ];
    for (policy, expected_json) in cases {
        let json = policy.to_json().to_text();
        assert_eq!(json, expected_json);
        let parsed = Policy::from_json(&Json::parse(&json).unwrap()).unwrap();
        assert_eq!(parsed, policy);
    }
}

#[test]
fn app_access_open_default() {
    let access = AppAccess::default();
    assert!(matches!(access, AppAccess::Open));
    let json = access.to_json().to_text();
    assert_eq!(json, r#"{"$type":"com.atproto.simplespace.defs#open"}"#);
}

#[test]
fn app_access_allowlist_roundtrip() {
    let access = AppAccess::AllowList {
        allowed: vec!["https://app.example.com/client-metadata.json".into()],
    };
    let json = access.to_json().to_text();
    let parsed = AppAccess::from_json(&Json::parse(&json).unwrap()).unwrap();
    match parsed {
        AppAccess::AllowList { allowed } => {
            assert_eq!(allowed.len(), 1);
            assert_eq!(allowed[0], "https://app.example.com/client-metadata.json");
        }
        _ => panic!("expected AllowList"),
    }
}

#[test]
fn space_config_defaults_false() {
    let config = SpaceConfig::from_json(Json::parse("{}").unwrap()).unwrap();
    assert!(!config.membership_public);
    assert!(!config.records_public);
    assert!(config.extra.is_empty());
}

#[test]
fn space_config_preserves_extra_fields() {
    let json = r#"{"membership_public":true,"records_public":false,"allowedCollections":["col.a","col.b"]}"#;
    let config = SpaceConfig::from_json(Json::parse(json).unwrap()).unwrap();
    assert!(config.membership_public);
    assert!(!config.records_public);
    let collections = config.get_extra("allowedCollections").unwrap();
    assert_eq!(collections.as_list().unwrap().len(), 2);
}

#[test]
fn proto_ns_value_is_com_atproto() {
    // getDelegationToken is on the proto namespace; getMemberGrant is the legacy alias
    let proto_route = format!("/xrpc/{}.space.getDelegationToken", PROTO_NS);
    assert_eq!(proto_route, "/xrpc/com.atproto.space.getDelegationToken");
}

#[test]
fn legacy_ns_value_is_dev_happyview() {
    // getMemberGrant is the legacy alias for getDelegationToken
    let legacy_route = format!("/xrpc/{}.space.getMemberGrant", LEGACY_NS);
    assert_eq!(legacy_route, "/xrpc/dev.happyview.space.getMemberGrant");
}

#[test]
fn create_space_legacy_maps_to_simplespace() {
    // dev.happyview.space.createSpace is the legacy alias for com.atproto.simplespace.createSpace
    let legacy = format!("/xrpc/{}.space.createSpace", LEGACY_NS);
    let canonical = format!("/xrpc/{}.simplespace.createSpace", PROTO_NS);
    // Both paths must be distinct strings that map to the same handler
    assert_ne!(legacy, canonical);
    assert_eq!(legacy, "/xrpc/dev.happyview.space.createSpace");
    assert_eq!(canonical, "/xrpc/com.atproto.simplespace.createSpace");
}

/// read_self member reads own record → ok
#[test]
fn read_self_member_reads_own_record_ok() {
    let result = check_read_access(
        "did:plc:alice",
        "did:plc:alice",
        MemberAccess::self_reader(),
        false,
    );
    assert!(result.is_ok());
}

/// read_self member reads other's record → error
#[test]
fn read_self_member_reads_others_record_err() {
    let result = check_read_access(
        "did:plc:alice",
        "did:plc:bob",
        MemberAccess::self_reader(),
        false,
    );
    assert!(result.is_err());
}

/// read_self member tries getDelegationToken → error
#[test]
fn read_self_member_cannot_get_delegation_token() {
    let result = check_delegation_token_access(MemberAccess::self_reader(), false);
    assert!(result.is_err());
    match result {
        Err(AppError::Forbidden(message)) => assert!(message.contains("delegation")),
        other => panic!("{other:?}"),
    }
}

/// Full read member: can read own record
#[test]
fn full_read_member_reads_own_record_ok() {
    assert!(
        check_read_access("did:plc:alice", "did:plc:alice", MemberAccess::reader(), false).is_ok()
    );
}

/// Full read member: can read other's record
#[test]
fn full_read_member_reads_others_record_ok() {
    assert!(
        check_read_access("did:plc:alice", "did:plc:bob", MemberAccess::reader(), false).is_ok()
    );
}

/// Full read member: can get delegation token
#[test]
fn full_read_member_can_get_delegation_token() {
    assert!(check_delegation_token_access(MemberAccess::reader(), false).is_ok());
}

/// space_credential bypasses read_self restriction on reads
#[test]
fn space_credential_bypasses_read_self_on_read() {
    assert!(
        check_read_access(
            "did:plc:alice",
            "did:plc:bob",
            MemberAccess::self_reader(),
            true
        )
        .is_ok()
    );
}

/// space_credential bypasses read_self restriction on delegation token
#[test]
fn space_credential_bypasses_read_self_on_delegation() {
    assert!(check_delegation_token_access(MemberAccess::self_reader(), true).is_ok());
}

#[test]
fn unknown_words_and_types_are_not_read() {
    assert!(OplogAction::parse("upsert").is_none());
    assert!(Policy::from_json(&Json::parse(r#"{"$type":"com.example#other"}"#).unwrap()).is_none());
    assert!(AppAccess::from_json(&Json::parse(r#""open""#).unwrap()).is_none());
    assert!(SpaceConfig::from_json(Json::parse("[]").unwrap()).is_none());
}
