//! What a member may read, and what a session's scope allows.
use happyview::auth::Claims;
use happyview::error::AppError;
use happyview::spaces::scope::{
    check_delegation_token_access, check_read_access, require_space_scope, scope_session,
};
use happyview::spaces::types::{AppAccess, MemberAccess, Policy, Space, SpaceConfig};

#[test]
fn read_access_allows_any_repo() {
    assert!(
        check_read_access("did:plc:alice", "did:plc:bob", MemberAccess::reader(), false).is_ok()
    );
}

#[test]
fn read_self_member_may_only_read_their_own_repo() {
    assert!(
        check_read_access("did:plc:me", "did:plc:me", MemberAccess::self_reader(), false).is_ok()
    );
    assert!(
        check_read_access(
            "did:plc:me",
            "did:plc:other",
            MemberAccess::self_reader(),
            false
        )
        .is_err()
    );
}

#[test]
fn write_without_read_is_representable_and_denies_reads() {
    // A writer need not also be a reader.
    let access = MemberAccess {
        read: false,
        write: true,
        read_self: false,
    };
    assert!(check_read_access("did:plc:me", "did:plc:other", access, false).is_err());
    assert!(access.can_write());
}

#[test]
fn a_space_credential_grants_read_regardless_of_membership() {
    let none = MemberAccess {
        read: false,
        write: false,
        read_self: false,
    };
    assert!(check_read_access("did:plc:me", "did:plc:other", none, true).is_ok());
}

#[test]
fn delegation_tokens_require_unrestricted_read() {
    assert!(check_delegation_token_access(MemberAccess::reader(), false).is_ok());
    assert!(check_delegation_token_access(MemberAccess::writer(), false).is_ok());
    assert!(check_delegation_token_access(MemberAccess::self_reader(), false).is_err());
}

#[test]
fn union_takes_the_most_permissive_on_each_axis() {
    let merged = MemberAccess::self_reader().union(MemberAccess::reader());
    assert!(merged.can_read());
    assert!(!merged.restricted_to_own_records());

    let merged = MemberAccess::self_reader().union(MemberAccess::self_reader());
    assert!(merged.restricted_to_own_records());

    let merged = MemberAccess::reader().union(MemberAccess::writer());
    assert!(merged.can_write());
}

fn a_space() -> Space {
    Space {
        id: "sp1".into(),
        did: "did:plc:aaa".into(),
        authority_did: "did:plc:aaa".into(),
        creator_did: "did:plc:aaa".into(),
        type_nsid: "com.example.forum".into(),
        skey: "main".into(),
        display_name: None,
        description: None,
        read_policy: Policy::MemberList,
        write_policy: Policy::MemberList,
        app_access: AppAccess::Open,
        config: SpaceConfig::default(),
        revision: None,
        created_at: String::new(),
        updated_at: String::new(),
    }
}

#[test]
fn membership_is_not_enough_without_a_grant() {
    let refused = require_space_scope(&a_space(), Some(false));
    assert_eq!(
        refused,
        Err(AppError::Forbidden(
            "this session is not authorized for this space: it needs a space: grant covering \
             com.example.forum?authority=did:plc:aaa&skey=main. Scopes are fixed when a session is \
             created, so this needs a new authorization."
                .into()
        ))
    );
    assert!(require_space_scope(&a_space(), Some(true)).is_ok());
}

#[test]
fn a_session_with_no_knowable_scopes_is_not_gated() {
    assert!(require_space_scope(&a_space(), None).is_ok());
    assert!(scope_session(&Claims::internal("did:plc:aaa".into())).is_none());
    let claims = Claims {
        did: "did:plc:aaa".into(),
        client_key: Some("hvc_1".into()),
        dpop_key_id: Some("key".into()),
    };
    assert_eq!(scope_session(&claims), Some(("hvc_1".to_string(), "key".to_string())));
}

#[test]
fn access_words_are_read_as_they_are_written() {
    for access in [
        MemberAccess::reader(),
        MemberAccess::writer(),
        MemberAccess::self_reader(),
    ] {
        assert_eq!(MemberAccess::parse_wire(access.as_wire_str()), Some(access));
    }
    assert_eq!(MemberAccess::parse_wire("owner"), None);
}
