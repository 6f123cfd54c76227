//! Who the members of a space are.
use happyview::error::AppError;
use happyview::spaces::members::{
    is_member, merge_access, resolve_delegation_target, resolve_members, AccessMap, DelegationLookup,
    WalkStep, MAX_DELEGATION_DEPTH,
};
use happyview::spaces::types::{MemberAccess, ResolvedMember, SpaceMember};

#[test]
fn merge_access_write_wins() {
    let mut map = AccessMap::new();
    merge_access(&mut map, "did:plc:user1", MemberAccess::reader());
    assert_eq!(map.get("did:plc:user1"), Some(MemberAccess::reader()));

    merge_access(&mut map, "did:plc:user1", MemberAccess::writer());
    assert_eq!(map.get("did:plc:user1"), Some(MemberAccess::writer()));

    // Write should not be downgraded to Read
    merge_access(&mut map, "did:plc:user1", MemberAccess::reader());
    assert_eq!(map.get("did:plc:user1"), Some(MemberAccess::writer()));
}

#[test]
fn merge_access_preserves_read_self() {
    // A read_self member must NOT be silently promoted to full read.
    let mut map = AccessMap::new();
    merge_access(&mut map, "did:plc:user", MemberAccess::self_reader());
    assert_eq!(map.get("did:plc:user"), Some(MemberAccess::self_reader()));
}

#[test]
fn merge_access_upgrades_but_never_downgrades() {
    // read_self upgraded by a higher grant on another path.
    let mut map = AccessMap::new();
    merge_access(&mut map, "u", MemberAccess::self_reader());
    merge_access(&mut map, "u", MemberAccess::reader());
    assert_eq!(map.get("u"), Some(MemberAccess::reader()));
    merge_access(&mut map, "u", MemberAccess::writer());
    assert_eq!(map.get("u"), Some(MemberAccess::writer()));

    // A lower grant on another path never downgrades.
    let mut map2 = AccessMap::new();
    merge_access(&mut map2, "v", MemberAccess::reader());
    merge_access(&mut map2, "v", MemberAccess::self_reader());
    assert_eq!(map2.get("v"), Some(MemberAccess::reader()));

    merge_access(&mut map2, "v", MemberAccess::writer());
    merge_access(&mut map2, "v", MemberAccess::self_reader());
    assert_eq!(map2.get("v"), Some(MemberAccess::writer()));
}

#[test]
fn merge_access_multiple_users() {
    let mut map = AccessMap::new();
    merge_access(&mut map, "did:plc:alice", MemberAccess::writer());
    merge_access(&mut map, "did:plc:bob", MemberAccess::reader());
    assert_eq!(map.len(), 2);
    assert_eq!(map.get("did:plc:alice"), Some(MemberAccess::writer()));
    assert_eq!(map.get("did:plc:bob"), Some(MemberAccess::reader()));
}

fn entry(did: &str, access: MemberAccess, is_delegation: bool) -> SpaceMember {
    SpaceMember {
        id: format!("row-{did}"),
        space_id: "s".to_string(),
        did: did.to_string(),
        access,
        is_delegation,
        granted_by: None,
        created_at: String::new(),
    }
}

/// Answers a walk out of a few spaces: an id, the address it is found under, and
/// its entries.
fn walk(
    start: &str,
    spaces: &[(&str, &str, &[(&str, MemberAccess, bool)])],
) -> Result<Vec<ResolvedMember>, AppError> {
    let mut step = resolve_members(start)?;
    loop {
        step = match step {
            WalkStep::Done(members) => return Ok(members),
            WalkStep::ListMembers(walk, id) => {
                let found = spaces.iter().find(|s| s.0 == id);
                let entries = match found {
                    Some(s) => s.2.iter().map(|(d, a, g)| entry(d, *a, *g)).collect(),
                    None => vec![],
                };
                walk.on_members(entries)?
            }
            WalkStep::FindSpace(walk, lookup) => {
                let key = match lookup {
                    DelegationLookup::Address { did, type_nsid, skey } => {
                        format!("at://{did}/space/{type_nsid}/{skey}")
                    }
                    DelegationLookup::Id(id) => id,
                };
                let found = spaces.iter().find(|s| s.1 == key || s.0 == key);
                walk.on_space(found.map(|s| s.0.to_string()))?
            }
        };
    }
}

#[test]
fn a_delegation_stands_for_the_members_of_its_space() {
    let members = walk(
        "a",
        &[
            (
                "a",
                "at://did:plc:a/space/t/a",
                &[
                    ("did:plc:zoe", MemberAccess::reader(), false),
                    ("at://did:plc:b/space/t/b", MemberAccess::reader(), true),
                ],
            ),
            (
                "b",
                "at://did:plc:b/space/t/b",
                &[
                    ("did:plc:bob", MemberAccess::writer(), false),
                    ("did:plc:zoe", MemberAccess::writer(), false),
                ],
            ),
        ],
    )
    .unwrap();
    let dids: Vec<&str> = members.iter().map(|m| m.did.as_str()).collect();
    assert_eq!(dids, vec!["did:plc:bob", "did:plc:zoe"]);
    assert_eq!(is_member(&members, "did:plc:zoe"), Some(MemberAccess::writer()));
    assert_eq!(is_member(&members, "did:plc:eve"), None);
}

#[test]
fn spaces_that_delegate_to_each_other_are_walked_once() {
    let members = walk(
        "a",
        &[
            (
                "a",
                "at://did:plc:a/space/t/a",
                &[
                    ("did:plc:ann", MemberAccess::reader(), false),
                    ("at://did:plc:b/space/t/b", MemberAccess::reader(), true),
                ],
            ),
            (
                "b",
                "at://did:plc:b/space/t/b",
                &[("at://did:plc:a/space/t/a", MemberAccess::reader(), true)],
            ),
        ],
    )
    .unwrap();
    assert_eq!(members.len(), 1);
    assert_eq!(members[0].did, "did:plc:ann");
}

#[test]
fn a_delegation_to_a_missing_space_adds_nobody() {
    let members = walk(
        "a",
        &[("a", "at://did:plc:a/space/t/a", &[("at://did:plc:x/space/t/x", MemberAccess::reader(), true)])],
    )
    .unwrap();
    assert!(members.is_empty());
}

#[test]
fn delegations_name_spaces_by_address_or_by_id() {
    assert!(matches!(
        resolve_delegation_target("at://did:plc:b/space/t/b"),
        Ok(DelegationLookup::Address { did, type_nsid, skey })
            if did == "did:plc:b" && type_nsid == "t" && skey == "b"
    ));
    assert!(matches!(
        resolve_delegation_target("space-id"),
        Ok(DelegationLookup::Id(id)) if id == "space-id"
    ));
    assert_eq!(MAX_DELEGATION_DEPTH, 10);
}
