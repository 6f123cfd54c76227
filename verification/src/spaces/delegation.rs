//! What following delegations comes to: which spaces are reached, and who is a
//! member by way of them.
use vstd::prelude::*;

use crate::spaces::members;
use crate::spaces::members::{Found, Store, MAX_DELEGATION_DEPTH};
use crate::spaces::types::{MemberAccess, SpaceMember};

verus! {

/// Whether an entry delegates to a space.
pub open spec fn entry_delegates(store: Store, entry: SpaceMember, target: Seq<char>) -> bool {
    entry.is_delegation && members::lookup_of(entry.did@) is Ok && (store.space)(
        members::lookup_of(entry.did@)->Ok_0,
    ) == Some(target)
}

/// Whether a space delegates to another.
pub open spec fn delegates(store: Store, space: Seq<char>, target: Seq<char>) -> bool {
    exists|j: int|
        0 <= j < (store.members)(space).len() && entry_delegates(
            store,
            #[trigger] (store.members)(space)[j],
            target,
        )
}

/// Whether a space is reached from another by so many delegations.
pub open spec fn reached_by(store: Store, from: Seq<char>, to: Seq<char>, steps: nat) -> bool
    decreases steps,
{
    if steps == 0 {
        from == to
    } else {
        exists|mid: Seq<char>|
            reached_by(store, from, mid, (steps - 1) as nat) && #[trigger] delegates(store, mid, to)
    }
}

/// Whether a space is reached from another by delegations.
pub open spec fn reachable(store: Store, from: Seq<char>, to: Seq<char>) -> bool {
    exists|steps: nat| reached_by(store, from, to, steps)
}

/// Whether spaces are a chain of delegations that begins with a space.
pub open spec fn is_chain(store: Store, from: Seq<char>, path: Seq<Seq<char>>) -> bool {
    &&& path.len() > 0
    &&& path[0] == from
    &&& forall|i: int| 0 <= i < path.len() - 1 ==> delegates(store, #[trigger] path[i], path[i + 1])
}

/// Whether no chain of delegations from a space through different spaces is
/// longer than delegations are followed.
pub open spec fn chains_are_short(store: Store, from: Seq<char>) -> bool {
    forall|path: Seq<Seq<char>>| #[trigger]
        is_chain(store, from, path) && path.no_duplicates() ==> path.len() <= MAX_DELEGATION_DEPTH
}

/// The spaces whose entries count for the members of a space.
pub open spec fn spaces_of(store: Store, space: Seq<char>) -> Set<Seq<char>> {
    match members::visit(store, space, (Found { resolved: Map::empty(), visited: Set::empty() }), 0) {
        Ok(found) => found.visited,
        Err(_) => Set::empty(),
    }
}

/// Whether an entry names a DID as a member.
pub open spec fn names(entry: SpaceMember, did: Seq<char>) -> bool {
    !entry.is_delegation && entry.did@ == did
}

/// Whether one of some entries, from the `i`th on, names a DID.
pub open spec fn list_names(entries: Seq<SpaceMember>, i: nat, did: Seq<char>) -> bool {
    exists|j: int| i <= j < entries.len() && names(#[trigger] entries[j], did)
}

/// Whether a grant covers what each of some entries, from the `i`th on, grants a
/// DID.
pub open spec fn list_covered(entries: Seq<SpaceMember>, i: nat, did: Seq<char>, cover: MemberAccess) -> bool {
    forall|j: int|
        i <= j < entries.len() && names(#[trigger] entries[j], did) ==> cover.covers(entries[j].access)
}

/// Whether one of some spaces names a DID as a member.
pub open spec fn any_names(store: Store, spaces: Set<Seq<char>>, did: Seq<char>) -> bool {
    exists|space: Seq<char>| #[trigger]
        spaces.contains(space) && list_names((store.members)(space), 0, did)
}

/// Whether a grant covers all that some spaces grant a DID.
pub open spec fn all_covered(
    store: Store,
    spaces: Set<Seq<char>>,
    did: Seq<char>,
    cover: MemberAccess,
) -> bool {
    forall|space: Seq<char>| #[trigger]
        spaces.contains(space) ==> list_covered((store.members)(space), 0, did, cover)
}

/// Whether a grant covers what a map permits to a DID.
pub open spec fn map_covered(map: Map<Seq<char>, MemberAccess>, did: Seq<char>, cover: MemberAccess) -> bool {
    map.contains_key(did) ==> cover.covers(map[did])
}

spec fn fresh(before: Found, after: Found) -> Set<Seq<char>> {
    after.visited.difference(before.visited)
}

proof fn lemma_fresh_parts(store: Store, a: Found, b: Found, c: Found, did: Seq<char>, cover: MemberAccess)
    requires
        a.visited.subset_of(b.visited),
        b.visited.subset_of(c.visited),
    ensures
        any_names(store, fresh(a, c), did) <==> any_names(store, fresh(a, b), did) || any_names(
            store,
            fresh(b, c),
            did,
        ),
        all_covered(store, fresh(a, c), did, cover) <==> all_covered(store, fresh(a, b), did, cover)
            && all_covered(store, fresh(b, c), did, cover),
{
    assert forall|s: Seq<char>| #[trigger] fresh(a, c).contains(s) <==> fresh(a, b).contains(s) || fresh(
        b,
        c,
    ).contains(s) by {}
    if any_names(store, fresh(a, c), did) {
        let s = choose|s: Seq<char>| #[trigger]
            fresh(a, c).contains(s) && list_names((store.members)(s), 0, did);
        assert(fresh(a, b).contains(s) || fresh(b, c).contains(s));
    }
    if any_names(store, fresh(a, b), did) {
        let s = choose|s: Seq<char>| #[trigger]
            fresh(a, b).contains(s) && list_names((store.members)(s), 0, did);
        assert(fresh(a, c).contains(s));
    }
    if any_names(store, fresh(b, c), did) {
        let s = choose|s: Seq<char>| #[trigger]
            fresh(b, c).contains(s) && list_names((store.members)(s), 0, did);
        assert(fresh(a, c).contains(s));
    }
    if all_covered(store, fresh(a, c), did, cover) {
        assert forall|s: Seq<char>| #[trigger] fresh(a, b).contains(s) implies list_covered(
            (store.members)(s),
            0,
            did,
            cover,
        ) by {
            assert(fresh(a, c).contains(s));
        }
        assert forall|s: Seq<char>| #[trigger] fresh(b, c).contains(s) implies list_covered(
            (store.members)(s),
            0,
            did,
            cover,
        ) by {
            assert(fresh(a, c).contains(s));
        }
    }
}

proof fn lemma_visit(store: Store, space: Seq<char>, found: Found, depth: nat, did: Seq<char>, cover: MemberAccess)
    ensures
        members::visit(store, space, found, depth) matches Ok(next) ==> {
            &&& found.visited.subset_of(next.visited)
            &&& next.resolved.contains_key(did) <==> found.resolved.contains_key(did) || any_names(
                store,
                fresh(found, next),
                did,
            )
            &&& map_covered(next.resolved, did, cover) <==> map_covered(found.resolved, did, cover)
                && all_covered(store, fresh(found, next), did, cover)
        },
    decreases 2 * (MAX_DELEGATION_DEPTH - depth) + 1, 0int,
{
    if depth >= MAX_DELEGATION_DEPTH || found.visited.contains(space) {
        assert(fresh(found, found) =~= Set::empty());
    } else {
        let entered = Found { visited: found.visited.insert(space), ..found };
        let entries = (store.members)(space);
        lemma_take_members(store, entries, entered, depth, 0, did, cover);
        if let Ok(next) = members::take_members(store, entries, entered, depth, 0) {
            lemma_fresh_parts(store, found, entered, next, did, cover);
            assert(fresh(found, entered) =~= set![space]);
            assert(set![space].contains(space));
            assert(any_names(store, set![space], did) <==> list_names(entries, 0, did));
            assert(all_covered(store, set![space], did, cover) <==> list_covered(entries, 0, did, cover));
        }
    }
}

proof fn lemma_take_members(
    store: Store,
    entries: Seq<SpaceMember>,
    found: Found,
    depth: nat,
    i: nat,
    did: Seq<char>,
    cover: MemberAccess,
)
    requires
        depth < MAX_DELEGATION_DEPTH,
    ensures
        members::take_members(store, entries, found, depth, i) matches Ok(next) ==> {
            &&& found.visited.subset_of(next.visited)
            &&& next.resolved.contains_key(did) <==> found.resolved.contains_key(did) || list_names(
                entries,
                i,
                did,
            ) || any_names(store, fresh(found, next), did)
            &&& map_covered(next.resolved, did, cover) <==> map_covered(found.resolved, did, cover)
                && list_covered(entries, i, did, cover) && all_covered(
                store,
                fresh(found, next),
                did,
                cover,
            )
        },
    decreases 2 * (MAX_DELEGATION_DEPTH - depth), entries.len() - i,
{
    assert(fresh(found, found) =~= Set::empty());
    let entry = entries[i as int];
    if i < entries.len() {
        lemma_take_member(store, entry, found, depth, did, cover);
    }
    let step = members::take_member(store, entry, found, depth);
    if i < entries.len() && step is Ok {
        let mid = step->Ok_0;
        lemma_take_members(store, entries, mid, depth, i + 1, did, cover);
        if let Ok(next) = members::take_members(store, entries, mid, depth, i + 1) {
            lemma_fresh_parts(store, found, mid, next, did, cover);
            assert(list_names(entries, i, did) <==> names(entry, did) || list_names(
                entries,
                i + 1,
                did,
            )) by {
                if names(entry, did) {
                    assert(names(entries[i as int], did));
                }
            }
            assert(list_covered(entries, i, did, cover) <==> (names(entry, did) ==> cover.covers(
                entry.access,
            )) && list_covered(entries, i + 1, did, cover)) by {
                if (names(entry, did) ==> cover.covers(entry.access)) && list_covered(
                    entries,
                    i + 1,
                    did,
                    cover,
                ) {
                    assert forall|j: int|
                        i <= j < entries.len() && names(#[trigger] entries[j], did) implies cover.covers(
                        entries[j].access,
                    ) by {}
                }
                if list_covered(entries, i, did, cover) {
                    assert(names(entries[i as int], did) ==> cover.covers(entries[i as int].access));
                }
            }
        }
    }
}

proof fn lemma_take_member(
    store: Store,
    entry: SpaceMember,
    found: Found,
    depth: nat,
    did: Seq<char>,
    cover: MemberAccess,
)
    requires
        depth < MAX_DELEGATION_DEPTH,
    ensures
        members::take_member(store, entry, found, depth) matches Ok(next) ==> {
            &&& found.visited.subset_of(next.visited)
            &&& next.resolved.contains_key(did) <==> found.resolved.contains_key(did) || names(entry, did)
                || any_names(store, fresh(found, next), did)
            &&& map_covered(next.resolved, did, cover) <==> map_covered(found.resolved, did, cover) && (names(
                entry,
                did,
            ) ==> cover.covers(entry.access)) && all_covered(store, fresh(found, next), did, cover)
        },
    decreases 2 * (MAX_DELEGATION_DEPTH - depth), 0int,
{
    assert(fresh(found, found) =~= Set::empty());
    if entry.is_delegation {
        if let Ok(lookup) = members::lookup_of(entry.did@) {
            if let Some(target) = (store.space)(lookup) {
                lemma_visit(store, target, found, depth + 1, did, cover);
            }
        }
    } else {
        let next = members::merged(found.resolved, entry.did@, entry.access);
        assert(Found { resolved: next, ..found }.visited == found.visited);
        assert(fresh(found, Found { resolved: next, ..found }) =~= Set::empty());
    }
}

/// Whoever is a member of a space is named by the entry of a space that counts for
/// it, and everyone named so is a member. What a member is permitted is the union
/// of what those entries grant: it covers each of them, and whatever covers each
/// of them covers it.
pub proof fn law_members_are_named_by_the_spaces_that_count(
    store: Store,
    space: Seq<char>,
    did: Seq<char>,
    cover: MemberAccess,
)
    ensures
        members::members_of(store, space) matches Ok(map) ==> {
            &&& map.contains_key(did) <==> any_names(store, spaces_of(store, space), did)
            &&& map.contains_key(did) ==> (cover.covers(map[did]) <==> all_covered(
                store,
                spaces_of(store, space),
                did,
                cover,
            ))
            &&& map.contains_key(did) ==> all_covered(store, spaces_of(store, space), did, map[did])
        },
{
    let none = Found { resolved: Map::empty(), visited: Set::empty() };
    lemma_visit(store, space, none, 0, did, cover);
    if let Ok(found) = members::visit(store, space, none, 0) {
        assert(fresh(none, found) =~= found.visited);
        if found.resolved.contains_key(did) {
            lemma_visit(store, space, none, 0, did, found.resolved[did]);
        }
    }
}

spec fn all_within(store: Store, from: Seq<char>, spaces: Set<Seq<char>>) -> bool {
    forall|s: Seq<char>| #[trigger]
        spaces.contains(s) ==> exists|n: nat| n < MAX_DELEGATION_DEPTH && reached_by(store, from, s, n)
}

proof fn lemma_visit_reaches(store: Store, from: Seq<char>, space: Seq<char>, found: Found, depth: nat)
    requires
        reached_by(store, from, space, depth),
        all_within(store, from, found.visited),
    ensures
        members::visit(store, space, found, depth) matches Ok(next) ==> all_within(store, from, next.visited),
    decreases 2 * (MAX_DELEGATION_DEPTH - depth) + 1, 0int,
{
    if !(depth >= MAX_DELEGATION_DEPTH || found.visited.contains(space)) {
        let entered = Found { visited: found.visited.insert(space), ..found };
        assert(all_within(store, from, entered.visited)) by {
            assert forall|s: Seq<char>| #[trigger] entered.visited.contains(s) implies exists|n: nat|
                n < MAX_DELEGATION_DEPTH && reached_by(store, from, s, n) by {
                if s != space {
                    assert(found.visited.contains(s));
                }
            }
        }
        lemma_entries_reach(store, from, space, entered, depth, 0);
    }
}

proof fn lemma_entries_reach(
    store: Store,
    from: Seq<char>,
    space: Seq<char>,
    found: Found,
    depth: nat,
    i: nat,
)
    requires
        depth < MAX_DELEGATION_DEPTH,
        reached_by(store, from, space, depth),
        all_within(store, from, found.visited),
    ensures
        members::take_members(store, (store.members)(space), found, depth, i) matches Ok(next) ==> all_within(
            store,
            from,
            next.visited,
        ),
    decreases 2 * (MAX_DELEGATION_DEPTH - depth), (store.members)(space).len() - i,
{
    let entries = (store.members)(space);
    if i < entries.len() {
        let entry = entries[i as int];
        if entry.is_delegation {
            if let Ok(lookup) = members::lookup_of(entry.did@) {
                if let Some(target) = (store.space)(lookup) {
                    assert(entry_delegates(store, entries[i as int], target));
                    assert(delegates(store, space, target));
                    assert(reached_by(store, from, target, depth + 1));
                    lemma_visit_reaches(store, from, target, found, depth + 1);
                }
            }
        }
        if let Ok(mid) = members::take_member(store, entry, found, depth) {
            lemma_entries_reach(store, from, space, mid, depth, i + 1);
        }
    }
}

/// Every space that counts for the members of a space is reached from it by fewer
/// delegations than are followed.
pub proof fn law_spaces_that_count_are_reached(store: Store, space: Seq<char>, other: Seq<char>)
    requires
        spaces_of(store, space).contains(other),
    ensures
        exists|n: nat| n < MAX_DELEGATION_DEPTH && reached_by(store, space, other, n),
{
    let none = Found { resolved: Map::empty(), visited: Set::empty() };
    assert(reached_by(store, space, space, 0));
    lemma_visit_reaches(store, space, space, none, 0);
}

/// Whether all that some spaces delegate to is among others.
spec fn leads_into(store: Store, spaces: Set<Seq<char>>, others: Set<Seq<char>>) -> bool {
    forall|s: Seq<char>, t: Seq<char>| #[trigger]
        spaces.contains(s) && #[trigger] delegates(store, s, t) ==> others.contains(t)
}

/// Whether a chain of different spaces was walked to get here.
spec fn walked(store: Store, from: Seq<char>, path: Seq<Seq<char>>, visited: Set<Seq<char>>, depth: nat) -> bool {
    &&& is_chain(store, from, path)
    &&& path.no_duplicates()
    &&& path.len() == depth + 1
    &&& forall|i: int| 0 <= i < path.len() ==> visited.contains(#[trigger] path[i])
}

proof fn lemma_visit_closes(
    store: Store,
    from: Seq<char>,
    path: Seq<Seq<char>>,
    space: Seq<char>,
    found: Found,
    depth: nat,
)
    requires
        chains_are_short(store, from),
        is_chain(store, from, path.push(space)),
        path.no_duplicates(),
        path.len() == depth,
        forall|i: int| 0 <= i < path.len() ==> found.visited.contains(#[trigger] path[i]),
    ensures
        members::visit(store, space, found, depth) matches Ok(next) ==> {
            &&& found.visited.subset_of(next.visited)
            &&& next.visited.contains(space)
            &&& leads_into(store, fresh(found, next), next.visited)
        },
    decreases 2 * (MAX_DELEGATION_DEPTH - depth) + 1, 0int,
{
    let longer = path.push(space);
    if found.visited.contains(space) {
        assert(fresh(found, found) =~= Set::empty());
    } else {
        assert(longer.no_duplicates()) by {
            assert forall|i: int, j: int|
                0 <= i < longer.len() && 0 <= j < longer.len() && i != j implies longer[i] != longer[j] by {
                if i < path.len() {
                    assert(longer[i] == path[i]);
                }
                if j < path.len() {
                    assert(longer[j] == path[j]);
                }
            }
        }
        assert(longer.len() <= MAX_DELEGATION_DEPTH);
        let entered = Found { visited: found.visited.insert(space), ..found };
        assert(walked(store, from, longer, entered.visited, depth)) by {
            assert forall|i: int| 0 <= i < longer.len() implies entered.visited.contains(
                #[trigger] longer[i],
            ) by {
                if i < path.len() {
                    assert(longer[i] == path[i]);
                }
            }
        }
        lemma_entries_close(store, from, longer, space, entered, depth, 0);
        if let Ok(next) = members::take_members(store, (store.members)(space), entered, depth, 0) {
            assert(next.visited.contains(space)) by {
                assert(entered.visited.contains(space));
            }
            assert forall|s: Seq<char>, t: Seq<char>| #[trigger]
                fresh(found, next).contains(s) && #[trigger] delegates(store, s, t) implies next.visited.contains(
                t,
            ) by {
                if s != space {
                    assert(fresh(entered, next).contains(s));
                } else {
                    let j = choose|j: int|
                        0 <= j < (store.members)(space).len() && entry_delegates(
                            store,
                            #[trigger] (store.members)(space)[j],
                            t,
                        );
                    assert(entry_delegates(store, (store.members)(space)[j], t));
                }
            }
        }
    }
}

proof fn lemma_entries_close(
    store: Store,
    from: Seq<char>,
    path: Seq<Seq<char>>,
    space: Seq<char>,
    found: Found,
    depth: nat,
    i: nat,
)
    requires
        chains_are_short(store, from),
        walked(store, from, path, found.visited, depth),
        path.last() == space,
        depth < MAX_DELEGATION_DEPTH,
    ensures
        members::take_members(store, (store.members)(space), found, depth, i) matches Ok(next) ==> {
            &&& found.visited.subset_of(next.visited)
            &&& leads_into(store, fresh(found, next), next.visited)
            &&& forall|j: int, t: Seq<char>|
                i <= j < (store.members)(space).len() && #[trigger] entry_delegates(
                    store,
                    (store.members)(space)[j],
                    t,
                ) ==> next.visited.contains(t)
        },
    decreases 2 * (MAX_DELEGATION_DEPTH - depth), (store.members)(space).len() - i,
{
    let entries = (store.members)(space);
    assert(fresh(found, found) =~= Set::empty());
    if i < entries.len() {
        let entry = entries[i as int];
        if entry.is_delegation {
            if let Ok(lookup) = members::lookup_of(entry.did@) {
                if let Some(target) = (store.space)(lookup) {
                    assert(entry_delegates(store, entries[i as int], target));
                    assert(delegates(store, space, target));
                    let longer = path.push(target);
                    assert(is_chain(store, from, longer)) by {
                        assert forall|k: int| 0 <= k < longer.len() - 1 implies delegates(
                            store,
                            #[trigger] longer[k],
                            longer[k + 1],
                        ) by {
                            assert(longer[k] == path[k]);
                            if k < path.len() - 1 {
                                assert(longer[k + 1] == path[k + 1]);
                            }
                        }
                    }
                    lemma_visit_closes(store, from, path, target, found, depth + 1);
                }
            }
        }
        if let Ok(mid) = members::take_member(store, entry, found, depth) {
            assert(found.visited.subset_of(mid.visited));
            assert(leads_into(store, fresh(found, mid), mid.visited)) by {
                if !entry.is_delegation {
                    assert(fresh(found, mid) =~= Set::empty());
                }
            }
            lemma_entries_close(store, from, path, space, mid, depth, i + 1);
            if let Ok(next) = members::take_members(store, entries, mid, depth, i + 1) {
                assert forall|s: Seq<char>, t: Seq<char>| #[trigger]
                    fresh(found, next).contains(s) && #[trigger] delegates(store, s, t) implies next.visited.contains(
                    t,
                ) by {
                    if mid.visited.contains(s) {
                        assert(fresh(found, mid).contains(s));
                        assert(mid.visited.contains(t));
                    } else {
                        assert(fresh(mid, next).contains(s));
                    }
                }
                assert forall|j: int, t: Seq<char>|
                    i <= j < entries.len() && #[trigger] entry_delegates(store, entries[j], t) implies next.visited.contains(
                    t,
                ) by {
                    if j == i {
                        assert(mid.visited.contains(t));
                    }
                }
            }
        }
    }
}

proof fn lemma_closed_holds_reached(
    store: Store,
    from: Seq<char>,
    to: Seq<char>,
    steps: nat,
    spaces: Set<Seq<char>>,
)
    requires
        spaces.contains(from),
        leads_into(store, spaces, spaces),
        reached_by(store, from, to, steps),
    ensures
        spaces.contains(to),
    decreases steps,
{
    if steps > 0 {
        let mid = choose|mid: Seq<char>|
            reached_by(store, from, mid, (steps - 1) as nat) && #[trigger] delegates(store, mid, to);
        lemma_closed_holds_reached(store, from, mid, (steps - 1) as nat, spaces);
        assert(spaces.contains(mid) && delegates(store, mid, to));
    }
}

/// Where no chain of delegations is longer than delegations are followed, just the
/// spaces that are reached by delegations count.
pub proof fn law_every_delegation_is_followed(store: Store, space: Seq<char>, other: Seq<char>)
    requires
        members::members_of(store, space) is Ok,
        chains_are_short(store, space),
    ensures
        spaces_of(store, space).contains(other) <==> reachable(store, space, other),
{
    let none = Found { resolved: Map::empty(), visited: Set::empty() };
    let start = Seq::<Seq<char>>::empty();
    assert(is_chain(store, space, start.push(space)));
    lemma_visit_closes(store, space, start, space, none, 0);
    let found = members::visit(store, space, none, 0)->Ok_0;
    assert(fresh(none, found) =~= found.visited);
    if reachable(store, space, other) {
        let steps = choose|steps: nat| reached_by(store, space, other, steps);
        lemma_closed_holds_reached(store, space, other, steps, found.visited);
    }
    if spaces_of(store, space).contains(other) {
        law_spaces_that_count_are_reached(store, space, other);
        let n = choose|n: nat| n < MAX_DELEGATION_DEPTH && reached_by(store, space, other, n);
        assert(reached_by(store, space, other, n));
    }
}

} // verus!
