//! Who the members of a space are, once the spaces that it delegates to are
//! followed.
//!
//! A space can name another space as a member, whose members are then its own.
//! Finding them takes lookups that only a store can make, so the walk over the
//! spaces is a machine: it says what to look up next, and is told what was
//! found.
use vstd::prelude::*;

use crate::error::{AppError, ErrorView};
use crate::order;
use crate::record_refs::TextSet;
use crate::spaces::types::{MemberAccess, ResolvedMember, SpaceMember};
use crate::spaces::uri;
use crate::spaces::SpaceUri;
use crate::text;

verus! {

/// How many delegations deep members are looked for.
pub const MAX_DELEGATION_DEPTH: usize = 10;

/// What the first of the entries for a DID permits.
pub open spec fn access_of(entries: Seq<ResolvedMember>, did: Seq<char>) -> Option<MemberAccess>
    decreases entries.len(),
{
    if entries.len() == 0 {
        None
    } else {
        match access_of(entries.drop_last(), did) {
            Some(access) => Some(access),
            None => if entries.last().did@ == did {
                Some(entries.last().access)
            } else {
                None
            },
        }
    }
}

/// What entries permit, by DID.
pub open spec fn access_map(entries: Seq<ResolvedMember>) -> Map<Seq<char>, MemberAccess> {
    Map::new(
        |did: Seq<char>| access_of(entries, did) is Some,
        |did: Seq<char>| access_of(entries, did)->0,
    )
}

/// Whether no DID has two entries.
pub open spec fn one_entry_each(entries: Seq<ResolvedMember>) -> bool {
    forall|i: int, j: int|
        0 <= i < j < entries.len() ==> (#[trigger] entries[i]).did@ != (#[trigger] entries[j]).did@
}

proof fn lemma_access_of(entries: Seq<ResolvedMember>, did: Seq<char>)
    ensures
        access_of(entries, did) is Some ==> exists|i: int|
            0 <= i < entries.len() && (#[trigger] entries[i]).did@ == did && access_of(entries, did) == Some(
                entries[i].access,
            ),
        access_of(entries, did) is None ==> forall|i: int|
            0 <= i < entries.len() ==> (#[trigger] entries[i]).did@ != did,
    decreases entries.len(),
{
    if entries.len() > 0 {
        let head = entries.drop_last();
        lemma_access_of(head, did);
        if access_of(head, did) is Some {
            let i = choose|i: int|
                0 <= i < head.len() && (#[trigger] head[i]).did@ == did && access_of(head, did) == Some(
                    head[i].access,
                );
            assert(entries[i] == head[i]);
        } else if entries.last().did@ == did {
            assert(entries[entries.len() - 1].did@ == did);
        } else {
            assert forall|i: int| 0 <= i < entries.len() implies (#[trigger] entries[i]).did@ != did by {
                if i < head.len() {
                    assert(entries[i] == head[i]);
                }
            }
        }
    }
}

proof fn lemma_access_at(entries: Seq<ResolvedMember>, i: int)
    requires
        one_entry_each(entries),
        0 <= i < entries.len(),
    ensures
        access_of(entries, entries[i].did@) == Some(entries[i].access),
{
    lemma_access_of(entries, entries[i].did@);
}

/// What members are permitted, by DID.
pub struct AccessMap {
    entries: Vec<ResolvedMember>,
}

impl View for AccessMap {
    type V = Map<Seq<char>, MemberAccess>;

    closed spec fn view(&self) -> Map<Seq<char>, MemberAccess> {
        access_map(self.entries@)
    }
}

/// What is permitted to a DID, if anything is known of it.
pub open spec fn permitted(map: Map<Seq<char>, MemberAccess>, did: Seq<char>) -> Option<MemberAccess> {
    if map.contains_key(did) {
        Some(map[did])
    } else {
        None
    }
}

/// The map with one more grant to a DID: the most that the old and the new
/// permit. A first grant stands as it is, so that a member who reads only own
/// records is not promoted.
pub open spec fn merged(
    map: Map<Seq<char>, MemberAccess>,
    did: Seq<char>,
    access: MemberAccess,
) -> Map<Seq<char>, MemberAccess> {
    if map.contains_key(did) {
        map.insert(did, map[did].joined(access))
    } else {
        map.insert(did, access)
    }
}

impl AccessMap {
    #[verifier::type_invariant]
    spec fn has_one_entry_each(self) -> bool {
        one_entry_each(self.entries@)
    }

    /// The map of nobody.
    pub fn new() -> (map: AccessMap)
        ensures
            map@ == Map::<Seq<char>, MemberAccess>::empty(),
    {
        let map = AccessMap { entries: Vec::new() };
        assert(map@ =~= Map::empty());
        map
    }

    /// How many DIDs are known.
    pub fn len(&self) -> (n: usize)
        ensures
            n == self@.dom().len(),
    {
        proof {
            use_type_invariant(self);
            let dids = Seq::new(self.entries@.len(), |i: int| self.entries@[i].did@);
            assert(dids.no_duplicates());
            dids.unique_seq_to_set();
            assert(self@.dom() =~= dids.to_set()) by {
                assert forall|did: Seq<char>| self@.dom().contains(did) <==> dids.to_set().contains(did) by {
                    lemma_access_of(self.entries@, did);
                    if self@.dom().contains(did) {
                        let i = choose|i: int|
                            0 <= i < self.entries@.len() && (#[trigger] self.entries@[i]).did@ == did && access_of(
                                self.entries@,
                                did,
                            ) == Some(self.entries@[i].access);
                        assert(dids[i] == did);
                    }
                    if dids.contains(did) {
                        let i = choose|i: int| 0 <= i < dids.len() && dids[i] == did;
                        assert(self.entries@[i].did@ == did);
                    }
                }
            }
        }
        self.entries.len()
    }

    /// What is permitted to a DID, if anything is known of it.
    pub fn get(&self, did: &str) -> (access: Option<MemberAccess>)
        ensures
            access == permitted(self@, did@),
    {
        find_access(&self.entries, did)
    }

    /// The entries, in the order of the DIDs.
    pub fn into_sorted(self) -> (members: Vec<ResolvedMember>)
        ensures
            access_map(members@) == self@,
            one_entry_each(members@),
            forall|i: int, j: int|
                0 <= i < j < members@.len() ==> text::text_before(
                    (#[trigger] members@[i]).did@,
                    (#[trigger] members@[j]).did@,
                ),
    {
        proof {
            use_type_invariant(&self);
        }
        let entries = &self.entries;
        let mut keys: Vec<Vec<u8>> = Vec::new();
        for i in 0..entries.len()
            invariant
                keys@.len() == i,
                forall|j: int|
                    0 <= j < i ==> (#[trigger] keys@[j])@ == vstd::utf8::encode_utf8(entries@[j].did@),
        {
            keys.push(vstd::slice::slice_to_vec(entries[i].did.as_str().as_bytes()));
        }
        let order = order::sort_order(&keys);
        let ghost indices = order::index_views(order@);
        let ghost views = order::key_views(keys@);
        proof {
            order::law_sorted_order(views);
        }
        let mut members: Vec<ResolvedMember> = Vec::new();
        for i in 0..order.len()
            invariant
                order::is_permutation(indices, entries@.len()),
                indices == order::index_views(order@),
                members@.len() == i,
                forall|j: int|
                    0 <= j < i ==> (#[trigger] members@[j]).did@ == entries@[indices[j]].did@ && members@[j].access
                        == entries@[indices[j]].access,
        {
            let at: usize = order[i];
            assert(indices[i as int] == at as int);
            members.push(
                ResolvedMember { did: entries[at].did.clone(), access: entries[at].access },
            );
        }
        proof {
            assert forall|i: int, j: int| 0 <= i < j < members@.len() implies text::text_before(
                (#[trigger] members@[i]).did@,
                (#[trigger] members@[j]).did@,
            ) && members@[i].did@ != members@[j].did@ by {
                assert(indices[i] != indices[j]);
                let a = entries@[indices[i]].did@;
                let b = entries@[indices[j]].did@;
                assert(a != b);
                vstd::utf8::encode_utf8_decode_utf8(a);
                vstd::utf8::encode_utf8_decode_utf8(b);
                assert(views[indices[i]] == vstd::utf8::encode_utf8(a));
                assert(views[indices[j]] == vstd::utf8::encode_utf8(b));
                text::lemma_bytes_total(views[indices[i]], views[indices[j]]);
            }
            assert(one_entry_each(members@));
            assert forall|did: Seq<char>| access_of(members@, did) == access_of(entries@, did) by {
                lemma_access_of(members@, did);
                lemma_access_of(entries@, did);
                if access_of(entries@, did) is Some {
                    let i = choose|i: int|
                        0 <= i < entries@.len() && (#[trigger] entries@[i]).did@ == did && access_of(
                            entries@,
                            did,
                        ) == Some(entries@[i].access);
                    order::lemma_permutation_reaches(indices, entries@.len(), i);
                    let k = choose|k: int| 0 <= k < indices.len() && indices[k] == i;
                    assert(members@[k].did@ == did);
                    lemma_access_at(members@, k);
                }
                if access_of(members@, did) is Some {
                    let i = choose|i: int|
                        0 <= i < members@.len() && (#[trigger] members@[i]).did@ == did && access_of(
                            members@,
                            did,
                        ) == Some(members@[i].access);
                    lemma_access_at(entries@, indices[i]);
                }
            }
            assert(access_map(members@) =~= access_map(entries@));
        }
        members
    }
}

/// What a list of members permits to a DID.
fn find_access(entries: &Vec<ResolvedMember>, did: &str) -> (access: Option<MemberAccess>)
    ensures
        access == access_of(entries@, did@),
{
    for i in 0..entries.len()
        invariant
            access_of(entries@.take(i as int), did@) is None,
    {
        assert(entries@.take(i + 1).drop_last() =~= entries@.take(i as int));
        if text::same_text(entries[i].did.as_str(), did) {
            proof {
                lemma_access_prefix(entries@, i + 1, did@);
            }
            return Some(entries[i].access);
        }
    }
    assert(entries@.take(entries@.len() as int) =~= entries@);
    None
}

proof fn lemma_access_prefix(entries: Seq<ResolvedMember>, n: int, did: Seq<char>)
    requires
        0 <= n <= entries.len(),
        access_of(entries.take(n), did) is Some,
    ensures
        access_of(entries, did) == access_of(entries.take(n), did),
    decreases entries.len() - n,
{
    if n < entries.len() {
        assert(entries.take(n + 1).drop_last() =~= entries.take(n));
        lemma_access_prefix(entries, n + 1, did);
    } else {
        assert(entries.take(n) =~= entries);
    }
}

/// Adds a grant to what a DID is permitted already.
pub fn merge_access(resolved: &mut AccessMap, did: &str, access: MemberAccess)
    ensures
        final(resolved)@ == merged(old(resolved)@, did@, access),
{
    proof {
        use_type_invariant(&*resolved);
    }
    let ghost before = resolved.entries@;
    let mut entries: Vec<ResolvedMember> = Vec::new();
    std::mem::swap(&mut entries, &mut resolved.entries);
    let count = entries.len();
    for i in 0..count
        invariant
            before == old(resolved).entries@,
            entries@ == before,
            count == before.len(),
            one_entry_each(before),
            resolved.entries@.len() == 0,
            forall|j: int| 0 <= j < i ==> (#[trigger] before[j]).did@ != did@,
    {
        if text::same_text(entries[i].did.as_str(), did) {
            let joined = entries[i].access.union(access);
            let entry = ResolvedMember { did: entries[i].did.clone(), access: joined };
            entries.set(i, entry);
            let ghost after = entries@;
            proof {
                assert(after =~= before.update(i as int, entry));
                assert(one_entry_each(after)) by {
                    assert forall|a: int, b: int| 0 <= a < b < after.len() implies (#[trigger] after[a]).did@
                        != (#[trigger] after[b]).did@ by {
                        assert(after[a].did@ == before[a].did@);
                        assert(after[b].did@ == before[b].did@);
                    }
                }
                lemma_access_at(before, i as int);
                lemma_access_at(after, i as int);
                assert forall|d: Seq<char>| d != did@ implies access_of(after, d) == access_of(before, d) by {
                    lemma_same_elsewhere(before, after, i as int, d);
                }
                assert(access_map(after) =~= merged(access_map(before), did@, access));
            }
            resolved.entries = entries;
            return;
        }
    }
    entries.push(ResolvedMember { did: did.to_owned(), access });
    let ghost after = entries@;
    proof {
        assert(after.drop_last() =~= before);
        assert(one_entry_each(after)) by {
            assert forall|a: int, b: int| 0 <= a < b < after.len() implies (#[trigger] after[a]).did@
                != (#[trigger] after[b]).did@ by {
                assert(after[a] == before[a]);
                if b < before.len() {
                    assert(after[b] == before[b]);
                }
            }
        }
        lemma_access_of(before, did@);
        assert(access_map(after) =~= merged(access_map(before), did@, access));
    }
    resolved.entries = entries;
}

proof fn lemma_same_elsewhere(a: Seq<ResolvedMember>, b: Seq<ResolvedMember>, at: int, did: Seq<char>)
    requires
        a.len() == b.len(),
        0 <= at < a.len(),
        a[at].did@ == b[at].did@,
        a[at].did@ != did,
        forall|i: int| 0 <= i < a.len() && i != at ==> a[i] == b[i],
    ensures
        access_of(a, did) == access_of(b, did),
    decreases a.len(),
{
    let p = a.drop_last();
    let q = b.drop_last();
    if at == a.len() - 1 {
        assert(p =~= q);
    } else {
        assert(p[at] == a[at] && q[at] == b[at]);
        lemma_same_elsewhere(p, q, at, did);
        assert(a[a.len() - 1] == b[a.len() - 1]);
    }
}

/// How the space that a delegation names is found.
#[derive(Debug)]
pub enum DelegationLookup {
    /// By its address.
    Address { did: String, type_nsid: String, skey: String },
    /// By its id.
    Id(String),
}

/// What a [`DelegationLookup`] looks for.
#[verifier::ext_equal]
pub enum LookupView {
    Address { did: Seq<char>, type_nsid: Seq<char>, skey: Seq<char> },
    Id(Seq<char>),
}

impl View for DelegationLookup {
    type V = LookupView;

    open spec fn view(&self) -> LookupView {
        match self {
            DelegationLookup::Address { did, type_nsid, skey } => LookupView::Address {
                did: did@,
                type_nsid: type_nsid@,
                skey: skey@,
            },
            DelegationLookup::Id(id) => LookupView::Id(id@),
        }
    }
}

/// How the space that a delegation names is found: entries hold either an
/// address or a space id.
pub open spec fn lookup_of(did: Seq<char>) -> Result<LookupView, ErrorView> {
    if text::has_prefix(did, "at://"@) || text::has_prefix(did, "ats://"@) {
        match uri::parsed_uri(did) {
            Ok(u) => Ok(LookupView::Address { did: u.did, type_nsid: u.type_nsid, skey: u.skey }),
            Err(error) => Err(error),
        }
    } else {
        Ok(LookupView::Id(did))
    }
}

/// How the space that a delegation names is found.
pub fn resolve_delegation_target(did: &str) -> (lookup: Result<DelegationLookup, AppError>)
    ensures
        crate::error::outcome(lookup) == lookup_of(did@),
{
    if text::starts_with(did, "at://") || text::starts_with(did, "ats://") {
        match SpaceUri::parse(did) {
            Ok(u) => Ok(
                DelegationLookup::Address { did: u.did, type_nsid: u.type_nsid, skey: u.skey },
            ),
            Err(error) => Err(error),
        }
    } else {
        Ok(DelegationLookup::Id(did.to_owned()))
    }
}

/// What a store would answer: the entries of each space, and the space that
/// each lookup finds.
pub struct Store {
    pub members: spec_fn(Seq<char>) -> Seq<SpaceMember>,
    pub space: spec_fn(LookupView) -> Option<Seq<char>>,
}

/// What a walk has found, and where it has been.
#[verifier::ext_equal]
pub struct Found {
    pub resolved: Map<Seq<char>, MemberAccess>,
    pub visited: Set<Seq<char>>,
}

/// What is found once a space and those that it delegates to were looked at. A
/// space is looked at once, and only so many delegations deep.
pub open spec fn visit(store: Store, space: Seq<char>, found: Found, depth: nat) -> Result<
    Found,
    ErrorView,
>
    decreases 2 * (MAX_DELEGATION_DEPTH - depth) + 1, 0int,
{
    if depth >= MAX_DELEGATION_DEPTH || found.visited.contains(space) {
        Ok(found)
    } else {
        take_members(
            store,
            (store.members)(space),
            Found { visited: found.visited.insert(space), ..found },
            depth,
            0,
        )
    }
}

/// What is found once the entries of a space from the `i`th on were looked at.
pub open spec fn take_members(
    store: Store,
    entries: Seq<SpaceMember>,
    found: Found,
    depth: nat,
    i: nat,
) -> Result<Found, ErrorView>
    decreases 2 * (MAX_DELEGATION_DEPTH - depth), entries.len() - i,
{
    if depth >= MAX_DELEGATION_DEPTH || i >= entries.len() {
        Ok(found)
    } else {
        match take_member(store, entries[i as int], found, depth) {
            Ok(next) => take_members(store, entries, next, depth, i + 1),
            Err(error) => Err(error),
        }
    }
}

/// What is found once one entry of a space was looked at.
pub open spec fn take_member(store: Store, entry: SpaceMember, found: Found, depth: nat) -> Result<
    Found,
    ErrorView,
>
    decreases 2 * (MAX_DELEGATION_DEPTH - depth), 0int,
{
    if depth >= MAX_DELEGATION_DEPTH {
        Ok(found)
    } else if entry.is_delegation {
        match lookup_of(entry.did@) {
            Err(error) => Err(error),
            Ok(lookup) => match (store.space)(lookup) {
                Some(target) => visit(store, target, found, depth + 1),
                None => Ok(found),
            },
        }
    } else {
        Ok(Found { resolved: merged(found.resolved, entry.did@, entry.access), ..found })
    }
}

/// The members of a space, by DID.
pub open spec fn members_of(store: Store, space: Seq<char>) -> Result<
    Map<Seq<char>, MemberAccess>,
    ErrorView,
> {
    match visit(store, space, (Found { resolved: Map::empty(), visited: Set::empty() }), 0) {
        Ok(found) => Ok(found.resolved),
        Err(error) => Err(error),
    }
}

/// The entries of a space that are still to be looked at.
struct Frame {
    entries: Vec<SpaceMember>,
    next: usize,
    depth: usize,
}

/// What is found once all entries that are still to be looked at were.
spec fn finished(store: Store, frames: Seq<Frame>, found: Found) -> Result<
    Map<Seq<char>, MemberAccess>,
    ErrorView,
>
    decreases frames.len(),
{
    if frames.len() == 0 {
        Ok(found.resolved)
    } else {
        let top = frames.last();
        match take_members(store, top.entries@, found, top.depth as nat, top.next as nat) {
            Ok(next) => finished(store, frames.drop_last(), next),
            Err(error) => Err(error),
        }
    }
}

/// What is found from an intermediate result on.
spec fn continued(store: Store, frames: Seq<Frame>, found: Result<Found, ErrorView>) -> Result<
    Map<Seq<char>, MemberAccess>,
    ErrorView,
> {
    match found {
        Ok(next) => finished(store, frames, next),
        Err(error) => Err(error),
    }
}

/// How much is left to be looked at.
spec fn work_left(frames: Seq<Frame>) -> nat
    decreases frames.len(),
{
    if frames.len() == 0 {
        0
    } else {
        let top = frames.last();
        let left: int = if top.next < top.entries@.len() {
            top.entries@.len() - top.next
        } else {
            0
        };
        work_left(frames.drop_last()) + (left + 1) as nat
    }
}

/// A walk over the spaces that a space delegates to.
pub struct MemberWalk {
    resolved: AccessMap,
    visited: TextSet,
    frames: Vec<Frame>,
    depth: usize,
}

impl MemberWalk {
    spec fn found(self) -> Found {
        Found { resolved: self.resolved@, visited: self.visited@ }
    }

    /// The spaces that the walk has been to.
    pub closed spec fn visited(self) -> Set<Seq<char>> {
        self.visited@
    }

    /// The members that the walk will have found, once the entries of the space
    /// that it asked for are known and a store answers the rest.
    pub closed spec fn outcome_of_list(self, store: Store, entries: Seq<SpaceMember>) -> Result<
        Map<Seq<char>, MemberAccess>,
        ErrorView,
    > {
        continued(
            store,
            self.frames@,
            take_members(store, entries, self.found(), self.depth as nat, 0),
        )
    }

    /// The members that the walk will have found, once the space that it looked
    /// up is known and a store answers the rest.
    pub closed spec fn outcome_of_space(self, store: Store, target: Option<Seq<char>>) -> Result<
        Map<Seq<char>, MemberAccess>,
        ErrorView,
    > {
        continued(
            store,
            self.frames@,
            match target {
                Some(space) => visit(store, space, self.found(), self.depth as nat),
                None => Ok(self.found()),
            },
        )
    }

    #[verifier::type_invariant]
    spec fn stays_shallow(self) -> bool {
        self.depth <= MAX_DELEGATION_DEPTH && forall|i: int|
            0 <= i < self.frames@.len() ==> (#[trigger] self.frames@[i]).depth < MAX_DELEGATION_DEPTH
    }
}

/// What a walk needs next.
pub enum WalkStep {
    /// The entries of this space, by id.
    ListMembers(MemberWalk, String),
    /// The id of the space that this lookup finds.
    FindSpace(MemberWalk, DelegationLookup),
    /// Nothing: these are the members, in the order of their DIDs.
    Done(Vec<ResolvedMember>),
}

/// The members that a walk will have found, if a store answers the rest.
pub open spec fn step_outcome(step: Result<WalkStep, AppError>, store: Store) -> Result<
    Map<Seq<char>, MemberAccess>,
    ErrorView,
> {
    match step {
        Ok(WalkStep::ListMembers(walk, space)) => walk.outcome_of_list(store, (store.members)(space@)),
        Ok(WalkStep::FindSpace(walk, lookup)) => walk.outcome_of_space(store, (store.space)(lookup@)),
        Ok(WalkStep::Done(members)) => Ok(access_map(members@)),
        Err(error) => Err(error@),
    }
}

/// What a step promises besides its outcome: a space is asked for once, and the
/// members are in the order of their DIDs.
pub open spec fn step_is_sound(step: Result<WalkStep, AppError>, visited: Set<Seq<char>>) -> bool {
    match step {
        Ok(WalkStep::ListMembers(walk, space)) => !visited.contains(space@)
            && walk.visited() == visited.insert(space@),
        Ok(WalkStep::FindSpace(walk, _)) => walk.visited() == visited,
        Ok(WalkStep::Done(members)) => one_entry_each(members@) && forall|i: int, j: int|
            0 <= i < j < members@.len() ==> text::text_before(
                (#[trigger] members@[i]).did@,
                (#[trigger] members@[j]).did@,
            ),
        Err(_) => true,
    }
}

impl MemberWalk {
    /// Goes on to the next thing that only a store can answer.
    fn advance(self) -> (step: Result<WalkStep, AppError>)
        ensures
            forall|store: Store| #[trigger]
                step_outcome(step, store) == finished(store, self.frames@, self.found()),
            step_is_sound(step, self.visited()),
    {
        proof {
            use_type_invariant(&self);
        }
        let ghost start = self;
        let visited = self.visited;
        let mut resolved = self.resolved;
        let mut frames = self.frames;
        let ghost seen = visited@;
        assert(Found { resolved: resolved@, visited: seen } == start.found());
        let ghost goal = |store: Store| finished(store, start.frames@, start.found());
        while frames.len() > 0
            invariant
                start == self,
                seen == visited@,
                seen == start.visited(),
                goal == (|store: Store| finished(store, start.frames@, start.found())),
                forall|i: int| 0 <= i < frames@.len() ==> (#[trigger] frames@[i]).depth < MAX_DELEGATION_DEPTH,
                forall|store: Store| #[trigger]
                    goal(store) == finished(store, frames@, (Found { resolved: resolved@, visited: seen })),
            decreases work_left(frames@),
        {
            let ghost before = frames@;
            let ghost now = Found { resolved: resolved@, visited: seen };
            let mut top = match frames.pop() {
                Some(frame) => frame,
                None => Frame { entries: Vec::new(), next: 0, depth: 0 },
            };
            assert(frames@ =~= before.drop_last());
            assert(top == before.last());
            assert(before[before.len() - 1].depth < MAX_DELEGATION_DEPTH);
            assert forall|i: int| 0 <= i < frames@.len() implies (#[trigger] frames@[i]).depth
                < MAX_DELEGATION_DEPTH by {
                assert(frames@[i] == before[i]);
            }
            if top.next >= top.entries.len() {
                assert forall|store: Store| #[trigger] goal(store) == finished(store, frames@, now) by {
                    assert(take_members(store, top.entries@, now, top.depth as nat, top.next as nat) == Ok::<
                        Found,
                        ErrorView,
                    >(now));
                }
                continue;
            }
            let ghost entry = top.entries@[top.next as int];
            let ghost at = top.next as nat;
            let ghost level = top.depth as nat;
            let ghost list = top.entries@;
            if top.entries[top.next].is_delegation {
                let lookup = match resolve_delegation_target(top.entries[top.next].did.as_str()) {
                    Ok(lookup) => lookup,
                    Err(error) => {
                        assert forall|store: Store| #[trigger] goal(store) == Err::<
                            Map<Seq<char>, MemberAccess>,
                            ErrorView,
                        >(error@) by {
                            assert(take_member(store, entry, now, level) == Err::<Found, ErrorView>(error@));
                            assert(take_members(store, list, now, level, at) == Err::<Found, ErrorView>(error@));
                        }
                        let step: Result<WalkStep, AppError> = Err(error);
                        assert forall|store: Store| #[trigger] step_outcome(step, store) == finished(
                            store,
                            start.frames@,
                            start.found(),
                        ) by {
                            assert(goal(store) == finished(store, start.frames@, start.found()));
                        }
                        return step;
                    },
                };
                let below = top.depth + 1;
                top.next = top.next + 1;
                frames.push(top);
                let walk = MemberWalk { resolved, visited, frames, depth: below };
                let step: Result<WalkStep, AppError> = Ok(WalkStep::FindSpace(walk, lookup));
                assert forall|store: Store| #[trigger] step_outcome(step, store) == finished(
                    store,
                    start.frames@,
                    start.found(),
                ) by {
                    assert(goal(store) == finished(store, start.frames@, start.found()));
                    assert(walk.frames@.drop_last() =~= before.drop_last());
                    let target = (store.space)(lookup@);
                    let next = take_member(store, entry, now, level);
                    assert(take_members(store, list, now, level, at) == (match next {
                        Ok(n) => take_members(store, list, n, level, at + 1),
                        Err(e) => Err(e),
                    }));
                    assert(continued(store, walk.frames@, next) == goal(store));
                }
                return step;
            }
            merge_access(&mut resolved, top.entries[top.next].did.as_str(), top.entries[top.next].access);
            top.next = top.next + 1;
            frames.push(top);
            let ghost then = Found { resolved: resolved@, visited: seen };
            assert forall|store: Store| #[trigger] goal(store) == finished(store, frames@, then) by {
                assert(frames@.drop_last() =~= before.drop_last());
                assert(take_member(store, entry, now, level) == Ok::<Found, ErrorView>(then));
                assert(take_members(store, list, now, level, at) == take_members(
                    store,
                    list,
                    then,
                    level,
                    at + 1,
                ));
            }
            assert(frames@.drop_last() =~= before.drop_last());
            assert(frames@.last() == top);
        }
        let members = resolved.into_sorted();
        let step: Result<WalkStep, AppError> = Ok(WalkStep::Done(members));
        assert forall|store: Store| #[trigger] step_outcome(step, store) == finished(
            store,
            start.frames@,
            start.found(),
        ) by {
            assert(goal(store) == finished(store, start.frames@, start.found()));
        }
        step
    }
}

impl MemberWalk {
    /// Goes to a space, unless the walk was there or is too deep.
    fn enter(self, space: String) -> (step: Result<WalkStep, AppError>)
        ensures
            forall|store: Store| #[trigger]
                step_outcome(step, store) == continued(
                    store,
                    self.frames@,
                    visit(store, space@, self.found(), self.depth as nat),
                ),
            step_is_sound(step, self.visited()),
    {
        if self.depth >= MAX_DELEGATION_DEPTH || self.visited.contains(space.as_str()) {
            return self.advance();
        }
        proof {
            use_type_invariant(&self);
        }
        let ghost start = self;
        let mut visited = self.visited;
        visited.insert(space.as_str());
        let walk = MemberWalk {
            resolved: self.resolved,
            visited,
            frames: self.frames,
            depth: self.depth,
        };
        let step: Result<WalkStep, AppError> = Ok(WalkStep::ListMembers(walk, space));
        assert forall|store: Store| #[trigger] step_outcome(step, store) == continued(
            store,
            start.frames@,
            visit(store, space@, start.found(), start.depth as nat),
        ) by {
            assert(walk.found() == (Found {
                visited: start.found().visited.insert(space@),
                ..start.found()
            }));
        }
        step
    }

    /// Goes on with the entries of the space that the walk asked for.
    pub fn on_members(self, entries: Vec<SpaceMember>) -> (step: Result<WalkStep, AppError>)
        ensures
            forall|store: Store| #[trigger]
                step_outcome(step, store) == self.outcome_of_list(store, entries@),
            step_is_sound(step, self.visited()),
    {
        if self.depth >= MAX_DELEGATION_DEPTH {
            return self.advance();
        }
        proof {
            use_type_invariant(&self);
        }
        let ghost start = self;
        let mut frames = self.frames;
        frames.push(Frame { entries, next: 0, depth: self.depth });
        assert(frames@.drop_last() =~= start.frames@);
        let walk = MemberWalk {
            resolved: self.resolved,
            visited: self.visited,
            frames,
            depth: self.depth,
        };
        assert(walk.found() == start.found());
        walk.advance()
    }

    /// Goes on with the id of the space that a lookup found, if it found one.
    pub fn on_space(self, target: Option<String>) -> (step: Result<WalkStep, AppError>)
        ensures
            forall|store: Store| #[trigger]
                step_outcome(step, store) == self.outcome_of_space(store, text::opt_text(target)),
            step_is_sound(step, self.visited()),
    {
        match target {
            Some(space) => self.enter(space),
            None => self.advance(),
        }
    }
}

/// Resolves the members of a space, delegations included. If a store answers
/// what the walk asks for, it finds the space's members.
pub fn resolve_members(space_id: &str) -> (step: Result<WalkStep, AppError>)
    ensures
        forall|store: Store| #[trigger] step_outcome(step, store) == members_of(store, space_id@),
        step_is_sound(step, Set::empty()),
{
    let walk = MemberWalk {
        resolved: AccessMap::new(),
        visited: TextSet::new(),
        frames: Vec::new(),
        depth: 0,
    };
    let step = walk.enter(space_id.to_owned());
    assert forall|store: Store| #[trigger] step_outcome(step, store) == members_of(store, space_id@) by {
        assert(walk.found() == (Found { resolved: Map::empty(), visited: Set::empty() }));
    }
    step
}

/// What a list of resolved members permits to a DID.
pub fn is_member(members: &Vec<ResolvedMember>, did: &str) -> (access: Option<MemberAccess>)
    ensures
        access == permitted(access_map(members@), did@),
{
    find_access(members, did)
}

/// Whether one map permits to everyone all that another does.
pub open spec fn permits_all(
    more: Map<Seq<char>, MemberAccess>,
    less: Map<Seq<char>, MemberAccess>,
) -> bool {
    forall|did: Seq<char>| #[trigger]
        less.contains_key(did) ==> more.contains_key(did) && more[did].covers(less[did])
}

proof fn lemma_permits_all_transitive(
    a: Map<Seq<char>, MemberAccess>,
    b: Map<Seq<char>, MemberAccess>,
    c: Map<Seq<char>, MemberAccess>,
)
    requires
        permits_all(a, b),
        permits_all(b, c),
    ensures
        permits_all(a, c),
{
    assert forall|did: Seq<char>| #[trigger] c.contains_key(did) implies a.contains_key(did) && a[did].covers(
        c[did],
    ) by {
        assert(b.contains_key(did));
    }
}

proof fn lemma_visit_takes_nothing_away(store: Store, space: Seq<char>, found: Found, depth: nat)
    ensures
        visit(store, space, found, depth) matches Ok(next) ==> permits_all(next.resolved, found.resolved),
    decreases 2 * (MAX_DELEGATION_DEPTH - depth) + 1, 0int,
{
    if !(depth >= MAX_DELEGATION_DEPTH || found.visited.contains(space)) {
        lemma_members_take_nothing_away(
            store,
            (store.members)(space),
            Found { visited: found.visited.insert(space), ..found },
            depth,
            0,
        );
    }
}

proof fn lemma_member_takes_nothing_away(store: Store, entry: SpaceMember, found: Found, depth: nat)
    ensures
        take_member(store, entry, found, depth) matches Ok(next) ==> permits_all(
            next.resolved,
            found.resolved,
        ),
    decreases 2 * (MAX_DELEGATION_DEPTH - depth), 0int,
{
    if depth < MAX_DELEGATION_DEPTH && entry.is_delegation {
        if let Ok(lookup) = lookup_of(entry.did@) {
            if let Some(target) = (store.space)(lookup) {
                lemma_visit_takes_nothing_away(store, target, found, depth + 1);
            }
        }
    }
}

proof fn lemma_members_take_nothing_away(
    store: Store,
    entries: Seq<SpaceMember>,
    found: Found,
    depth: nat,
    i: nat,
)
    ensures
        take_members(store, entries, found, depth, i) matches Ok(next) ==> permits_all(
            next.resolved,
            found.resolved,
        ),
    decreases 2 * (MAX_DELEGATION_DEPTH - depth), entries.len() - i,
{
    if depth < MAX_DELEGATION_DEPTH && i < entries.len() {
        lemma_member_takes_nothing_away(store, entries[i as int], found, depth);
        if let Ok(next) = take_member(store, entries[i as int], found, depth) {
            lemma_members_take_nothing_away(store, entries, next, depth, i + 1);
            if let Ok(last) = take_members(store, entries, next, depth, i + 1) {
                lemma_permits_all_transitive(last.resolved, next.resolved, found.resolved);
            }
        }
    }
}

proof fn lemma_entry_counts(
    store: Store,
    entries: Seq<SpaceMember>,
    found: Found,
    depth: nat,
    i: nat,
    j: int,
)
    requires
        depth < MAX_DELEGATION_DEPTH,
        i <= j < entries.len(),
        !entries[j].is_delegation,
    ensures
        take_members(store, entries, found, depth, i) matches Ok(next) ==> next.resolved.contains_key(
            entries[j].did@,
        ) && next.resolved[entries[j].did@].covers(entries[j].access),
    decreases j - i,
{
    if let Ok(next) = take_member(store, entries[i as int], found, depth) {
        if i == j {
            lemma_members_take_nothing_away(store, entries, next, depth, i + 1);
            assert(next.resolved.contains_key(entries[j].did@));
        } else {
            lemma_entry_counts(store, entries, next, depth, i + 1, j);
        }
    }
}

/// Whoever a space lists as a member is one, and is permitted at least what the
/// entry says, whatever the delegations add.
pub proof fn law_direct_members_keep_their_access(store: Store, space: Seq<char>, j: int)
    requires
        0 <= j < (store.members)(space).len(),
        !(store.members)(space)[j].is_delegation,
    ensures
        members_of(store, space) matches Ok(map) ==> map.contains_key((store.members)(space)[j].did@)
            && map[(store.members)(space)[j].did@].covers((store.members)(space)[j].access),
{
    let none = Found { resolved: Map::empty(), visited: Set::empty() };
    lemma_entry_counts(
        store,
        (store.members)(space),
        Found { visited: none.visited.insert(space), ..none },
        0,
        0,
        j,
    );
}

/// A space that has no members and delegates to nothing has no members.
pub proof fn law_empty_space_has_no_members(store: Store, space: Seq<char>)
    requires
        (store.members)(space).len() == 0,
    ensures
        members_of(store, space) == Ok::<Map<Seq<char>, MemberAccess>, ErrorView>(Map::empty()),
{
}

/// A space that delegates to itself gains nothing by it: with that entry alone,
/// it has no members.
pub proof fn law_self_delegation_adds_nobody(store: Store, space: Seq<char>)
    requires
        (store.members)(space).len() == 1,
        (store.members)(space)[0].is_delegation,
        lookup_of((store.members)(space)[0].did@) is Ok,
        (store.space)(lookup_of((store.members)(space)[0].did@)->Ok_0) == Some(space),
    ensures
        members_of(store, space) == Ok::<Map<Seq<char>, MemberAccess>, ErrorView>(Map::empty()),
{
    let none = Found { resolved: Map::empty(), visited: Set::empty() };
    let entered = Found { visited: none.visited.insert(space), ..none };
    let entries = (store.members)(space);
    assert(visit(store, space, entered, 1) == Ok::<Found, ErrorView>(entered));
    assert(take_member(store, entries[0], entered, 0) == Ok::<Found, ErrorView>(entered));
    assert(take_members(store, entries, entered, 0, 1) == Ok::<Found, ErrorView>(entered));
}

/// What an entry delegates to is looked up by its parts where it is an address,
/// and as an id otherwise; what looks like an address and is none is refused.
pub proof fn law_what_is_looked_up(did: Seq<char>, address: uri::SpaceUriView)
    requires
        address.well_formed(),
    ensures
        lookup_of(address.text()) == Ok::<LookupView, ErrorView>(
            (LookupView::Address {
                did: address.did,
                type_nsid: address.type_nsid,
                skey: address.skey,
            }),
        ),
        !text::has_prefix(did, "at://"@) && !text::has_prefix(did, "ats://"@) ==> lookup_of(did) == Ok::<
            LookupView,
            ErrorView,
        >(LookupView::Id(did)),
        lookup_of(did) is Err <==> (text::has_prefix(did, "at://"@) || text::has_prefix(did, "ats://"@))
            && uri::parsed_uri(did) is Err,
        lookup_of(did) matches Ok(LookupView::Id(id)) ==> id == did,
{
    uri::law_parse_of_text(address);
    reveal_strlit("at://");
    assert(address.text().take(5) =~= "at://"@);
}

/// Two entries for a user join what they grant, another user's grant stays as it
/// is, and delegations are followed to ten spaces in a row and no further.
pub proof fn law_grants_are_joined(
    map: Map<Seq<char>, MemberAccess>,
    did: Seq<char>,
    access: MemberAccess,
    other: Seq<char>,
    store: Store,
    space: Seq<char>,
    found: Found,
)
    ensures
        permitted(merged(map, did, access), did) == Some(
            match permitted(map, did) {
                Some(before) => before.joined(access),
                None => access,
            },
        ),
        other != did ==> permitted(merged(map, did, access), other) == permitted(map, other),
        visit(store, space, found, 10) == Ok::<Found, ErrorView>(found),
        !found.visited.contains(space) && (store.members)(space).len() == 0 ==> (visit(
            store,
            space,
            found,
            9,
        ) matches Ok(next) && next.visited == found.visited.insert(space)),
{
}

} // verus!
