//! Rebuilding a repo's derived state from its records.
//!
//! A commit is derived data: the set hash is a fold over the records, and the
//! key that binds it is fresh with each commit. A change to how a commit is
//! computed therefore needs no second path: the state is computed anew from the
//! records, which stay as they are.
//!
//! Callers differ in what happens to the revision. Where the records changed, the
//! repo advances to a new one. Where only the format of commits changed it is
//! kept, for advancing would tell every syncer that the repo changed.
use vstd::prelude::*;

use crate::crypto::P256SigningKey;
use crate::error::AppError;
use crate::spaces::service;
use crate::spaces::service::{EditView, SetHashEdit};
use crate::spaces::transaction;
use crate::spaces::types::{RepoState, Space};
use crate::text;

verus! {

/// Under what setting the end of the one-time rebuild is noted, so that it does
/// not repeat on every start.
pub const COMMIT_FORMAT_MARKER_KEY: &'static str = "space_commit_format_rebuild_completed_at";

/// What happens to a repo's revision when its state is rebuilt.
#[derive(Debug, Clone, Copy, PartialEq, Eq, Structural)]
pub enum RevPolicy {
    /// The stored revision stays. For rebuilds where the records are unchanged and
    /// only the computation of commits differs.
    Preserve,
    /// A new one is made. For rebuilds where the records themselves changed.
    Advance,
}

/// The revision of a rebuilt repo, or `None` where there is nothing to rebuild: a
/// repo that was never committed has no revision to keep.
pub open spec fn rebuilt_rev_of(
    policy: RevPolicy,
    stored: Option<Seq<char>>,
    fresh: Seq<char>,
) -> Option<Seq<char>> {
    match policy {
        RevPolicy::Advance => Some(fresh),
        RevPolicy::Preserve => stored,
    }
}

/// A rebuilt state, with the space's new revision where the space's moves with
/// the repo's.
#[derive(Debug)]
pub struct Rebuilt {
    pub state: RepoState,
    pub space_rev: Option<String>,
}

/// Seals a repo's state anew, over the set hash that was folded from its records.
/// There is nothing to rebuild where the space is gone, nor for a repo without a
/// revision to keep.
pub fn rebuild_repo_state(
    space: Option<&Space>,
    repo_state: RepoState,
    author_did: &str,
    set_hash: Vec<u8>,
    hash: &[u8; 32],
    signing_key: &P256SigningKey,
    rev_policy: RevPolicy,
    fresh_rev: String,
) -> (rebuilt: Result<Option<Rebuilt>, AppError>)
    ensures
        ({
            let rev = rebuilt_rev_of(rev_policy, text::opt_text(repo_state.rev), fresh_rev@);
            match rebuilt {
                Ok(Some(after)) => {
                    &&& space is Some
                    &&& rev is Some
                    &&& service::committed(
                        repo_state,
                        after.state,
                        *space->0,
                        author_did@,
                        rev->0,
                        set_hash@,
                        hash@,
                        signing_key@,
                    )
                    &&& text::opt_text(after.space_rev) == if rev_policy == RevPolicy::Advance {
                        rev
                    } else {
                        None
                    }
                },
                Ok(None) => space is None || rev is None,
                Err(_) => false,
            }
        }),
{
    let space = match space {
        Some(space) => space,
        None => {
            return Ok(None);
        },
    };
    let rev = match rev_policy {
        RevPolicy::Advance => fresh_rev,
        RevPolicy::Preserve => match &repo_state.rev {
            Some(rev) => rev.clone(),
            None => {
                return Ok(None);
            },
        },
    };
    let state = match service::commit_write(
        repo_state,
        space,
        author_did,
        rev.as_str(),
        set_hash,
        hash,
        signing_key,
    ) {
        Ok(state) => state,
        Err(error) => return Err(error),
    };
    let space_rev = match rev_policy {
        RevPolicy::Advance => Some(rev),
        RevPolicy::Preserve => None,
    };
    Ok(Some(Rebuilt { state, space_rev }))
}

/// A rebuild that preserves revisions changes none, and leaves repos without a
/// commit alone.
pub proof fn law_preserving_changes_no_revision(stored: Option<Seq<char>>, fresh: Seq<char>)
    ensures
        rebuilt_rev_of(RevPolicy::Preserve, stored, fresh) == stored,
{
}

/// Whether the one-time rebuild is due, given the marker of its end.
pub fn rebuild_is_due(marker: &Option<String>) -> (due: bool)
    ensures
        due == (marker is None),
{
    marker.is_none()
}

/// The repos, by space and author, in a list of them.
pub open spec fn repo_views(repos: Seq<(String, String)>) -> Seq<(Seq<char>, Seq<char>)> {
    repos.map_values(|r: (String, String)| (r.0@, r.1@))
}

/// How many repos were rebuilt, of those that had their turn.
pub open spec fn rebuilt_count(turns: Seq<bool>) -> nat
    decreases turns.len(),
{
    if turns.len() == 0 {
        0
    } else {
        rebuilt_count(turns.drop_last()) + if turns.last() {
            1nat
        } else {
            0
        }
    }
}

proof fn lemma_count_bounded(turns: Seq<bool>)
    ensures
        rebuilt_count(turns) <= turns.len(),
    decreases turns.len(),
{
    if turns.len() > 0 {
        lemma_count_bounded(turns.drop_last());
    }
}

/// The one-time rebuild of every commit, between the turns of two repos.
pub struct RebuildRun {
    repos: Vec<(String, String)>,
    next: usize,
    rebuilt: usize,
    turns: Ghost<Seq<bool>>,
}

/// The turn of one repo.
pub struct RepoTurn {
    run: RebuildRun,
}

/// The end of the rebuild: the number of repos that were rebuilt, and the setting
/// that notes the end.
pub struct FinishedRebuild {
    pub rebuilt: usize,
    pub marker_key: String,
    pub marker: String,
}

/// How the rebuild goes on.
pub enum RebuildStep {
    /// With the turn of the next repo.
    Turn(RepoTurn),
    /// To its end.
    Done(FinishedRebuild),
}

/// Begins the one-time rebuild of the repos that have a commit, unless the marker
/// notes that it was done.
pub fn run_commit_format_rebuild(marker: &Option<String>, repos: Vec<(String, String)>) -> (run: Option<
    RebuildRun,
>)
    ensures
        run is None <==> marker is Some,
        run matches Some(r) ==> r.repos() == repo_views(repos@) && r.turns() == Seq::<bool>::empty(),
{
    if rebuild_is_due(marker) {
        Some(RebuildRun { repos, next: 0, rebuilt: 0, turns: Ghost(Seq::empty()) })
    } else {
        None
    }
}

impl RebuildRun {
    /// The repos of the rebuild.
    pub closed spec fn repos(self) -> Seq<(Seq<char>, Seq<char>)> {
        repo_views(self.repos@)
    }

    /// Of each repo that had its turn, in order, whether it was rebuilt.
    pub closed spec fn turns(self) -> Seq<bool> {
        self.turns@
    }

    #[verifier::type_invariant]
    spec fn inv(self) -> bool {
        &&& self.next == self.turns@.len()
        &&& self.next <= self.repos@.len()
        &&& self.rebuilt == rebuilt_count(self.turns@)
    }

    /// The turn of the next repo, or the end, which is noted with the time.
    pub fn next(self, now: &str) -> (step: RebuildStep)
        ensures
            match step {
                RebuildStep::Turn(turn) => self.turns().len() < self.repos().len() && turn.repos()
                    == self.repos() && turn.turns() == self.turns(),
                RebuildStep::Done(finished) => {
                    &&& self.turns().len() == self.repos().len()
                    &&& finished.rebuilt == rebuilt_count(self.turns())
                    &&& finished.marker_key@ == COMMIT_FORMAT_MARKER_KEY@
                    &&& finished.marker@ == now@
                },
            },
    {
        proof {
            use_type_invariant(&self);
        }
        if self.next < self.repos.len() {
            RebuildStep::Turn(RepoTurn { run: self })
        } else {
            RebuildStep::Done(
                FinishedRebuild {
                    rebuilt: self.rebuilt,
                    marker_key: COMMIT_FORMAT_MARKER_KEY.to_owned(),
                    marker: now.to_owned(),
                },
            )
        }
    }
}

impl RepoTurn {
    /// The repos of the rebuild.
    pub closed spec fn repos(self) -> Seq<(Seq<char>, Seq<char>)> {
        self.run.repos()
    }

    /// Of each repo before this one, whether it was rebuilt.
    pub closed spec fn turns(self) -> Seq<bool> {
        self.run.turns()
    }

    #[verifier::type_invariant]
    spec fn inv(self) -> bool {
        self.run.turns@.len() < self.run.repos@.len()
    }

    /// The space and the author of the repo.
    pub fn repo(&self) -> (repo: (&str, &str))
        ensures
            (repo.0@, repo.1@) == self.repos()[self.turns().len() as int],
    {
        proof {
            use_type_invariant(self);
            use_type_invariant(&self.run);
        }
        let repo = &self.run.repos[self.run.next];
        (repo.0.as_str(), repo.1.as_str())
    }

    /// Seals the repo anew, with its revision preserved, and goes on to the next.
    pub fn rebuild(
        self,
        space: Option<&Space>,
        repo_state: RepoState,
        set_hash: Vec<u8>,
        hash: &[u8; 32],
        signing_key: &P256SigningKey,
    ) -> (result: Result<(Option<RepoState>, RebuildRun), AppError>)
        ensures
            match result {
                Ok((after, rest)) => {
                    &&& rest.repos() == self.repos()
                    &&& rest.turns() == self.turns().push(after is Some)
                    &&& after is Some <==> space is Some && repo_state.rev is Some
                    &&& after matches Some(state) ==> service::committed(
                        repo_state,
                        state,
                        *space->0,
                        self.repos()[self.turns().len() as int].1,
                        repo_state.rev->0@,
                        set_hash@,
                        hash@,
                        signing_key@,
                    )
                },
                Err(_) => false,
            },
    {
        proof {
            use_type_invariant(&self);
            use_type_invariant(&self.run);
            lemma_count_bounded(self.run.turns@);
        }
        let run = self.run;
        let rebuilt = match rebuild_repo_state(
            space,
            repo_state,
            run.repos[run.next].1.as_str(),
            set_hash,
            hash,
            signing_key,
            RevPolicy::Preserve,
            String::new(),
        ) {
            Ok(rebuilt) => rebuilt,
            Err(error) => return Err(error),
        };
        let after = match rebuilt {
            Some(r) => Some(r.state),
            None => None,
        };
        let more: usize = if after.is_some() {
            1
        } else {
            0
        };
        let total: usize = run.repos.len();
        assert(run.next < total);
        let ghost turns = run.turns@.push(after is Some);
        assert(turns.drop_last() =~= run.turns@);
        let rest = RebuildRun {
            repos: run.repos,
            next: run.next + 1,
            rebuilt: run.rebuilt + more,
            turns: Ghost(turns),
        };
        Ok((after, rest))
    }
}

/// What the rebuild is about in the store: the settings, and the repos' states by
/// space and author.
pub struct InstanceStore {
    pub settings: Map<Seq<char>, Seq<char>>,
    pub states: Map<(Seq<char>, Seq<char>), RepoState>,
}

/// The marker in a store's settings.
pub open spec fn marker_in(store: InstanceStore) -> Option<Seq<char>> {
    if store.settings.contains_key(COMMIT_FORMAT_MARKER_KEY@) {
        Some(store.settings[COMMIT_FORMAT_MARKER_KEY@])
    } else {
        None
    }
}

/// What a rebuild that came to its end leaves stored: the states that it made, and
/// the marker.
pub open spec fn rebuild_stored(
    before: InstanceStore,
    states: Map<(Seq<char>, Seq<char>), RepoState>,
    finished: FinishedRebuild,
) -> InstanceStore {
    InstanceStore {
        settings: before.settings.insert(finished.marker_key@, finished.marker@),
        states,
    }
}

/// A rebuild that came to its end leaves the marker, by which the next one has
/// nothing to do. One that failed leaves everything as it was, so the next one is
/// due just if it was.
pub proof fn law_rebuilds_run_once(
    before: InstanceStore,
    inside: InstanceStore,
    states: Map<(Seq<char>, Seq<char>), RepoState>,
    outcome: Result<FinishedRebuild, AppError>,
)
    requires
        outcome matches Ok(finished) ==> finished.marker_key@ == COMMIT_FORMAT_MARKER_KEY@ && inside
            == rebuild_stored(before, states, finished),
    ensures
        outcome is Ok ==> marker_in(transaction::kept(before, inside, transaction::ended(outcome))) is Some,
        outcome is Err ==> transaction::kept(before, inside, transaction::ended(outcome)) == before,
{
    transaction::law_all_or_nothing(before, inside, outcome);
}

/// What a stored record contributes to the set hash.
#[derive(Debug)]
pub struct RecordKey {
    pub collection: String,
    pub rkey: String,
    pub cid: String,
}

/// What a list of records contributes.
pub open spec fn record_keys(records: Seq<RecordKey>) -> Seq<(Seq<char>, Seq<char>, Seq<char>)> {
    records.map_values(|r: RecordKey| (r.collection@, r.rkey@, r.cid@))
}

/// The edits that make a set hash stand for records: each comes.
pub open spec fn additions(records: Seq<(Seq<char>, Seq<char>, Seq<char>)>) -> Seq<EditView> {
    records.map_values(
        |r: (Seq<char>, Seq<char>, Seq<char>)|
            EditView { added: true, collection: r.0, rkey: r.1, cid: r.2 },
    )
}

/// The edits that fold an author's records into an empty set hash.
pub fn rebuild_edits(records: &Vec<RecordKey>) -> (edits: Vec<SetHashEdit>)
    ensures
        service::edit_views(edits@) == additions(record_keys(records@)),
{
    let mut edits: Vec<SetHashEdit> = Vec::new();
    for i in 0..records.len()
        invariant
            edits@.len() == i,
            forall|j: int|
                0 <= j < i ==> (#[trigger] edits@[j])@ == (EditView {
                    added: true,
                    collection: records@[j].collection@,
                    rkey: records@[j].rkey@,
                    cid: records@[j].cid@,
                }),
    {
        let record = &records[i];
        edits.push(
            SetHashEdit {
                added: true,
                collection: record.collection.clone(),
                rkey: record.rkey.clone(),
                cid: record.cid.clone(),
            },
        );
    }
    assert(service::edit_views(edits@) =~= additions(record_keys(records@)));
    edits
}

/// A rebuilt set hash stands for just the records it was rebuilt from, and if
/// none occurs twice nothing is added twice.
pub proof fn law_rebuild_folds_the_records(records: Seq<(Seq<char>, Seq<char>, Seq<char>)>)
    ensures
        service::all_edited(Set::empty(), additions(records)) == records.to_set(),
        records.no_duplicates() ==> service::all_fit(Set::empty(), additions(records)),
    decreases records.len(),
{
    let edits = additions(records);
    if records.len() == 0 {
        assert(records.to_set() =~= Set::empty());
    } else {
        let head = records.drop_last();
        let last = records.last();
        law_rebuild_folds_the_records(head);
        assert(edits.drop_last() =~= additions(head));
        assert(edits.last() == (EditView { added: true, collection: last.0, rkey: last.1, cid: last.2 }));
        assert(records =~= head.push(last));
        assert(records.to_set() =~= head.to_set().insert(last)) by {
            assert forall|e: (Seq<char>, Seq<char>, Seq<char>)|
                records.contains(e) <==> head.contains(e) || e == last by {
                if records.contains(e) {
                    let k = choose|k: int| 0 <= k < records.len() && records[k] == e;
                    if k < head.len() {
                        assert(head[k] == e);
                    }
                }
                if head.contains(e) {
                    let k = choose|k: int| 0 <= k < head.len() && head[k] == e;
                    assert(records[k] == e);
                }
                assert(records[records.len() - 1] == last);
            }
        }
        if records.no_duplicates() {
            assert(head.no_duplicates()) by {
                assert forall|i: int, j: int|
                    0 <= i < head.len() && 0 <= j < head.len() && i != j implies head[i] != head[j] by {
                    assert(head[i] == records[i] && head[j] == records[j]);
                }
            }
            assert(!head.contains(last)) by {
                if head.contains(last) {
                    let k = choose|k: int| 0 <= k < head.len() && head[k] == last;
                    assert(records[k] == records[records.len() - 1]);
                }
            }
        }
    }
}

/// A rebuild that advances always has a revision, and it is the fresh one.
pub proof fn law_advancing_takes_the_fresh_revision(stored: Option<Seq<char>>, fresh: Seq<char>)
    ensures
        rebuilt_rev_of(RevPolicy::Advance, stored, fresh) == Some(fresh),
{
}

/// What a rebuild counts is the repos that it rebuilt: each of them once, and none
/// that it left alone.
pub proof fn law_rebuilt_repos_are_counted(turns: Seq<bool>)
    ensures
        rebuilt_count(turns.push(true)) == rebuilt_count(turns) + 1,
        rebuilt_count(turns.push(false)) == rebuilt_count(turns),
        rebuilt_count(Seq::empty()) == 0,
{
    assert(turns.push(true).drop_last() =~= turns);
    assert(turns.push(false).drop_last() =~= turns);
}

} // verus!
