//! Batches of writes, made all or none, with one commit.
//!
//! A batch owns its ops and hands them out one by one, each as a turn that tells
//! what must be looked up for it and then what to store. Only when every op has
//! had its turn is there something to commit and to answer.
use vstd::prelude::*;

use crate::crypto::P256SigningKey;
use crate::error::{AppError, ErrorView};
use crate::json::{Json, JsonView};
use crate::spaces::credential::SpaceCredentialClaims;
use crate::spaces::native_sync;
use crate::spaces::record_writes;
use crate::spaces::record_writes::{PreparedWrite, WriteOp, WriteOpView};
use crate::spaces::service;
use crate::spaces::service::{
    AppliedOp, ExistingRecord, ExistingView, RecordChange, SetHashEdit, WriteView,
};
use crate::spaces::transaction;
use crate::spaces::types::{MemberAccess, OplogEntry, RepoState, Space};
use crate::text;

verus! {

/// What a list of ops asks for.
pub open spec fn op_views(ops: Seq<(WriteOp, Option<bool>)>) -> Seq<WriteOpView> {
    ops.map_values(|w: (WriteOp, Option<bool>)| w.0@)
}

/// Whether the session's scope covers each op of a list, where that is known.
pub open spec fn covers(ops: Seq<(WriteOp, Option<bool>)>) -> Seq<Option<bool>> {
    ops.map_values(|w: (WriteOp, Option<bool>)| w.1)
}

/// What writes are answered with, in order.
pub open spec fn answers_of(writes: Seq<WriteView>) -> Seq<JsonView> {
    writes.map_values(|w: WriteView| record_writes::written_json(record_writes::written_of(w)))
}

/// What a batch is answered with.
pub open spec fn batch_answer(writes: Seq<WriteView>) -> JsonView {
    JsonView::Object(seq![("results"@, JsonView::List(answers_of(writes)))])
}

/// Whether a write is what an author's op makes, of whatever was stored when its
/// turn came.
pub open spec fn makes(space: Space, did: Seq<char>, op: WriteOpView, write: WriteView) -> bool {
    exists|fresh: Seq<char>, now: Seq<char>, existing: Option<ExistingView>| #[trigger]
        record_writes::batched_write_of(space, did, op, fresh, now, existing) == Ok::<
            WriteView,
            ErrorView,
        >(write)
}

/// Whether writes are what ops make: one for each op, in order.
pub open spec fn all_made(
    space: Space,
    did: Seq<char>,
    ops: Seq<WriteOpView>,
    writes: Seq<WriteView>,
) -> bool {
    writes.len() == ops.len() && forall|i: int|
        0 <= i < writes.len() ==> makes(space, did, ops[i], #[trigger] writes[i])
}

/// A batch between two turns.
pub struct WriteBatch {
    space: Space,
    did: String,
    left: Vec<WriteOp>,
    applied: Vec<AppliedOp>,
    results: Vec<Json>,
    asked: Ghost<Seq<WriteOpView>>,
    done: Ghost<Seq<WriteView>>,
}

/// The turn of one op of a batch.
pub struct BatchTurn {
    space: Space,
    did: String,
    left: Vec<WriteOp>,
    applied: Vec<AppliedOp>,
    results: Vec<Json>,
    prepared: PreparedWrite,
    asked: Ghost<Seq<WriteOpView>>,
    done: Ghost<Seq<WriteView>>,
    fresh: Ghost<Seq<char>>,
    now: Ghost<Seq<char>>,
}

/// A batch of which every op has had its turn.
pub struct FinishedBatch {
    space: Space,
    did: String,
    applied: Vec<AppliedOp>,
    answer: Json,
    asked: Ghost<Seq<WriteOpView>>,
    done: Ghost<Seq<WriteView>>,
}

/// How a batch goes on.
pub enum BatchStep {
    /// With the turn of the next op.
    Turn(BatchTurn),
    /// To its end.
    Done(FinishedBatch),
}

/// Whether what a batch holds is in step: of the ops asked for, the first are
/// done, each with its log op and its answer, and the last are left, back to
/// front. `gap` is how many have their turn.
spec fn in_step(
    space: Space,
    did: Seq<char>,
    left: Seq<WriteOp>,
    applied: Seq<AppliedOp>,
    results: Seq<Json>,
    asked: Seq<WriteOpView>,
    done: Seq<WriteView>,
    gap: int,
) -> bool {
    &&& left.len() + gap + done.len() == asked.len()
    &&& forall|i: int| 0 <= i < left.len() ==> (#[trigger] left[i])@ == asked[asked.len() - 1 - i]
    &&& service::applied_views(applied) == record_writes::ops_of(done)
    &&& crate::json::json_views(results) == answers_of(done)
    &&& forall|i: int| 0 <= i < done.len() ==> makes(space, did, asked[i], #[trigger] done[i])
}

impl WriteBatch {
    /// The space that is written to.
    pub closed spec fn space(self) -> Space {
        self.space
    }

    /// Who writes.
    pub closed spec fn did(self) -> Seq<char> {
        self.did@
    }

    /// The ops that were asked for.
    pub closed spec fn ops(self) -> Seq<WriteOpView> {
        self.asked@
    }

    /// The writes so far: those of the first ops, in order.
    pub closed spec fn writes(self) -> Seq<WriteView> {
        self.done@
    }

    #[verifier::type_invariant]
    spec fn inv(self) -> bool {
        in_step(
            self.space,
            self.did@,
            self.left@,
            self.applied@,
            self.results@,
            self.asked@,
            self.done@,
            0,
        )
    }

    /// Begins a batch, or refuses it. Each op comes with whether the session's
    /// scope covers it, where there is a session whose scope is known.
    pub fn begin(
        space: Space,
        did: String,
        verified: Option<&SpaceCredentialClaims>,
        revoked: bool,
        listed: Option<MemberAccess>,
        ops: Vec<(WriteOp, Option<bool>)>,
        swap_commit: Option<&str>,
    ) -> (result: Result<WriteBatch, AppError>)
        ensures
            ({
                let verdict = record_writes::batch_verdict(
                    space,
                    service::membership_of(
                        space,
                        match verified {
                            Some(claims) => Some(claims.sub@),
                            None => None,
                        },
                        revoked,
                        listed,
                        true,
                    ),
                    covers(ops@),
                    text::opt_str(swap_commit),
                );
                match result {
                    Ok(batch) => verdict is Ok && batch.space() == space && batch.did() == did@
                        && batch.ops() == op_views(ops@) && batch.writes() == Seq::<WriteView>::empty(),
                    Err(error) => verdict == Err::<(), ErrorView>(error@),
                }
            }),
    {
        match service::require_membership(&space, verified, revoked, listed, true) {
            Err(error) => {
                return Err(error);
            },
            Ok(_) => {},
        }
        let mut covered: Vec<Option<bool>> = Vec::new();
        for i in 0..ops.len()
            invariant
                covered@ == covers(ops@).take(i as int),
        {
            covered.push(ops[i].1);
            assert(covered@ =~= covers(ops@).take(i + 1));
        }
        assert(covered@ =~= covers(ops@));
        match record_writes::require_space_scopes(&space, &covered) {
            Err(error) => {
                return Err(error);
            },
            Ok(_) => {},
        }
        match record_writes::check_swap_commit(&space, swap_commit) {
            Err(error) => {
                return Err(error);
            },
            Ok(_) => {},
        }
        let ghost asked = op_views(ops@);
        let ghost all = ops@;
        let mut rest = ops;
        let mut left: Vec<WriteOp> = Vec::new();
        while rest.len() > 0
            invariant
                asked == op_views(all),
                rest@.len() + left@.len() == all.len(),
                rest@ == all.take(rest@.len() as int),
                forall|i: int| 0 <= i < left@.len() ==> (#[trigger] left@[i])@ == asked[asked.len() - 1 - i],
            decreases rest@.len(),
        {
            let ghost n = rest@.len();
            match rest.pop() {
                Some((op, _)) => {
                    assert(op == all[n - 1].0);
                    left.push(op);
                    assert(rest@ =~= all.take(rest@.len() as int));
                },
                None => {},
            }
        }
        let applied: Vec<AppliedOp> = Vec::new();
        let results: Vec<Json> = Vec::new();
        assert(service::applied_views(applied@) =~= record_writes::ops_of(Seq::empty()));
        assert(crate::json::json_views(results@) =~= answers_of(Seq::empty()));
        Ok(
            WriteBatch {
                space,
                did,
                left,
                applied,
                results,
                asked: Ghost(asked),
                done: Ghost(Seq::empty()),
            },
        )
    }

    /// The turn of the next op, or the end. `fresh` is the key for a create that
    /// names none.
    pub fn next(self, fresh: String, now: &str) -> (step: Result<BatchStep, AppError>)
        ensures
            match step {
                Ok(BatchStep::Turn(turn)) => {
                    &&& self.writes().len() < self.ops().len()
                    &&& turn.space() == self.space()
                    &&& turn.did() == self.did()
                    &&& turn.ops() == self.ops()
                    &&& turn.writes() == self.writes()
                    &&& turn.wants() == record_writes::looks_up(
                        self.space(),
                        self.did(),
                        self.ops()[self.writes().len() as int],
                    )
                    &&& forall|existing: Option<ExistingView>| #[trigger]
                        turn.given(existing) == record_writes::batched_write_of(
                            self.space(),
                            self.did(),
                            self.ops()[self.writes().len() as int],
                            fresh@,
                            now@,
                            existing,
                        )
                },
                Ok(BatchStep::Done(finished)) => {
                    &&& finished.space() == self.space()
                    &&& finished.did() == self.did()
                    &&& finished.ops() == self.ops()
                    &&& finished.writes() == self.writes()
                    &&& all_made(self.space(), self.did(), self.ops(), self.writes())
                },
                Err(error) => {
                    &&& self.writes().len() < self.ops().len()
                    &&& forall|existing: Option<ExistingView>| #[trigger]
                        record_writes::batched_write_of(
                            self.space(),
                            self.did(),
                            self.ops()[self.writes().len() as int],
                            fresh@,
                            now@,
                            existing,
                        ) == Err::<WriteView, ErrorView>(error@)
                },
            },
    {
        proof {
            use_type_invariant(&self);
        }
        let WriteBatch { space, did, left, applied, results, asked, done } = self;
        let mut left = left;
        match left.pop() {
            None => {
                let list = Json::List(results);
                proof {
                    crate::json::lemma_json_views(list);
                }
                let answer = Json::Object(vec![("results".to_owned(), list)]);
                proof {
                    crate::json::lemma_json_views(answer);
                    assert(answer@->Object_0 =~= batch_answer(done@)->Object_0);
                }
                Ok(BatchStep::Done(FinishedBatch { space, did, applied, answer, asked, done }))
            },
            Some(op) => {
                assert(op@ == asked@[done@.len() as int]);
                let ghost key = fresh@;
                match record_writes::prepare_batched(&space, did.as_str(), op, fresh, now) {
                    Err(error) => Err(error),
                    Ok(prepared) => Ok(
                        BatchStep::Turn(
                            BatchTurn {
                                space,
                                did,
                                left,
                                applied,
                                results,
                                prepared,
                                asked,
                                done,
                                fresh: Ghost(key),
                                now: Ghost(now@),
                            },
                        ),
                    ),
                }
            },
        }
    }
}

impl BatchTurn {
    /// The space that is written to.
    pub closed spec fn space(self) -> Space {
        self.space
    }

    /// Who writes.
    pub closed spec fn did(self) -> Seq<char> {
        self.did@
    }

    /// The ops that were asked for.
    pub closed spec fn ops(self) -> Seq<WriteOpView> {
        self.asked@
    }

    /// The writes before this turn.
    pub closed spec fn writes(self) -> Seq<WriteView> {
        self.done@
    }

    /// What the op does, given what is stored under the record's address.
    pub closed spec fn given(self, existing: Option<ExistingView>) -> Result<WriteView, ErrorView> {
        self.prepared.given(existing)
    }

    /// The address to look up, if any.
    pub closed spec fn wants(self) -> Option<Seq<char>> {
        self.prepared.wants()
    }

    #[verifier::type_invariant]
    spec fn inv(self) -> bool {
        &&& in_step(
            self.space,
            self.did@,
            self.left@,
            self.applied@,
            self.results@,
            self.asked@,
            self.done@,
            1,
        )
        &&& forall|existing: Option<ExistingView>| #[trigger]
            self.prepared.given(existing) == record_writes::batched_write_of(
                self.space,
                self.did@,
                self.asked@[self.done@.len() as int],
                self.fresh@,
                self.now@,
                existing,
            )
    }

    /// The address to look up, if any.
    pub fn lookup(&self) -> (uri: Option<String>)
        ensures
            text::opt_text(uri) == self.wants(),
    {
        self.prepared.lookup()
    }

    /// What is to be stored for the op, given what the lookup found, and the rest
    /// of the batch for when the store took it.
    pub fn finish(self, existing: Option<ExistingRecord>) -> (result: Result<
        (RecordChange, WriteBatch),
        AppError,
    >)
        ensures
            match result {
                Ok((change, rest)) => {
                    &&& self.given(service::existing_view(existing)) is Ok
                    &&& change@ == self.given(service::existing_view(existing))->Ok_0.change
                    &&& rest.space() == self.space()
                    &&& rest.did() == self.did()
                    &&& rest.ops() == self.ops()
                    &&& rest.writes() == self.writes().push(
                        self.given(service::existing_view(existing))->Ok_0,
                    )
                },
                Err(error) => self.given(service::existing_view(existing)) == Err::<WriteView, ErrorView>(
                    error@,
                ),
            },
    {
        proof {
            use_type_invariant(&self);
        }
        let BatchTurn { space, did, left, applied, results, prepared, asked, done, fresh, now } = self;
        let ghost found = service::existing_view(existing);
        let ghost outcome = prepared.given(found);
        let write = match prepared.finish(existing) {
            Ok(write) => write,
            Err(error) => {
                return Err(error);
            },
        };
        let mut applied = applied;
        let mut results = results;
        let ghost ops_before = applied@;
        let ghost answers_before = results@;
        results.push(record_writes::make_written_json(record_writes::written(&write)));
        let change = write.change;
        applied.push(write.op);
        let ghost all = done@.push(write@);
        proof {
            assert(outcome == Ok::<WriteView, ErrorView>(write@));
            assert(record_writes::batched_write_of(
                space,
                did@,
                asked@[done@.len() as int],
                fresh@,
                now@,
                found,
            ) == Ok::<WriteView, ErrorView>(write@));
            assert(makes(space, did@, asked@[done@.len() as int], write@));
            assert(service::applied_views(applied@) =~= record_writes::ops_of(all)) by {
                assert(service::applied_views(ops_before) == record_writes::ops_of(done@));
                assert(service::applied_views(applied@) =~= service::applied_views(ops_before).push(
                    write@.op,
                ));
                assert(record_writes::ops_of(all) =~= record_writes::ops_of(done@).push(write@.op));
            }
            assert(crate::json::json_views(results@) =~= answers_of(all)) by {
                assert(crate::json::json_views(answers_before) == answers_of(done@));
                let answer = record_writes::written_json(record_writes::written_of(write@));
                assert(crate::json::json_views(results@) =~= crate::json::json_views(
                    answers_before,
                ).push(answer));
                assert(answers_of(all) =~= answers_of(done@).push(answer));
            }
            assert forall|i: int| 0 <= i < all.len() implies makes(space, did@, asked@[i], #[trigger] all[i]) by {
                if i < done@.len() {
                    assert(all[i] == done@[i]);
                }
            }
        }
        Ok((change, WriteBatch { space, did, left, applied, results, asked, done: Ghost(all) }))
    }
}

/// What a batch comes to: the repo's new state, the log entries, and the answer.
/// The space's revision becomes that of the commit.
pub struct BatchCommit {
    pub state: RepoState,
    pub entries: Vec<OplogEntry>,
    pub applied: Vec<AppliedOp>,
    pub answer: Json,
}

impl FinishedBatch {
    /// The space that is written to.
    pub closed spec fn space(self) -> Space {
        self.space
    }

    /// Who writes.
    pub closed spec fn did(self) -> Seq<char> {
        self.did@
    }

    /// The ops that were asked for.
    pub closed spec fn ops(self) -> Seq<WriteOpView> {
        self.asked@
    }

    /// The writes, one for each op.
    pub closed spec fn writes(self) -> Seq<WriteView> {
        self.done@
    }

    #[verifier::type_invariant]
    spec fn inv(self) -> bool {
        &&& all_made(self.space, self.did@, self.asked@, self.done@)
        &&& service::applied_views(self.applied@) == record_writes::ops_of(self.done@)
        &&& self.answer@ == batch_answer(self.done@)
    }

    /// The edits to the repo's set hash for the whole batch, unless the stored
    /// set hash is corrupt.
    pub fn edits(&self, repo_state: &RepoState) -> (edits: Result<Vec<SetHashEdit>, AppError>)
        ensures
            match edits {
                Ok(list) => service::lthash_verdict(repo_state.lthash_state@.len()) is Ok
                    && service::edit_views(list@) == service::edits_of(
                    record_writes::ops_of(self.writes()),
                ),
                Err(error) => service::lthash_verdict(repo_state.lthash_state@.len()) == Err::<
                    (),
                    ErrorView,
                >(error@),
            },
    {
        proof {
            use_type_invariant(self);
        }
        match service::check_lthash(repo_state) {
            Ok(_) => Ok(service::set_hash_edits(&self.applied)),
            Err(error) => Err(error),
        }
    }

    /// Commits the whole batch at a revision, given the set hash after its edits:
    /// one commit, a log entry for each op, and the answer.
    pub fn commit(
        self,
        repo_state: RepoState,
        rev: &str,
        set_hash: Vec<u8>,
        hash: &[u8; 32],
        signing_key: &P256SigningKey,
        now: &str,
    ) -> (result: Result<BatchCommit, AppError>)
        ensures
            result matches Ok(commit) && {
                &&& all_made(self.space(), self.did(), self.ops(), self.writes())
                &&& service::committed(
                    repo_state,
                    commit.state,
                    self.space(),
                    self.did(),
                    rev@,
                    set_hash@,
                    hash@,
                    signing_key@,
                )
                &&& service::applied_views(commit.applied@) == record_writes::ops_of(self.writes())
                &&& commit.entries@.len() == self.ops().len()
                &&& forall|i: int|
                    0 <= i < commit.entries@.len() ==> service::logs(
                        #[trigger] commit.entries@[i],
                        self.space(),
                        self.did(),
                        rev@,
                        self.writes()[i].op,
                        i,
                        now@,
                    )
                &&& commit.answer@ == batch_answer(self.writes())
            },
    {
        proof {
            use_type_invariant(&self);
        }
        let ghost writes = self.done@;
        let entries = service::oplog_entries(&self.space, self.did.as_str(), rev, &self.applied, now);
        proof {
            assert(service::applied_views(self.applied@).len() == self.applied@.len());
            assert(record_writes::ops_of(writes).len() == writes.len());
            assert forall|i: int| 0 <= i < entries@.len() implies service::logs(
                #[trigger] entries@[i],
                self.space,
                self.did@,
                rev@,
                writes[i].op,
                i,
                now@,
            ) by {
                assert(service::applied_views(self.applied@)[i] == self.applied@[i]@);
                assert(record_writes::ops_of(writes)[i] == writes[i].op);
            }
        }
        match service::commit_write(
            repo_state,
            &self.space,
            self.did.as_str(),
            rev,
            set_hash,
            hash,
            signing_key,
        ) {
            Ok(state) => Ok(
                BatchCommit { state, entries, applied: self.applied, answer: self.answer },
            ),
            Err(error) => Err(error),
        }
    }
}

/// A batch is answered with one result for each op, in order: nothing for a
/// delete, and otherwise the address and the CID of the record that was written,
/// under the key that the op names, if it names one.
pub proof fn law_batches_answer_each_op(
    space: Space,
    did: Seq<char>,
    ops: Seq<WriteOpView>,
    writes: Seq<WriteView>,
    i: int,
)
    requires
        all_made(space, did, ops, writes),
        0 <= i < ops.len(),
    ensures
        answers_of(writes).len() == ops.len(),
        match ops[i] {
            WriteOpView::Delete { .. } => answers_of(writes)[i] == JsonView::Object(Seq::empty()),
            WriteOpView::Create { collection, value, .. } => service::content_cid_of(value) is Ok && exists|
                fresh: Seq<char>,
            | #[trigger]
                answers_of(writes)[i] == record_answer(
                    native_sync::record_address(space, did, collection, ops[i].rkey(fresh)),
                    service::content_cid_of(value)->Ok_0,
                ),
            WriteOpView::Update { collection, rkey, value, .. } => service::content_cid_of(value) is Ok
                && answers_of(writes)[i] == record_answer(
                native_sync::record_address(space, did, collection, rkey),
                service::content_cid_of(value)->Ok_0,
            ),
        },
{
    assert(makes(space, did, ops[i], writes[i]));
    let (fresh, now, existing) = choose|
        fresh: Seq<char>,
        now: Seq<char>,
        existing: Option<ExistingView>,
    | #[trigger]
        record_writes::batched_write_of(space, did, ops[i], fresh, now, existing) == Ok::<
            WriteView,
            ErrorView,
        >(writes[i]);
    assert(answers_of(writes)[i] == record_writes::written_json(record_writes::written_of(writes[i])));
    if let WriteOpView::Create { collection, value, .. } = ops[i] {
        assert(answers_of(writes)[i] == record_answer(
            native_sync::record_address(space, did, collection, ops[i].rkey(fresh)),
            service::content_cid_of(value)->Ok_0,
        ));
    }
}

/// What is stored of an author's repo in a space: the records by address, the log,
/// the repo's state, and the space's revision.
pub struct RepoStore {
    pub records: Map<Seq<char>, ExistingView>,
    pub log: Seq<OplogEntry>,
    pub state: RepoState,
    pub revision: Option<Seq<char>>,
}

/// What a batch leaves stored when it succeeds: the changes of all its writes, in
/// order, their log entries, and one commit at a revision.
pub open spec fn batch_stored(
    before: RepoStore,
    writes: Seq<WriteView>,
    commit: BatchCommit,
    rev: Seq<char>,
) -> RepoStore {
    RepoStore {
        records: record_writes::store_after(before.records, writes),
        log: before.log + commit.entries@,
        state: commit.state,
        revision: Some(rev),
    }
}

/// A batch that fails, at whichever op, leaves records, log, repo state and
/// revision as they were. One that succeeds leaves what all of its writes do.
pub proof fn law_batches_are_all_or_nothing(
    before: RepoStore,
    inside: RepoStore,
    writes: Seq<WriteView>,
    rev: Seq<char>,
    outcome: Result<BatchCommit, AppError>,
)
    requires
        outcome matches Ok(commit) ==> inside == batch_stored(before, writes, commit, rev),
    ensures
        transaction::kept(before, inside, transaction::ended(outcome)) == (match outcome {
            Ok(commit) => batch_stored(before, writes, commit, rev),
            Err(_) => before,
        }),
{
    transaction::law_all_or_nothing(before, inside, outcome);
}

/// The answer to a write that leaves a record.
pub open spec fn record_answer(uri: Seq<char>, cid: Seq<char>) -> JsonView {
    record_writes::written_json(Some(record_writes::WrittenView { uri, cid }))
}

/// The answer to a batch holds, under `results`, one result for each write, in
/// order: the address and the CID of the record that the write left, or an empty
/// object where it left none.
pub proof fn law_results_are_those_of_the_writes(writes: Seq<WriteView>, i: int)
    requires
        0 <= i < writes.len(),
    ensures
        batch_answer(writes).get("results"@) matches Some(JsonView::List(results)) && results.len()
            == writes.len() && match service::coming(writes[i].change) {
            Some(r) => results[i].get_str("uri"@) == Some(r.uri) && results[i].get_str("cid"@) == Some(
                r.cid,
            ),
            None => results[i] == JsonView::Object(Seq::empty()),
        },
{
    let members = batch_answer(writes)->Object_0;
    assert(members[0].0 == "results"@);
    crate::json::lemma_lookup_at(members, 0);
    let result = answers_of(writes)[i];
    assert(result == record_writes::written_json(record_writes::written_of(writes[i])));
    if let Some(r) = service::coming(writes[i].change) {
        reveal_strlit("uri");
        reveal_strlit("cid");
        assert("uri"@[0] == 'u' && "cid"@[0] == 'c');
        let found = result->Object_0;
        assert(found[0].0 == "uri"@ && found[1].0 == "cid"@);
        crate::json::lemma_lookup_at(found, 0);
        crate::json::lemma_lookup_at(found, 1);
    }
}

} // verus!
