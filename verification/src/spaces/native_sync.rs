//! Keeping the index in step with a repo hosted on a user's PDS.
//!
//! Once a repo is native the PDS is the source of truth and this service indexes
//! it. A sync fetches the ops since a cursor, applies them to the index, and
//! checks the index against the host's signed commit. The cursor records the
//! last rev that was applied, so it advances only after the ops are in the
//! index.
use vstd::prelude::*;

use crate::error::{AppError, ErrorView};
use crate::spaces::commit;
use crate::spaces::commit::{SignedCommit, SpaceVerifyingKey};
use crate::spaces::host_mode::HostMode;
use crate::spaces::native_client;
use crate::spaces::native_client::{OpAction, OpView, RepoOp};
use crate::spaces::types::{RecordView, RepoState, Space, SpaceRecord};
use crate::spaces::uri;
use crate::text;

verus! {

/// What a sync attempt did.
#[derive(Debug, Clone, PartialEq, Eq)]
pub enum SyncOutcome {
    /// The repo is not hosted elsewhere, so there is nothing upstream to pull.
    NotNative,
    /// Nothing new since the cursor.
    UpToDate,
    /// Ops were applied and the cursor advanced.
    Applied { ops: usize, rev: String },
    /// The upstream commit disagrees with the index after applying. The index is
    /// left as it is and a full recovery is needed.
    Diverged { expected: String, ours: String },
}

/// What a [`SyncOutcome`] says.
#[verifier::ext_equal]
pub enum OutcomeView {
    NotNative,
    UpToDate,
    Applied { ops: nat, rev: Seq<char> },
    Diverged { expected: Seq<char>, ours: Seq<char> },
}

impl View for SyncOutcome {
    type V = OutcomeView;

    open spec fn view(&self) -> OutcomeView {
        match self {
            SyncOutcome::NotNative => OutcomeView::NotNative,
            SyncOutcome::UpToDate => OutcomeView::UpToDate,
            SyncOutcome::Applied { ops, rev } => OutcomeView::Applied { ops: *ops as nat, rev: rev@ },
            SyncOutcome::Diverged { expected, ours } => OutcomeView::Diverged {
                expected: expected@,
                ours: ours@,
            },
        }
    }
}

/// The address of a space.
pub open spec fn space_address(space: Space) -> Seq<char> {
    uri::space_text(space.did@, space.type_nsid@, space.skey@)
}

/// The address of a record of a space.
pub open spec fn record_address(
    space: Space,
    author_did: Seq<char>,
    collection: Seq<char>,
    rkey: Seq<char>,
) -> Seq<char> {
    uri::record_text(space_address(space), author_did, collection, rkey)
}

/// The address of a space.
pub fn space_uri(space: &Space) -> (text: String)
    ensures
        text@ == space_address(*space),
{
    uri::space_uri_text(space.did.as_str(), space.type_nsid.as_str(), space.skey.as_str())
}

/// The address of a record of a space.
pub fn record_uri(space: &Space, author_did: &str, collection: &str, rkey: &str) -> (text: String)
    ensures
        text@ == record_address(*space, author_did@, collection@, rkey@),
{
    let space = space_uri(space);
    uri::record_uri_text(space.as_str(), author_did, collection, rkey)
}

/// How a sync begins: with the revision to ask for ops since, or not at all.
///
/// A repo that is not native is left alone: there is no upstream to pull, and
/// treating a stray notification as a sync would overwrite the source of truth
/// with an empty remote.
pub enum SyncStart {
    Stop(SyncOutcome),
    Fetch { since: Option<String> },
}

/// Begins a sync of a repo. What a host then sends goes through a [`SyncRun`].
pub fn sync_repo(repo_state: &RepoState) -> (start: SyncStart)
    ensures
        match start {
            SyncStart::Stop(outcome) => repo_state.host_mode != HostMode::Native && outcome@
                == OutcomeView::NotNative,
            SyncStart::Fetch { since } => repo_state.host_mode == HostMode::Native && since
                == repo_state.sync_cursor,
        },
{
    if repo_state.host_mode != HostMode::Native {
        SyncStart::Stop(SyncOutcome::NotNative)
    } else {
        SyncStart::Fetch { since: text::clone_opt(&repo_state.sync_cursor) }
    }
}

/// What an op changes in the index.
#[derive(Debug)]
pub enum IndexChange {
    /// The record with this address goes.
    Delete(String),
    /// This record comes, or takes the place of the one with its address.
    Upsert(SpaceRecord),
}

/// What an [`IndexChange`] changes.
#[verifier::ext_equal]
pub enum ChangeView {
    Delete(Seq<char>),
    Upsert(RecordView),
}

impl View for IndexChange {
    type V = ChangeView;

    open spec fn view(&self) -> ChangeView {
        match self {
            IndexChange::Delete(uri) => ChangeView::Delete(uri@),
            IndexChange::Upsert(record) => ChangeView::Upsert(record@),
        }
    }
}

/// The word for an action, in messages.
pub open spec fn action_name(action: OpAction) -> Seq<char> {
    match action {
        OpAction::Create => "Create"@,
        OpAction::Update => "Update"@,
        OpAction::Delete => "Delete"@,
    }
}

/// What an op changes in the index at a given time. A record's final op carries
/// its CID and its value, unless it is a delete.
pub open spec fn change_of(space: Space, author_did: Seq<char>, op: OpView, now: Seq<char>) -> Result<
    ChangeView,
    ErrorView,
> {
    let uri = record_address(space, author_did, op.collection, op.rkey);
    if op.action == OpAction::Delete {
        Ok(ChangeView::Delete(uri))
    } else {
        match (op.cid, op.value) {
            (Some(cid), Some(value)) => Ok(
                ChangeView::Upsert(
                    RecordView {
                        uri,
                        space_id: space.id@,
                        author_did,
                        collection: op.collection,
                        rkey: op.rkey,
                        record: value,
                        cid,
                        indexed_at: now,
                    },
                ),
            ),
            _ => Err(
                ErrorView::Internal(
                    "listRepoOps returned a "@ + action_name(op.action)
                        + " op with no record value for "@ + uri,
                ),
            ),
        }
    }
}

/// Decides what an op changes in the index.
pub fn index_change(space: &Space, author_did: &str, op: &RepoOp, now: &str) -> (change: Result<
    IndexChange,
    AppError,
>)
    ensures
        crate::error::outcome(change) == change_of(*space, author_did@, op@, now@),
{
    let uri = record_uri(space, author_did, op.collection.as_str(), op.rkey.as_str());
    let name: &str = match op.action {
        OpAction::Delete => {
            return Ok(IndexChange::Delete(uri));
        },
        OpAction::Create => "Create",
        OpAction::Update => "Update",
    };
    match (&op.cid, &op.value) {
        (Some(cid), Some(value)) => Ok(
            IndexChange::Upsert(
                SpaceRecord {
                    uri,
                    space_id: space.id.clone(),
                    author_did: author_did.to_owned(),
                    collection: op.collection.clone(),
                    rkey: op.rkey.clone(),
                    record: value.copy(),
                    cid: cid.clone(),
                    indexed_at: now.to_owned(),
                },
            ),
        ),
        _ => Err(
            AppError::Internal(
                text::cat4(
                    "listRepoOps returned a ",
                    name,
                    " op with no record value for ",
                    uri.as_str(),
                ),
            ),
        ),
    }
}

/// What a sync comes to, once the ops are in the index, the host's commit
/// verified, and the hash of the index is known.
pub open spec fn concluded(
    commit_hash: Seq<u8>,
    our_hash: Seq<u8>,
    applied: nat,
    rev: Seq<char>,
) -> OutcomeView {
    if commit_hash != our_hash {
        OutcomeView::Diverged { expected: text::hex_of(commit_hash), ours: text::hex_of(our_hash) }
    } else {
        OutcomeView::Applied { ops: applied, rev }
    }
}

/// Optional bytes of an array.
pub open spec fn holds(bytes: Option<Vec<u8>>, value: Seq<u8>) -> bool {
    bytes matches Some(b) && b@ == value
}

/// Whether a repo's state is another with a host's commit adopted: the commit,
/// the set hash over the index, and the cursor at the last op applied.
pub open spec fn adopted(
    before: RepoState,
    after: RepoState,
    commit: SignedCommit,
    our_state: Seq<u8>,
    rev: Seq<char>,
) -> bool {
    &&& after.space_id == before.space_id
    &&& after.author_did == before.author_did
    &&& after.host_mode == before.host_mode
    &&& after.lthash_state@ == our_state
    &&& text::opt_text(after.sync_cursor) == Some(rev)
    &&& text::opt_text(after.rev) == Some(commit.rev@)
    &&& holds(after.hash, commit.hash@)
    &&& holds(after.ikm, commit.ikm@)
    &&& holds(after.sig, commit.sig@)
    &&& holds(after.mac, commit.mac@)
}

/// What a sync is about: whose repo in which space, how many ops were fetched,
/// and the revision of the last of them.
#[verifier::ext_equal]
pub struct SyncSubject {
    pub space: Space,
    pub author_did: Seq<char>,
    pub ops: nat,
    pub rev: Seq<char>,
}

/// A sync that applies the ops it fetched: of each record the latest.
pub struct SyncRun<'a> {
    space: &'a Space,
    author_did: &'a str,
    latest: Vec<&'a RepoOp>,
    next: usize,
    ops: usize,
    rev: String,
}

/// A sync whose ops are in the index. What is left is to check the index against
/// the host's commit: a lost notification can make a sync miss ops, and the
/// commit's hash shows that.
pub struct SyncCheck<'a> {
    space: &'a Space,
    author_did: &'a str,
    ops: usize,
    rev: String,
}

/// A sync whose ops are in the index, with a commit that is the author's.
pub struct VerifiedSync {
    commit: SignedCommit,
    ops: usize,
    rev: String,
}

/// How a sync goes on.
pub enum SyncStep<'a> {
    /// This change is to be made, and then the rest.
    Apply { change: IndexChange, rest: SyncRun<'a> },
    /// All changes are made.
    Check(SyncCheck<'a>),
}

impl<'a> SyncRun<'a> {
    /// What the sync is about.
    pub closed spec fn subject(self) -> SyncSubject {
        SyncSubject {
            space: *self.space,
            author_did: self.author_did@,
            ops: self.ops as nat,
            rev: self.rev@,
        }
    }

    /// The ops that are not applied yet.
    pub closed spec fn left(self) -> Seq<OpView> {
        native_client::op_ref_views(self.latest@).skip(self.next as int)
    }

    #[verifier::type_invariant]
    spec fn inv(self) -> bool {
        self.next <= self.latest@.len()
    }

    /// Takes the ops that a host sent. Without any there is nothing to do.
    pub fn begin(space: &'a Space, author_did: &'a str, ops: &'a Vec<RepoOp>) -> (run: Option<
        SyncRun<'a>,
    >)
        ensures
            run is None <==> ops@.len() == 0,
            run matches Some(run) ==> {
                &&& run.left() == native_client::latest_ops(native_client::op_views(ops@))
                &&& run.subject() == (SyncSubject {
                    space: *space,
                    author_did: author_did@,
                    ops: ops@.len(),
                    rev: ops@.last().rev@,
                })
            },
    {
        let n = ops.len();
        if n == 0 {
            return None;
        }
        let latest = native_client::latest_op_per_record(ops);
        let run = SyncRun {
            space,
            author_did,
            latest,
            next: 0,
            ops: n,
            rev: ops[n - 1].rev.clone(),
        };
        assert(run.left() =~= native_client::op_ref_views(latest@));
        Some(run)
    }

    /// Decides on the next change to the index.
    pub fn step(self, now: &str) -> (step: Result<SyncStep<'a>, AppError>)
        ensures
            match step {
                Ok(SyncStep::Apply { change, rest }) => {
                    &&& self.left().len() > 0
                    &&& change_of(
                        self.subject().space,
                        self.subject().author_did,
                        self.left()[0],
                        now@,
                    ) == Ok::<ChangeView, ErrorView>(change@)
                    &&& rest.left() == self.left().skip(1)
                    &&& rest.subject() == self.subject()
                },
                Ok(SyncStep::Check(check)) => {
                    &&& self.left().len() == 0
                    &&& check.subject() == self.subject()
                },
                Err(error) => {
                    &&& self.left().len() > 0
                    &&& change_of(
                        self.subject().space,
                        self.subject().author_did,
                        self.left()[0],
                        now@,
                    ) == Err::<ChangeView, ErrorView>(error@)
                },
            },
    {
        proof {
            use_type_invariant(&self);
        }
        let ghost before = self;
        if self.next >= self.latest.len() {
            return Ok(
                SyncStep::Check(
                    SyncCheck {
                        space: self.space,
                        author_did: self.author_did,
                        ops: self.ops,
                        rev: self.rev,
                    },
                ),
            );
        }
        let change = match index_change(
            self.space,
            self.author_did,
            self.latest[self.next],
            now,
        ) {
            Ok(change) => change,
            Err(error) => return Err(error),
        };
        let rest = SyncRun {
            space: self.space,
            author_did: self.author_did,
            latest: self.latest,
            next: self.next + 1,
            ops: self.ops,
            rev: self.rev,
        };
        assert(rest.left() =~= before.left().skip(1));
        Ok(SyncStep::Apply { change, rest })
    }
}

impl<'a> SyncCheck<'a> {
    /// What the sync is about.
    pub closed spec fn subject(self) -> SyncSubject {
        SyncSubject {
            space: *self.space,
            author_did: self.author_did@,
            ops: self.ops as nat,
            rev: self.rev@,
        }
    }

    /// Takes the host's commit, if it verifies for the author's repo in the space.
    pub fn verify(self, commit: SignedCommit, key: &SpaceVerifyingKey) -> (verified: Result<
        VerifiedSync,
        AppError,
    >)
        ensures
            match verified {
                Ok(sync) => {
                    &&& commit::commit_verdict(
                        commit@,
                        space_address(self.subject().space),
                        self.subject().author_did,
                        key@,
                    ) == Ok::<(), ErrorView>(())
                    &&& sync.commit() == commit
                    &&& sync.ops() == self.subject().ops
                    &&& sync.rev() == self.subject().rev
                },
                Err(error) => commit::commit_verdict(
                    commit@,
                    space_address(self.subject().space),
                    self.subject().author_did,
                    key@,
                ) == Err::<(), ErrorView>(error@),
            },
    {
        let uri = space_uri(self.space);
        match commit::verify_commit(&commit, uri.as_str(), self.author_did, key) {
            Ok(_) => Ok(VerifiedSync { commit, ops: self.ops, rev: self.rev }),
            Err(error) => Err(error),
        }
    }
}

impl VerifiedSync {
    /// The host's commit.
    pub closed spec fn commit(self) -> SignedCommit {
        self.commit
    }

    /// How many ops were fetched.
    pub closed spec fn ops(self) -> nat {
        self.ops as nat
    }

    /// The revision of the last of them.
    pub closed spec fn rev(self) -> Seq<char> {
        self.rev@
    }

    /// Concludes a sync. The state to store comes with it only if the index
    /// agrees with the host's commit: otherwise the cursor must stay where it is,
    /// so that the next sync fetches the same window again rather than skipping
    /// past a gap.
    pub fn conclude(self, repo_state: RepoState, our_hash: &[u8; 32], our_state: Vec<u8>) -> (result: (
        SyncOutcome,
        Option<RepoState>,
    ))
        ensures
            result.0@ == concluded(self.commit().hash@, our_hash@, self.ops(), self.rev()),
            result.1 is Some <==> self.commit().hash@ == our_hash@,
            result.1 matches Some(after) ==> adopted(
                repo_state,
                after,
                self.commit(),
                our_state@,
                self.rev(),
            ),
    {
        let commit = self.commit;
        if !crate::crypto::ct_eq(&commit.hash, our_hash) {
            let expected = text::hex(&commit.hash);
            let ours = text::hex(our_hash);
            return (SyncOutcome::Diverged { expected, ours }, None);
        }
        let after = RepoState {
            space_id: repo_state.space_id,
            author_did: repo_state.author_did,
            lthash_state: our_state,
            rev: Some(commit.rev.clone()),
            hash: Some(vstd::slice::slice_to_vec(&commit.hash)),
            ikm: Some(vstd::slice::slice_to_vec(&commit.ikm)),
            sig: Some(vstd::slice::slice_to_vec(commit.sig.as_slice())),
            mac: Some(vstd::slice::slice_to_vec(&commit.mac)),
            host_mode: repo_state.host_mode,
            sync_cursor: Some(self.rev.clone()),
        };
        (SyncOutcome::Applied { ops: self.ops, rev: self.rev }, Some(after))
    }
}

/// The CIDs of a space's records by an author, by address.
pub open spec fn index_changed(index: Map<Seq<char>, Seq<char>>, change: ChangeView) -> Map<
    Seq<char>,
    Seq<char>,
> {
    match change {
        ChangeView::Delete(uri) => index.remove(uri),
        ChangeView::Upsert(record) => index.insert(record.uri, record.cid),
    }
}

/// What an op changes is exactly its own record, and leaves it with the CID that
/// the op names: the change and the op come to the same.
pub proof fn law_change_follows_the_op(
    space: Space,
    author_did: Seq<char>,
    op: OpView,
    now: Seq<char>,
    index: Map<Seq<char>, Seq<char>>,
)
    requires
        native_client::implied_action(op.cid, op.prev) == Some(op.action),
    ensures
        change_of(space, author_did, op, now) matches Ok(change) ==> index_changed(index, change) == (
        match op.cid {
            Some(cid) => index.insert(record_address(space, author_did, op.collection, op.rkey), cid),
            None => index.remove(record_address(space, author_did, op.collection, op.rkey)),
        }),
{
}

/// A record that an op brings into the index is the op's: its author's, in its
/// collection and under its key, with its value and CID, at the address of just
/// those. An op that deletes names the record at its address.
pub proof fn law_indexed_records_are_the_ops_own(
    space: Space,
    author_did: Seq<char>,
    op: OpView,
    now: Seq<char>,
)
    ensures
        change_of(space, author_did, op, now) matches Ok(ChangeView::Upsert(r)) ==> {
            &&& op.action != OpAction::Delete
            &&& r.collection == op.collection
            &&& r.rkey == op.rkey
            &&& r.author_did == author_did
            &&& r.space_id == space.id@
            &&& Some(r.record) == op.value
            &&& Some(r.cid) == op.cid
            &&& r.indexed_at == now
            &&& r.uri == record_address(space, author_did, r.collection, r.rkey)
        },
        change_of(space, author_did, op, now) matches Ok(ChangeView::Delete(uri)) ==> op.action
            == OpAction::Delete && uri == record_address(space, author_did, op.collection, op.rkey),
{
}

/// An op can be applied just if it deletes, or comes with a value and its CID.
pub proof fn law_which_ops_can_be_applied(
    space: Space,
    author_did: Seq<char>,
    op: OpView,
    now: Seq<char>,
)
    ensures
        change_of(space, author_did, op, now) is Ok <==> op.action == OpAction::Delete || (op.cid is Some
            && op.value is Some),
        change_of(space, author_did, op, now) matches Err(error) ==> error is Internal,
{
}

/// A sync has applied its ops just if the index has the hash that the host's
/// commit has; otherwise it tells both, the host's as what was expected.
pub proof fn law_syncs_end_in_agreement_or_say_so(
    commit_hash: Seq<u8>,
    our_hash: Seq<u8>,
    applied: nat,
    rev: Seq<char>,
)
    ensures
        commit_hash == our_hash ==> (concluded(commit_hash, our_hash, applied, rev) matches OutcomeView::Applied {
            ops,
            rev: last,
        } && ops == applied && last == rev),
        commit_hash != our_hash ==> (concluded(commit_hash, our_hash, applied, rev) matches OutcomeView::Diverged {
            expected,
            ours,
        } && expected == text::hex_of(commit_hash) && ours == text::hex_of(our_hash)),
{
}

/// A state that adopted a host's commit holds that commit, the set hash over the
/// index, and the last op applied as its cursor, and is still the same repo's,
/// hosted where it was.
pub proof fn law_adopted_states_hold_the_hosts_commit(
    before: RepoState,
    after: RepoState,
    commit: SignedCommit,
    our_state: Seq<u8>,
    rev: Seq<char>,
)
    requires
        adopted(before, after, commit, our_state, rev),
        commit.ver == 1,
    ensures
        crate::spaces::routes::commit_of_state(after) == Ok::<commit::CommitView, ErrorView>(commit@),
        after.lthash_state@ == our_state,
        after.sync_cursor matches Some(cursor) && cursor@ == rev,
        after.space_id == before.space_id,
        after.author_did == before.author_did,
        after.host_mode == before.host_mode,
{
}

/// Ops of one record name one address, and an op that comes after it in the log
/// has the last word on it: applying both leaves what applying the later one does.
pub proof fn law_later_ops_have_the_last_word(
    space: Space,
    author_did: Seq<char>,
    first: OpView,
    second: OpView,
    now: Seq<char>,
    index: Map<Seq<char>, Seq<char>>,
)
    requires
        native_client::same_record(first, second),
        change_of(space, author_did, first, now) is Ok,
        change_of(space, author_did, second, now) is Ok,
    ensures
        ({
            let a = change_of(space, author_did, first, now)->Ok_0;
            let b = change_of(space, author_did, second, now)->Ok_0;
            index_changed(index_changed(index, a), b) == index_changed(index, b)
        }),
{
    let a = change_of(space, author_did, first, now)->Ok_0;
    let b = change_of(space, author_did, second, now)->Ok_0;
    assert(index_changed(index_changed(index, a), b) =~= index_changed(index, b));
}

} // verus!
