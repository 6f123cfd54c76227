//! Writing records, here or on the user's PDS.
//!
//! A write goes through stages. It is admitted, which needs write access and a
//! collection that the space takes; it is routed, to this service or to the
//! PDS that hosts the repo; and where it stays here it is prepared, which tells
//! what must be looked up, and finished, which tells what to store and to log.
use vstd::prelude::*;

use crate::error::{AppError, ErrorView};
use crate::json::{Json, JsonView};
use crate::spaces::credential::SpaceCredentialClaims;
use crate::spaces::host_mode::HostMode;
use crate::spaces::native_sync;
use crate::spaces::service;
use crate::spaces::service::{
    AppliedView, ExistingRecord, ExistingView, PlannedWrite, RecordChangeView, WriteView,
};
use crate::spaces::types::{MemberAccess, RepoState, Space, SpaceRecord};
use crate::spaces::uri;
use crate::text;

verus! {

/// A write that a caller asks for.
#[allow(inconsistent_fields)]
#[derive(Debug)]
pub enum WriteOp {
    /// A new record, under a key of its own if none is given.
    Create { collection: String, rkey: Option<String>, value: Json },
    /// A record in place of the one with its address, or new.
    Update { collection: String, rkey: String, value: Json, swap_record: Option<String> },
    /// No record.
    Delete { collection: String, rkey: String, swap_record: Option<String> },
}

/// What a [`WriteOp`] asks for.
#[allow(inconsistent_fields)]
#[verifier::ext_equal]
pub enum WriteOpView {
    Create { collection: Seq<char>, rkey: Option<Seq<char>>, value: JsonView },
    Update { collection: Seq<char>, rkey: Seq<char>, value: JsonView, swap_record: Option<Seq<char>> },
    Delete { collection: Seq<char>, rkey: Seq<char>, swap_record: Option<Seq<char>> },
}

impl View for WriteOp {
    type V = WriteOpView;

    open spec fn view(&self) -> WriteOpView {
        match self {
            WriteOp::Create { collection, rkey, value } => WriteOpView::Create {
                collection: collection@,
                rkey: text::opt_text(*rkey),
                value: value@,
            },
            WriteOp::Update { collection, rkey, value, swap_record } => WriteOpView::Update {
                collection: collection@,
                rkey: rkey@,
                value: value@,
                swap_record: text::opt_text(*swap_record),
            },
            WriteOp::Delete { collection, rkey, swap_record } => WriteOpView::Delete {
                collection: collection@,
                rkey: rkey@,
                swap_record: text::opt_text(*swap_record),
            },
        }
    }
}

/// An action on records that a session's scope can permit.
#[derive(Debug, Clone, Copy, PartialEq, Eq, Structural)]
pub enum SpaceAction {
    Create,
    Update,
    Delete,
}

impl WriteOpView {
    /// The collection that is written to.
    pub open spec fn collection(self) -> Seq<char> {
        match self {
            WriteOpView::Create { collection, .. } => collection,
            WriteOpView::Update { collection, .. } => collection,
            WriteOpView::Delete { collection, .. } => collection,
        }
    }

    /// The key that is written to, where a create without one gets a fresh one.
    pub open spec fn rkey(self, fresh: Seq<char>) -> Seq<char> {
        match self {
            WriteOpView::Create { rkey, .. } => match rkey {
                Some(key) => key,
                None => fresh,
            },
            WriteOpView::Update { rkey, .. } => rkey,
            WriteOpView::Delete { rkey, .. } => rkey,
        }
    }

    /// The action that a scope must permit in a batch.
    pub open spec fn action(self) -> SpaceAction {
        match self {
            WriteOpView::Create { .. } => SpaceAction::Create,
            WriteOpView::Update { .. } => SpaceAction::Update,
            WriteOpView::Delete { .. } => SpaceAction::Delete,
        }
    }

    /// The actions that a scope must permit for the write on its own. Putting a
    /// record creates or updates it, so it needs both.
    pub open spec fn actions(self) -> Seq<SpaceAction> {
        match self {
            WriteOpView::Create { .. } => seq![SpaceAction::Create],
            WriteOpView::Update { .. } => seq![SpaceAction::Create, SpaceAction::Update],
            WriteOpView::Delete { .. } => seq![SpaceAction::Delete],
        }
    }

    /// The method that the write is forwarded to.
    pub open spec fn method(self) -> Seq<char> {
        match self {
            WriteOpView::Create { .. } => "com.atproto.space.createRecord"@,
            WriteOpView::Update { .. } => "com.atproto.space.putRecord"@,
            WriteOpView::Delete { .. } => "com.atproto.space.deleteRecord"@,
        }
    }

    /// What is forwarded.
    pub open spec fn forwarded_body(self, space_uri: Seq<char>, did: Seq<char>) -> JsonView {
        match self {
            WriteOpView::Create { collection, rkey, value } => JsonView::Object(
                service::forward_members(space_uri, did, collection, None, Some(value)),
            ),
            WriteOpView::Update { collection, rkey, value, swap_record } => swapped(
                JsonView::Object(
                    service::forward_members(space_uri, did, collection, Some(rkey), Some(value)),
                ),
                swap_record,
            ),
            WriteOpView::Delete { collection, rkey, swap_record } => swapped(
                JsonView::Object(
                    service::forward_members(space_uri, did, collection, Some(rkey), None),
                ),
                swap_record,
            ),
        }
    }
}

/// The body of a forwarded write, with the condition if there is one.
pub open spec fn swapped(body: JsonView, swap: Option<Seq<char>>) -> JsonView {
    match swap {
        Some(cid) => crate::json::with_member(body, "swapRecord"@, JsonView::Text(cid)),
        None => body,
    }
}

impl WriteOp {
    /// The collection that is written to.
    pub fn collection(&self) -> (collection: &str)
        ensures
            collection@ == self@.collection(),
    {
        match self {
            WriteOp::Create { collection, .. } => collection.as_str(),
            WriteOp::Update { collection, .. } => collection.as_str(),
            WriteOp::Delete { collection, .. } => collection.as_str(),
        }
    }

    /// The action that a scope must permit in a batch. Each op needs a grant of
    /// its own: one for a collection does not carry a write to another just
    /// because they arrived together.
    pub fn action(&self) -> (action: SpaceAction)
        ensures
            action == self@.action(),
    {
        match self {
            WriteOp::Create { .. } => SpaceAction::Create,
            WriteOp::Update { .. } => SpaceAction::Update,
            WriteOp::Delete { .. } => SpaceAction::Delete,
        }
    }

    /// The actions that a scope must permit for the write on its own.
    pub fn actions(&self) -> (actions: Vec<SpaceAction>)
        ensures
            actions@ == self@.actions(),
    {
        match self {
            WriteOp::Create { .. } => vec![SpaceAction::Create],
            WriteOp::Update { .. } => vec![SpaceAction::Create, SpaceAction::Update],
            WriteOp::Delete { .. } => vec![SpaceAction::Delete],
        }
    }

    fn forwarded_body(&self, space_uri: &str, did: &str) -> (body: Json)
        ensures
            body@ == self@.forwarded_body(space_uri@, did@),
    {
        match self {
            WriteOp::Create { collection, value, .. } => service::forward_body(
                space_uri,
                did,
                collection.as_str(),
                None,
                Some(value),
            ),
            WriteOp::Update { collection, rkey, value, swap_record } => {
                let body = service::forward_body(
                    space_uri,
                    did,
                    collection.as_str(),
                    Some(rkey.as_str()),
                    Some(value),
                );
                service::with_swap_record(body, as_str(swap_record))
            },
            WriteOp::Delete { collection, rkey, swap_record } => {
                let body = service::forward_body(
                    space_uri,
                    did,
                    collection.as_str(),
                    Some(rkey.as_str()),
                    None,
                );
                service::with_swap_record(body, as_str(swap_record))
            },
        }
    }
}

fn as_str(value: &Option<String>) -> (text: Option<&str>)
    ensures
        text::opt_str(text) == text::opt_text(*value),
{
    match value {
        Some(t) => Some(t.as_str()),
        None => None,
    }
}

/// Whether a single write is admitted: its caller may write to the space, and
/// the space takes the collection, which a delete does not ask.
pub open spec fn admission_of(
    space: Space,
    access: Result<MemberAccess, ErrorView>,
    op: WriteOpView,
) -> Result<(), ErrorView> {
    match access {
        Err(error) => Err(error),
        Ok(_) => match op {
            WriteOpView::Delete { .. } => Ok(()),
            _ => service::collection_verdict(space, op.collection()),
        },
    }
}

/// A write whose caller may make it.
pub struct AdmittedWrite {
    space: Space,
    did: String,
    op: WriteOp,
}

impl AdmittedWrite {
    /// The space that is written to.
    pub closed spec fn space(self) -> Space {
        self.space
    }

    /// Who writes.
    pub closed spec fn did(self) -> Seq<char> {
        self.did@
    }

    /// What is written.
    pub closed spec fn op(self) -> WriteOpView {
        self.op@
    }
}

/// Admits a write by a member, or refuses it.
///
/// A space credential never writes, and a delete does not even look at one.
pub fn admit_write(
    space: Space,
    did: String,
    verified: Option<&SpaceCredentialClaims>,
    revoked: bool,
    listed: Option<MemberAccess>,
    op: WriteOp,
) -> (result: Result<AdmittedWrite, AppError>)
    ensures
        ({
            let credential = match verified {
                Some(claims) => if op is Delete {
                    None
                } else {
                    Some(claims.sub@)
                },
                None => None,
            };
            let verdict = admission_of(
                space,
                service::membership_of(space, credential, revoked, listed, true),
                op@,
            );
            match result {
                Ok(write) => verdict is Ok && write.space() == space && write.did() == did@ && write.op()
                    == op@,
                Err(error) => verdict == Err::<(), ErrorView>(error@),
            }
        }),
{
    let is_delete = match &op {
        WriteOp::Delete { .. } => true,
        _ => false,
    };
    let credential = if is_delete {
        None
    } else {
        verified
    };
    match service::require_membership(&space, credential, revoked, listed, true) {
        Err(error) => {
            return Err(error);
        },
        Ok(_) => {},
    }
    if !is_delete {
        match service::check_collection_allowed(&space, op.collection()) {
            Err(error) => {
                return Err(error);
            },
            Ok(_) => {},
        }
    }
    Ok(AdmittedWrite { space, did, op })
}

/// A write that goes to the user's PDS: what to post there.
pub struct ForwardedWrite {
    pub method: String,
    pub body: Json,
    /// Whether the write is a delete.
    pub deletes: bool,
}

/// Where a write goes.
pub enum RoutedWrite {
    /// To the user's PDS.
    Forward(ForwardedWrite),
    /// To this service.
    Local(AdmittedWrite),
}

impl AdmittedWrite {
    /// Decides where a write goes: a repo that its user's PDS hosts is written
    /// there and nowhere else.
    pub fn route(self, repo_state: &RepoState) -> (routed: RoutedWrite)
        ensures
            match routed {
                RoutedWrite::Local(write) => repo_state.host_mode != HostMode::Native && write == self,
                RoutedWrite::Forward(write) => repo_state.host_mode == HostMode::Native
                    && write.method@ == self.op().method() && write.body@
                    == self.op().forwarded_body(native_sync::space_address(self.space()), self.did())
                    && write.deletes == (self.op() is Delete),
            },
    {
        if !service::forwards_writes(repo_state) {
            return RoutedWrite::Local(self);
        }
        let space_uri = native_sync::space_uri(&self.space);
        let body = self.op.forwarded_body(space_uri.as_str(), self.did.as_str());
        let (method, deletes) = match &self.op {
            WriteOp::Create { .. } => ("com.atproto.space.createRecord", false),
            WriteOp::Update { .. } => ("com.atproto.space.putRecord", false),
            WriteOp::Delete { .. } => ("com.atproto.space.deleteRecord", true),
        };
        RoutedWrite::Forward(ForwardedWrite { method: method.to_owned(), body, deletes })
    }
}

/// The URI and CID of a written record.
#[verifier::ext_equal]
pub struct WrittenView {
    pub uri: Seq<char>,
    pub cid: Seq<char>,
}

/// The URI and CID of a written record.
#[derive(Debug)]
pub struct Written {
    pub uri: String,
    pub cid: String,
}

impl View for Written {
    type V = WrittenView;

    open spec fn view(&self) -> WrittenView {
        WrittenView { uri: self.uri@, cid: self.cid@ }
    }
}

/// What an optional [`Written`] is.
pub open spec fn written_view(written: Option<Written>) -> Option<WrittenView> {
    match written {
        Some(w) => Some(w@),
        None => None,
    }
}

/// The fallible outcome of a write, by what it says.
pub open spec fn written_outcome(result: Result<Option<Written>, AppError>) -> Result<
    Option<WrittenView>,
    ErrorView,
> {
    match result {
        Ok(written) => Ok(written_view(written)),
        Err(error) => Err(error@),
    }
}

/// What a forwarded write results in. For a delete the answer's content is of no
/// interest.
pub open spec fn forward_result(
    method: Seq<char>,
    deletes: bool,
    success: bool,
    body: Seq<u8>,
    detail: Seq<char>,
) -> Result<Option<WrittenView>, ErrorView> {
    match service::forwarded_of(method, success, body, detail) {
        Err(error) => Err(error),
        Ok(value) => if deletes {
            Ok(None)
        } else {
            let (uri, cid) = service::forwarded_ids_of(value);
            Ok(Some(WrittenView { uri, cid }))
        },
    }
}

impl ForwardedWrite {
    /// Reads the PDS's answer: whether it is a success, its body, and for a
    /// failure the body as text.
    pub fn conclude(self, success: bool, body: &[u8], detail: &str) -> (result: Result<
        Option<Written>,
        AppError,
    >)
        ensures
            written_outcome(result) == forward_result(
                self.method@,
                self.deletes,
                success,
                body@,
                detail@,
            ),
    {
        match service::read_forwarded(self.method.as_str(), success, body, detail) {
            Err(error) => Err(error),
            Ok(value) => if self.deletes {
                Ok(None)
            } else {
                let (uri, cid) = service::forwarded_ids(&value);
                Ok(Some(Written { uri, cid }))
            },
        }
    }
}

/// What a local write does: the change to the store and the op to log, given
/// what is stored under the record's address. `fresh` is the key of a create
/// that names none.
pub open spec fn local_write_of(
    space: Space,
    did: Seq<char>,
    op: WriteOpView,
    fresh: Seq<char>,
    now: Seq<char>,
    existing: Option<ExistingView>,
) -> Result<WriteView, ErrorView> {
    match op {
        WriteOpView::Create { collection, rkey, value } => match service::new_record_of(
            space,
            did,
            collection,
            op.rkey(fresh),
            value,
            now,
        ) {
            Err(error) => Err(error),
            Ok(record) => Ok(service::create_of(record)),
        },
        WriteOpView::Update { collection, rkey, value, swap_record } => match service::new_record_of(
            space,
            did,
            collection,
            rkey,
            value,
            now,
        ) {
            Err(error) => Err(error),
            Ok(record) => Ok(service::put_of(record, swap_record, existing)),
        },
        WriteOpView::Delete { collection, rkey, swap_record } => service::delete_of(
            native_sync::record_address(space, did, collection, rkey),
            did,
            collection,
            rkey,
            swap_record,
            existing,
        ),
    }
}

/// The address that a local write looks up, if it does: without a condition, an
/// update and a delete do.
pub open spec fn looks_up(space: Space, did: Seq<char>, op: WriteOpView) -> Option<Seq<char>> {
    match op {
        WriteOpView::Create { .. } => None,
        WriteOpView::Update { collection, rkey, swap_record, .. } => if swap_record is None {
            Some(native_sync::record_address(space, did, collection, rkey))
        } else {
            None
        },
        WriteOpView::Delete { collection, rkey, swap_record } => if swap_record is None {
            Some(native_sync::record_address(space, did, collection, rkey))
        } else {
            None
        },
    }
}

enum Prepared {
    Create(SpaceRecord),
    Put(SpaceRecord, Option<String>),
    Delete { uri: String, did: String, collection: String, rkey: String, swap: Option<String> },
}

/// A local write, up to what must be looked up for it.
pub struct PreparedWrite {
    prepared: Prepared,
}

impl PreparedWrite {
    /// What the write does, given what is stored under the record's address.
    pub closed spec fn given(self, existing: Option<ExistingView>) -> Result<WriteView, ErrorView> {
        match self.prepared {
            Prepared::Create(record) => Ok(service::create_of(record@)),
            Prepared::Put(record, swap) => Ok(
                service::put_of(record@, text::opt_text(swap), existing),
            ),
            Prepared::Delete { uri, did, collection, rkey, swap } => service::delete_of(
                uri@,
                did@,
                collection@,
                rkey@,
                text::opt_text(swap),
                existing,
            ),
        }
    }

    /// The address to look up, if any.
    pub closed spec fn wants(self) -> Option<Seq<char>> {
        match self.prepared {
            Prepared::Create(_) => None,
            Prepared::Put(record, swap) => if swap is None {
                Some(record@.uri)
            } else {
                None
            },
            Prepared::Delete { uri, swap, .. } => if swap is None {
                Some(uri@)
            } else {
                None
            },
        }
    }

    /// The address to look up, if any.
    pub fn lookup(&self) -> (uri: Option<String>)
        ensures
            text::opt_text(uri) == self.wants(),
    {
        match &self.prepared {
            Prepared::Create(_) => None,
            Prepared::Put(record, swap) => match swap {
                Some(_) => None,
                None => Some(record.uri.clone()),
            },
            Prepared::Delete { uri, swap, .. } => match swap {
                Some(_) => None,
                None => Some(uri.clone()),
            },
        }
    }

    /// Plans the write, given what the lookup found.
    pub fn finish(self, existing: Option<ExistingRecord>) -> (write: Result<PlannedWrite, AppError>)
        ensures
            crate::error::outcome(write) == self.given(service::existing_view(existing)),
    {
        match self.prepared {
            Prepared::Create(record) => Ok(service::plan_create(record)),
            Prepared::Put(record, swap) => Ok(service::plan_put(record, swap, existing)),
            Prepared::Delete { uri, did, collection, rkey, swap } => service::plan_delete(
                uri,
                did.as_str(),
                collection.as_str(),
                rkey.as_str(),
                swap,
                existing,
            ),
        }
    }
}

/// Whether a prepared write, or the failure to prepare it, is that of an op.
pub open spec fn prepares(
    result: Result<PreparedWrite, AppError>,
    space: Space,
    did: Seq<char>,
    op: WriteOpView,
    fresh: Seq<char>,
    now: Seq<char>,
) -> bool {
    match result {
        Ok(write) => write.wants() == looks_up(space, did, op) && forall|existing: Option<ExistingView>| #[trigger]
            write.given(existing) == local_write_of(space, did, op, fresh, now, existing),
        Err(error) => forall|existing: Option<ExistingView>| #[trigger]
            local_write_of(space, did, op, fresh, now, existing) == Err::<WriteView, ErrorView>(error@),
    }
}

fn prepare_op(space: &Space, did: &str, op: WriteOp, fresh: String, now: &str) -> (result: Result<
    PreparedWrite,
    AppError,
>)
    ensures
        prepares(result, *space, did@, op@, fresh@, now@),
{
    match op {
        WriteOp::Create { collection, rkey, value } => {
            let key = match rkey {
                Some(key) => key,
                None => fresh,
            };
            match service::new_record(space, did, collection.as_str(), key.as_str(), value, now) {
                Err(error) => Err(error),
                Ok(record) => Ok(PreparedWrite { prepared: Prepared::Create(record) }),
            }
        },
        WriteOp::Update { collection, rkey, value, swap_record } => {
            match service::new_record(space, did, collection.as_str(), rkey.as_str(), value, now) {
                Err(error) => Err(error),
                Ok(record) => Ok(PreparedWrite { prepared: Prepared::Put(record, swap_record) }),
            }
        },
        WriteOp::Delete { collection, rkey, swap_record } => {
            let uri = native_sync::record_uri(space, did, collection.as_str(), rkey.as_str());
            Ok(
                PreparedWrite {
                    prepared: Prepared::Delete {
                        uri,
                        did: did.to_owned(),
                        collection,
                        rkey,
                        swap: swap_record,
                    },
                },
            )
        },
    }
}

impl AdmittedWrite {
    /// Prepares a write that stays here. `fresh` is the key for a create that
    /// names none.
    pub fn prepare(self, fresh: String, now: &str) -> (result: Result<PreparedWrite, AppError>)
        ensures
            prepares(result, self.space(), self.did(), self.op(), fresh@, now@),
    {
        prepare_op(&self.space, self.did.as_str(), self.op, fresh, now)
    }
}

/// The URI and CID of what a write leaves stored: none for a delete.
pub open spec fn written_of(write: WriteView) -> Option<WrittenView> {
    match write.change {
        RecordChangeView::Insert(r) | RecordChangeView::Upsert(r) | RecordChangeView::UpsertIf(r, _) => Some(
            WrittenView { uri: r.uri, cid: r.cid },
        ),
        RecordChangeView::Delete(_) | RecordChangeView::DeleteIf(_, _) => None,
    }
}

/// The URI and CID of what a planned write leaves stored.
pub fn written(write: &PlannedWrite) -> (result: Option<Written>)
    ensures
        written_view(result) == written_of(write@),
{
    match &write.change {
        service::RecordChange::Insert(r) => Some(Written { uri: r.uri.clone(), cid: r.cid.clone() }),
        service::RecordChange::Upsert(r) => Some(Written { uri: r.uri.clone(), cid: r.cid.clone() }),
        service::RecordChange::UpsertIf(r, _) => Some(
            Written { uri: r.uri.clone(), cid: r.cid.clone() },
        ),
        service::RecordChange::Delete(_) => None,
        service::RecordChange::DeleteIf(_, _) => None,
    }
}

/// What a write is answered with.
pub open spec fn written_json(written: Option<WrittenView>) -> JsonView {
    match written {
        Some(w) => JsonView::Object(
            seq![("uri"@, JsonView::Text(w.uri)), ("cid"@, JsonView::Text(w.cid))],
        ),
        None => JsonView::Object(Seq::empty()),
    }
}

/// Writes what a write in a batch is answered with.
pub fn make_written_json(written: Option<Written>) -> (json: Json)
    ensures
        json@ == written_json(written_view(written)),
{
    let members: Vec<(String, Json)> = match written {
        Some(w) => vec![
            ("uri".to_owned(), Json::Text(w.uri)),
            ("cid".to_owned(), Json::Text(w.cid)),
        ],
        None => Vec::new(),
    };
    let json = Json::Object(members);
    proof {
        crate::json::lemma_json_views(json);
        assert(json@->Object_0 =~= written_json(written_view(written))->Object_0);
    }
    json
}

/// Whether a batch's condition on the space's revision fails: the space has
/// another revision, or has none where one is expected.
pub open spec fn swap_commit_verdict(revision: Option<Seq<char>>, expected: Option<Seq<char>>) -> Result<
    (),
    ErrorView,
> {
    let mismatch = match expected {
        None => false,
        Some(rev) => match revision {
            Some(current) => current != rev,
            None => rev.len() != 0,
        },
    };
    if mismatch {
        Err(ErrorView::Conflict("swapCommit mismatch"@))
    } else {
        Ok(())
    }
}

/// Checks a batch's condition on the space's revision.
pub fn check_swap_commit(space: &Space, expected: Option<&str>) -> (result: Result<(), AppError>)
    ensures
        crate::error::unit_outcome(result) == swap_commit_verdict(
            text::opt_text(space.revision),
            text::opt_str(expected),
        ),
{
    let mismatch = match expected {
        None => false,
        Some(rev) => match &space.revision {
            Some(current) => !text::same_text(current.as_str(), rev),
            None => {
                proof {
                    reveal_strlit("");
                    assert(""@ =~= Seq::empty());
                    assert(rev@.len() == 0 ==> rev@ =~= Seq::empty());
                }
                !text::same_text(rev, "")
            },
        },
    };
    if mismatch {
        Err(AppError::Conflict("swapCommit mismatch".to_owned()))
    } else {
        Ok(())
    }
}

/// What one op of a batch does: as a single local write, but the collection is
/// checked when the op's turn comes.
pub open spec fn batched_write_of(
    space: Space,
    did: Seq<char>,
    op: WriteOpView,
    fresh: Seq<char>,
    now: Seq<char>,
    existing: Option<ExistingView>,
) -> Result<WriteView, ErrorView> {
    match admission_of(space, Ok(MemberAccess::writer()), op) {
        Err(error) => Err(error),
        Ok(_) => local_write_of(space, did, op, fresh, now, existing),
    }
}

/// Whether a batch may begin: its caller may write to the space, the session's
/// scope covers each op, and the condition on the revision holds. For a caller
/// without a session no scope is asked for, and `covered` is empty.
pub open spec fn batch_verdict(
    space: Space,
    access: Result<MemberAccess, ErrorView>,
    covered: Seq<Option<bool>>,
    swap_commit: Option<Seq<char>>,
) -> Result<(), ErrorView> {
    match access {
        Err(error) => Err(error),
        Ok(_) => match scopes_verdict(space, covered) {
            Err(error) => Err(error),
            Ok(_) => swap_commit_verdict(text::opt_text(space.revision), swap_commit),
        },
    }
}

/// Whether a session's scope covers all that it must.
pub open spec fn scopes_verdict(space: Space, covered: Seq<Option<bool>>) -> Result<(), ErrorView>
    decreases covered.len(),
{
    if covered.len() == 0 {
        Ok(())
    } else {
        match scopes_verdict(space, covered.drop_last()) {
            Err(error) => Err(error),
            Ok(_) => crate::spaces::scope::scope_verdict(space, covered.last()),
        }
    }
}

/// Refuses a write unless the session's scope covers all that it must.
pub fn require_space_scopes(space: &Space, covered: &Vec<Option<bool>>) -> (result: Result<
    (),
    AppError,
>)
    ensures
        crate::error::unit_outcome(result) == scopes_verdict(*space, covered@),
{
    for i in 0..covered.len()
        invariant
            scopes_verdict(*space, covered@.take(i as int)) is Ok,
    {
        assert(covered@.take(i + 1).drop_last() =~= covered@.take(i as int));
        match crate::spaces::scope::require_space_scope(space, covered[i]) {
            Err(error) => {
                proof {
                    lemma_scopes_prefix(*space, covered@, i + 1);
                }
                return Err(error);
            },
            Ok(_) => {},
        }
    }
    assert(covered@.take(covered@.len() as int) =~= covered@);
    Ok(())
}

proof fn lemma_scopes_prefix(space: Space, covered: Seq<Option<bool>>, n: int)
    requires
        0 <= n <= covered.len(),
        scopes_verdict(space, covered.take(n)) is Err,
    ensures
        scopes_verdict(space, covered) == scopes_verdict(space, covered.take(n)),
    decreases covered.len() - n,
{
    if n < covered.len() {
        assert(covered.take(n + 1).drop_last() =~= covered.take(n));
        lemma_scopes_prefix(space, covered, n + 1);
    } else {
        assert(covered.take(n) =~= covered);
    }
}

/// An op of a batch is written only if each of them is covered by the session's
/// scope.
pub proof fn law_every_op_needs_a_grant(space: Space, covered: Seq<Option<bool>>, i: int)
    requires
        0 <= i < covered.len(),
        scopes_verdict(space, covered) is Ok,
    ensures
        covered[i] != Some(false),
    decreases covered.len(),
{
    if i < covered.len() - 1 {
        assert(covered.drop_last()[i] == covered[i]);
        law_every_op_needs_a_grant(space, covered.drop_last(), i);
    }
}

/// Prepares an op of a batch: its collection is checked first.
pub(crate) fn prepare_batched(space: &Space, did: &str, op: WriteOp, fresh: String, now: &str) -> (result:
    Result<PreparedWrite, AppError>)
    ensures
        match result {
            Ok(write) => write.wants() == looks_up(*space, did@, op@) && forall|
                existing: Option<ExistingView>,
            | #[trigger]
                write.given(existing) == batched_write_of(*space, did@, op@, fresh@, now@, existing),
            Err(error) => forall|existing: Option<ExistingView>| #[trigger]
                batched_write_of(*space, did@, op@, fresh@, now@, existing) == Err::<
                    WriteView,
                    ErrorView,
                >(error@),
        },
{
    let is_delete = match &op {
        WriteOp::Delete { .. } => true,
        _ => false,
    };
    if !is_delete {
        match service::check_collection_allowed(space, op.collection()) {
            Err(error) => {
                return Err(error);
            },
            Ok(_) => {},
        }
    }
    let result = prepare_op(space, did, op, fresh, now);
    proof {
        if let Err(error) = &result {
            assert forall|existing: Option<ExistingView>| #[trigger]
                batched_write_of(*space, did@, op@, fresh@, now@, existing) == Err::<
                    WriteView,
                    ErrorView,
                >(error@) by {
                assert(local_write_of(*space, did@, op@, fresh@, now@, existing) == Err::<
                    WriteView,
                    ErrorView,
                >(error@));
            }
        }
    }
    result
}

proof fn lemma_first_segment(a: Seq<char>, b: Seq<char>, c: Seq<char>, d: Seq<char>)
    requires
        !a.contains('/'),
        !c.contains('/'),
        a + "/"@ + b == c + "/"@ + d,
    ensures
        a == c,
        b == d,
{
    reveal_strlit("/");
    let left = a + "/"@ + b;
    let right = c + "/"@ + d;
    assert(left[a.len() as int] == '/');
    assert(right[c.len() as int] == '/');
    if a.len() < c.len() {
        assert(right[a.len() as int] == c[a.len() as int]);
        assert(c.contains('/'));
    }
    if c.len() < a.len() {
        assert(left[c.len() as int] == a[c.len() as int]);
        assert(a.contains('/'));
    }
    assert(a =~= left.take(a.len() as int));
    assert(c =~= right.take(c.len() as int));
    assert(b =~= left.skip(a.len() as int + 1));
    assert(d =~= right.skip(c.len() as int + 1));
}

/// Two records of one author in one space have different addresses, if their
/// collections hold no slash.
pub proof fn law_record_addresses_are_distinct(
    space: Space,
    did: Seq<char>,
    collection: Seq<char>,
    rkey: Seq<char>,
    other_collection: Seq<char>,
    other_rkey: Seq<char>,
)
    requires
        !collection.contains('/'),
        !other_collection.contains('/'),
    ensures
        native_sync::record_address(space, did, collection, rkey) == native_sync::record_address(
            space,
            did,
            other_collection,
            other_rkey,
        ) ==> collection == other_collection && rkey == other_rkey,
{
    let head = native_sync::space_address(space) + "/"@ + did + "/"@;
    let n = head.len() as int;
    let one = native_sync::record_address(space, did, collection, rkey);
    let other = native_sync::record_address(space, did, other_collection, other_rkey);
    if one == other {
        assert(one.skip(n) =~= collection + "/"@ + rkey);
        assert(other.skip(n) =~= other_collection + "/"@ + other_rkey);
        lemma_first_segment(collection, rkey, other_collection, other_rkey);
    }
}

/// The records of one author in a space: what is stored under the addresses of
/// collections without a slash, by collection and key.
pub open spec fn repo_of(
    store: Map<Seq<char>, ExistingView>,
    space: Space,
    did: Seq<char>,
) -> Map<(Seq<char>, Seq<char>), Seq<char>> {
    Map::new(
        |key: (Seq<char>, Seq<char>)|
            !key.0.contains('/') && store.contains_key(
                native_sync::record_address(space, did, key.0, key.1),
            ),
        |key: (Seq<char>, Seq<char>)| store[native_sync::record_address(space, did, key.0, key.1)].cid,
    )
}

/// Whether a write is what an author's op makes of a store: it was planned from
/// what is stored, in a collection without a slash, and the store takes it.
pub open spec fn write_fits(
    store: Map<Seq<char>, ExistingView>,
    space: Space,
    did: Seq<char>,
    write: WriteView,
) -> bool {
    &&& !write.op.collection.contains('/')
    &&& service::change_uri(write.change) == native_sync::record_address(
        space,
        did,
        write.op.collection,
        write.op.rkey,
    )
    &&& service::logged_faithfully(store, write)
}

/// What an author's op plans from what is stored fits the store, if the store
/// takes it.
pub proof fn law_planned_writes_fit_the_store(
    store: Map<Seq<char>, ExistingView>,
    space: Space,
    did: Seq<char>,
    op: WriteOpView,
    fresh: Seq<char>,
    now: Seq<char>,
    existing: Option<ExistingView>,
)
    requires
        !op.collection().contains('/'),
        looks_up(space, did, op) matches Some(uri) ==> existing == service::stored_at(store, uri),
    ensures
        local_write_of(space, did, op, fresh, now, existing) matches Ok(write) ==> (
        service::change_admitted(store, write.change) ==> write_fits(store, space, did, write)),
{
}

/// What is stored after writes, in order.
pub open spec fn store_after(store: Map<Seq<char>, ExistingView>, writes: Seq<WriteView>) -> Map<
    Seq<char>,
    ExistingView,
>
    decreases writes.len(),
{
    if writes.len() == 0 {
        store
    } else {
        service::stored_after(store_after(store, writes.drop_last()), writes.last().change)
    }
}

/// Whether each of some writes, in order, fits what is stored when its turn
/// comes.
pub open spec fn writes_fit(
    store: Map<Seq<char>, ExistingView>,
    space: Space,
    did: Seq<char>,
    writes: Seq<WriteView>,
) -> bool
    decreases writes.len(),
{
    if writes.len() == 0 {
        true
    } else {
        writes_fit(store, space, did, writes.drop_last()) && write_fits(
            store_after(store, writes.drop_last()),
            space,
            did,
            writes.last(),
        )
    }
}

/// The ops that writes log.
pub open spec fn ops_of(writes: Seq<WriteView>) -> Seq<AppliedView> {
    writes.map_values(|w: WriteView| w.op)
}

proof fn lemma_write_moves_repo(
    store: Map<Seq<char>, ExistingView>,
    space: Space,
    did: Seq<char>,
    write: WriteView,
)
    requires
        write_fits(store, space, did, write),
    ensures
        write.op.old_cid == service::cid_at(
            repo_of(store, space, did),
            write.op.collection,
            write.op.rkey,
        ),
        repo_of(service::stored_after(store, write.change), space, did) == service::records_after(
            repo_of(store, space, did),
            write.op,
        ),
{
    let before = repo_of(store, space, did);
    let after = repo_of(service::stored_after(store, write.change), space, did);
    let op = write.op;
    let uri = service::change_uri(write.change);
    assert forall|key: (Seq<char>, Seq<char>)|
        !key.0.contains('/') && key != (op.collection, op.rkey) implies #[trigger] native_sync::record_address(
        space,
        did,
        key.0,
        key.1,
    ) != uri by {
        law_record_addresses_are_distinct(space, did, key.0, key.1, op.collection, op.rkey);
    }
    let expected = service::records_after(before, op);
    assert forall|key: (Seq<char>, Seq<char>)| #[trigger]
        after.contains_key(key) == expected.contains_key(key) by {
        if !key.0.contains('/') && key != (op.collection, op.rkey) {
            assert(native_sync::record_address(space, did, key.0, key.1) != uri);
        }
    }
    assert forall|key: (Seq<char>, Seq<char>)| #[trigger] after.contains_key(key) implies after[key]
        == expected[key] by {
        if !key.0.contains('/') && key != (op.collection, op.rkey) {
            assert(native_sync::record_address(space, did, key.0, key.1) != uri);
        }
    }
    assert(after =~= expected);
}

proof fn lemma_writes_are_faithful(
    store: Map<Seq<char>, ExistingView>,
    space: Space,
    did: Seq<char>,
    writes: Seq<WriteView>,
)
    requires
        writes_fit(store, space, did, writes),
    ensures
        service::ops_are_faithful(repo_of(store, space, did), ops_of(writes)),
        repo_of(store_after(store, writes), space, did) == service::records_after_all(
            repo_of(store, space, did),
            ops_of(writes),
        ),
    decreases writes.len(),
{
    if writes.len() > 0 {
        let head = writes.drop_last();
        lemma_writes_are_faithful(store, space, did, head);
        lemma_write_moves_repo(store_after(store, head), space, did, writes.last());
        assert(ops_of(writes).drop_last() =~= ops_of(head));
        assert(ops_of(writes).last() == writes.last().op);
    } else {
        assert(ops_of(writes) =~= Seq::empty());
    }
}

/// A batch keeps the set hash in step with the store: if it stood for an
/// author's records before the batch, the edits for the ops that the batch logs
/// make it stand for the records after it, and none of them removes what is not
/// there or adds what is.
pub proof fn law_batch_keeps_the_set_hash_in_step(
    store: Map<Seq<char>, ExistingView>,
    space: Space,
    did: Seq<char>,
    writes: Seq<WriteView>,
)
    requires
        writes_fit(store, space, did, writes),
    ensures
        service::all_edited(
            service::elements_of(repo_of(store, space, did)),
            service::edits_of(ops_of(writes)),
        ) == service::elements_of(repo_of(store_after(store, writes), space, did)),
        service::all_fit(
            service::elements_of(repo_of(store, space, did)),
            service::edits_of(ops_of(writes)),
        ),
{
    lemma_writes_are_faithful(store, space, did, writes);
    service::law_set_hash_stays_in_step(repo_of(store, space, did), ops_of(writes));
}

/// A write is admitted only for a listed member with write access, and only to a
/// collection that the space takes, unless it is a delete.
pub proof fn law_writes_are_admitted_to_writers(
    space: Space,
    credential: Option<Seq<char>>,
    revoked: bool,
    listed: Option<MemberAccess>,
    op: WriteOpView,
)
    ensures
        admission_of(space, service::membership_of(space, credential, revoked, listed, true), op) is Ok
            ==> (listed matches Some(access) && access.write) && (op is Delete
            || service::collection_allowed(space, op.collection())),
{
}

/// A record is deleted without a condition only by its own author.
pub proof fn law_only_the_author_deletes(
    space: Space,
    did: Seq<char>,
    op: WriteOpView,
    fresh: Seq<char>,
    now: Seq<char>,
    existing: Option<ExistingView>,
)
    ensures
        local_write_of(space, did, op, fresh, now, existing) matches Ok(write)
            ==> (write.change is Delete ==> (existing matches Some(e) && e.author_did == did)),
{
}

proof fn lemma_forward_keys()
    ensures
        "space"@ != "repo"@,
        "space"@ != "collection"@,
        "space"@ != "rkey"@,
        "space"@ != "record"@,
        "space"@ != "swapRecord"@,
        "repo"@ != "collection"@,
        "repo"@ != "rkey"@,
        "repo"@ != "record"@,
        "repo"@ != "swapRecord"@,
        "collection"@ != "rkey"@,
        "collection"@ != "record"@,
        "collection"@ != "swapRecord"@,
        "rkey"@ != "record"@,
        "rkey"@ != "swapRecord"@,
        "record"@ != "swapRecord"@,
{
    reveal_strlit("space");
    reveal_strlit("repo");
    reveal_strlit("collection");
    reveal_strlit("rkey");
    reveal_strlit("record");
    reveal_strlit("swapRecord");
    assert("space"@.len() == 5 && "repo"@.len() == 4 && "rkey"@.len() == 4);
    assert("record"@.len() == 6 && "collection"@.len() == 10 && "swapRecord"@.len() == 10);
    assert("repo"@[1] == 'e' && "rkey"@[1] == 'k');
    assert("collection"@[0] == 'c' && "swapRecord"@[0] == 's');
}

proof fn lemma_forwarded_body(
    space_uri: Seq<char>,
    did: Seq<char>,
    collection: Seq<char>,
    rkey: Option<Seq<char>>,
    record: Option<JsonView>,
    swap: Option<Seq<char>>,
)
    ensures
        ({
            let body = swapped(
                JsonView::Object(service::forward_members(space_uri, did, collection, rkey, record)),
                swap,
            );
            &&& body.get_str("space"@) == Some(space_uri)
            &&& body.get_str("repo"@) == Some(did)
            &&& body.get_str("collection"@) == Some(collection)
            &&& body.get_str("rkey"@) == rkey
            &&& body.get("record"@) == record
            &&& body.get_str("swapRecord"@) == swap
            &&& (rkey is None ==> body.get("rkey"@) is None)
            &&& (swap is None ==> body.get("swapRecord"@) is None)
        }),
{
    lemma_forward_keys();
    let members = service::forward_members(space_uri, did, collection, rkey, record);
    crate::json::lemma_lookup_at(members, 0);
    crate::json::lemma_lookup_at(members, 1);
    crate::json::lemma_lookup_at(members, 2);
    if rkey is Some {
        crate::json::lemma_lookup_at(members, 3);
        if record is Some {
            crate::json::lemma_lookup_at(members, 4);
        }
    } else {
        crate::json::lemma_lookup_absent(members, "rkey"@);
        if record is Some {
            crate::json::lemma_lookup_at(members, 3);
        }
    }
    if record is None {
        crate::json::lemma_lookup_absent(members, "record"@);
    }
    crate::json::lemma_lookup_absent(members, "swapRecord"@);
    if let Some(cid) = swap {
        let value = JsonView::Text(cid);
        crate::json::law_set_member_sets_just_it(members, "swapRecord"@, value, "space"@);
        crate::json::law_set_member_sets_just_it(members, "swapRecord"@, value, "repo"@);
        crate::json::law_set_member_sets_just_it(members, "swapRecord"@, value, "collection"@);
        crate::json::law_set_member_sets_just_it(members, "swapRecord"@, value, "rkey"@);
        crate::json::law_set_member_sets_just_it(members, "swapRecord"@, value, "record"@);
    }
}

/// Whoever reads a forwarded write finds the write in it: which space and repo it
/// is for, under which collection and key, with which value, and on what
/// condition. A create names no key, a delete no record, and a write without a
/// condition has none.
pub proof fn law_forwarded_writes_say_what_was_asked(
    op: WriteOpView,
    space_uri: Seq<char>,
    did: Seq<char>,
)
    ensures
        ({
            let body = op.forwarded_body(space_uri, did);
            &&& body.get_str("space"@) == Some(space_uri)
            &&& body.get_str("repo"@) == Some(did)
            &&& body.get_str("collection"@) == Some(op.collection())
            &&& match op {
                WriteOpView::Create { value, .. } => body.get("record"@) == Some(value) && body.get(
                    "rkey"@,
                ) is None && body.get("swapRecord"@) is None,
                WriteOpView::Update { rkey, value, swap_record, .. } => body.get("record"@) == Some(value)
                    && body.get_str("rkey"@) == Some(rkey) && body.get_str("swapRecord"@)
                    == swap_record && (swap_record is None ==> body.get("swapRecord"@) is None),
                WriteOpView::Delete { rkey, swap_record, .. } => body.get("record"@) is None
                    && body.get_str("rkey"@) == Some(rkey) && body.get_str("swapRecord"@)
                    == swap_record && (swap_record is None ==> body.get("swapRecord"@) is None),
            }
        }),
{
    match op {
        WriteOpView::Create { collection, rkey, value } => {
            lemma_forwarded_body(space_uri, did, collection, None, Some(value), None);
        },
        WriteOpView::Update { collection, rkey, value, swap_record } => {
            lemma_forwarded_body(space_uri, did, collection, Some(rkey), Some(value), swap_record);
        },
        WriteOpView::Delete { collection, rkey, swap_record } => {
            lemma_forwarded_body(space_uri, did, collection, Some(rkey), None, swap_record);
        },
    }
}

/// The parts of an op are those it was made of, a create without a key takes the
/// fresh one, and each kind of op goes to the method of its kind.
pub proof fn law_ops_are_what_they_were_made_of(
    collection: Seq<char>,
    key: Option<Seq<char>>,
    rkey: Seq<char>,
    value: JsonView,
    swap: Option<Seq<char>>,
    fresh: Seq<char>,
)
    ensures
        ({
            let create = WriteOpView::Create { collection, rkey: key, value };
            let update = WriteOpView::Update { collection, rkey, value, swap_record: swap };
            let delete = WriteOpView::Delete { collection, rkey, swap_record: swap };
            &&& create.collection() == collection && update.collection() == collection
                && delete.collection() == collection
            &&& (key is Some ==> Some(create.rkey(fresh)) == key) && (key is None ==> create.rkey(fresh)
                == fresh) && update.rkey(fresh) == rkey && delete.rkey(fresh) == rkey
            &&& create.action() == SpaceAction::Create && update.action() == SpaceAction::Update
                && delete.action() == SpaceAction::Delete
            &&& create.method() == "com.atproto.space.createRecord"@ && update.method()
                == "com.atproto.space.putRecord"@ && delete.method() == "com.atproto.space.deleteRecord"@
        }),
{
}

/// A write on its own needs every grant that what it may turn out to be needs: a
/// put, which creates or updates, needs both, and no other write needs more than
/// its own.
pub proof fn law_a_put_needs_both_grants(op: WriteOpView)
    ensures
        op.actions().contains(op.action()),
        op.actions().contains(SpaceAction::Create) <==> !(op is Delete),
        op.actions().contains(SpaceAction::Update) <==> op is Update,
        op.actions().contains(SpaceAction::Delete) <==> op is Delete,
{
    let actions = op.actions();
    match op {
        WriteOpView::Create { .. } => {
            assert(actions[0] == SpaceAction::Create);
        },
        WriteOpView::Update { .. } => {
            assert(actions[0] == SpaceAction::Create && actions[1] == SpaceAction::Update);
        },
        WriteOpView::Delete { .. } => {
            assert(actions[0] == SpaceAction::Delete);
        },
    }
}

/// A write is admitted whenever a listed member with write access makes it in a
/// collection that the space takes, without a credential that decides; a delete in
/// any collection.
pub proof fn law_writers_are_admitted(
    space: Space,
    verified_sub: Option<Seq<char>>,
    revoked: bool,
    listed: Option<MemberAccess>,
    op: WriteOpView,
)
    requires
        listed matches Some(access) && access.write,
        revoked || verified_sub != Some(native_sync::space_address(space)),
        op is Delete || service::collection_allowed(space, op.collection()),
    ensures
        admission_of(
            space,
            service::membership_of(space, verified_sub, revoked, listed, true),
            op,
        ) is Ok,
{
}

/// The answer to a write that was made gives its address and CID to whoever reads
/// it, as a host's answer to a forwarded write is read. A delete is answered with
/// an empty object.
pub proof fn law_written_answers_read_back(uri: Seq<char>, cid: Seq<char>)
    ensures
        service::forwarded_ids_of(written_json(Some(WrittenView { uri, cid }))) == (uri, cid),
        written_json(None) == JsonView::Object(Seq::empty()),
{
    reveal_strlit("uri");
    reveal_strlit("cid");
    assert("uri"@[0] == 'u' && "cid"@[0] == 'c');
    let members = written_json(Some(WrittenView { uri, cid }))->Object_0;
    crate::json::lemma_lookup_at(members, 0);
    crate::json::lemma_lookup_at(members, 1);
    assert(members[0].0 == "uri"@ && members[1].0 == "cid"@);
}

/// What a host's answer to a forwarded write comes to: a refusal is passed on as
/// one of a service behind this one; an answer with an address and a CID gives
/// just those; and what a delete is answered with makes no difference.
pub proof fn law_forwarded_answers_are_passed_on(
    method: Seq<char>,
    body: Seq<u8>,
    detail: Seq<char>,
    value: JsonView,
    uri: Seq<char>,
    cid: Seq<char>,
)
    ensures
        forall|deletes: bool| #[trigger]
            forward_result(method, deletes, false, body, detail) matches Err(ErrorView::BadGateway(_)),
        crate::json::json_parsed(body) is Err ==> forall|deletes: bool| #[trigger]
            forward_result(method, deletes, true, body, detail) matches Err(ErrorView::Internal(_)),
        crate::json::json_parsed(body) == crate::json::json_ok(value) ==> forward_result(
            method,
            true,
            true,
            body,
            detail,
        ) == Ok::<Option<WrittenView>, ErrorView>(None),
        crate::json::json_parsed(body) == crate::json::json_ok(value) && value.get_str("uri"@) == Some(uri)
            && value.get_str("cid"@) == Some(cid) ==> forward_result(method, false, true, body, detail)
            == Ok::<Option<WrittenView>, ErrorView>(Some(WrittenView { uri, cid })),
{
}

/// What a write that stays here leaves stored: a create and a put leave a record
/// of their author, collection and key, with the value that was given and the CID
/// of its content, under the record's address; a delete leaves none there. The
/// answer names what was left.
pub proof fn law_local_writes_do_what_was_asked(
    space: Space,
    did: Seq<char>,
    op: WriteOpView,
    fresh: Seq<char>,
    now: Seq<char>,
    existing: Option<ExistingView>,
)
    ensures
        local_write_of(space, did, op, fresh, now, existing) matches Ok(write) ==> {
            let uri = native_sync::record_address(space, did, op.collection(), op.rkey(fresh));
            &&& service::change_uri(write.change) == uri
            &&& write.op.collection == op.collection()
            &&& write.op.rkey == op.rkey(fresh)
            &&& match op {
                WriteOpView::Create { value, .. } | WriteOpView::Update { value, .. } => {
                    &&& service::coming(write.change) matches Some(r)
                    &&& r.uri == uri
                    &&& r.space_id == space.id@
                    &&& r.author_did == did
                    &&& r.collection == op.collection()
                    &&& r.rkey == op.rkey(fresh)
                    &&& r.record == value
                    &&& crate::ipld::record_cid(value) == Some(r.cid)
                    &&& r.indexed_at == now
                    &&& write.op.new_cid == Some(r.cid)
                    &&& written_of(write) == Some(WrittenView { uri, cid: r.cid })
                },
                WriteOpView::Delete { .. } => {
                    &&& service::coming(write.change) is None
                    &&& write.op.new_cid is None
                    &&& written_of(write) is None
                },
            }
        },
{
}

/// When a write that stays here can be made: a create and a put just if the value
/// has a CID, a delete with a condition always, and one without just if the author
/// deletes a record of their own that is there.
pub proof fn law_when_local_writes_can_be_made(
    space: Space,
    did: Seq<char>,
    op: WriteOpView,
    fresh: Seq<char>,
    now: Seq<char>,
    existing: Option<ExistingView>,
)
    ensures
        local_write_of(space, did, op, fresh, now, existing) is Ok <==> match op {
            WriteOpView::Create { value, .. } | WriteOpView::Update { value, .. } => crate::ipld::record_cid(
                value,
            ) is Some,
            WriteOpView::Delete { swap_record, .. } => swap_record is Some || (existing matches Some(e)
                && e.author_did == did),
        },
        local_write_of(space, did, op, fresh, now, existing) matches Err(error) ==> match op {
            WriteOpView::Delete { .. } => if existing is None {
                error is NotFound
            } else {
                error is Forbidden
            },
            _ => error is BadRequest,
        },
{
}

/// What is looked up for a write is the record that it is about, and it is looked
/// up just where the write replaces or deletes what is there without naming its
/// CID.
pub proof fn law_lookups_are_for_the_record(
    space: Space,
    did: Seq<char>,
    op: WriteOpView,
    fresh: Seq<char>,
)
    ensures
        looks_up(space, did, op) is Some <==> match op {
            WriteOpView::Create { .. } => false,
            WriteOpView::Update { swap_record, .. } => swap_record is None,
            WriteOpView::Delete { swap_record, .. } => swap_record is None,
        },
        looks_up(space, did, op) matches Some(uri) ==> uri == native_sync::record_address(
            space,
            did,
            op.collection(),
            op.rkey(fresh),
        ),
{
}

/// A batch on condition of a revision goes on just if the space has that revision;
/// the empty one stands for a space that has none. Without a condition it always
/// goes on.
pub proof fn law_swap_commit_guards_the_revision(revision: Option<Seq<char>>, expected: Option<Seq<char>>)
    ensures
        swap_commit_verdict(revision, expected) is Ok <==> (expected is None || expected == revision || (
        revision is None && expected == Some(Seq::<char>::empty()))),
        swap_commit_verdict(revision, expected) matches Err(error) ==> error is Conflict,
{
    if let Some(rev) = expected {
        if rev.len() == 0 {
            assert(rev =~= Seq::<char>::empty());
        }
    }
}

/// An op of a batch is made as the same write on its own would be, if the space
/// takes its collection, which a delete does not ask; and else not at all.
pub proof fn law_batched_ops_are_made_as_single_ones(
    space: Space,
    did: Seq<char>,
    op: WriteOpView,
    fresh: Seq<char>,
    now: Seq<char>,
    existing: Option<ExistingView>,
)
    ensures
        op is Delete || service::collection_allowed(space, op.collection()) ==> batched_write_of(
            space,
            did,
            op,
            fresh,
            now,
            existing,
        ) == local_write_of(space, did, op, fresh, now, existing),
        !(op is Delete) && !service::collection_allowed(space, op.collection()) ==> batched_write_of(
            space,
            did,
            op,
            fresh,
            now,
            existing,
        ) matches Err(ErrorView::BadRequest(_)),
{
}

proof fn lemma_all_covered(space: Space, covered: Seq<Option<bool>>)
    requires
        forall|i: int| 0 <= i < covered.len() ==> #[trigger] covered[i] != Some(false),
    ensures
        scopes_verdict(space, covered) is Ok,
    decreases covered.len(),
{
    if covered.len() > 0 {
        let head = covered.drop_last();
        assert forall|i: int| 0 <= i < head.len() implies #[trigger] head[i] != Some(false) by {
            assert(head[i] == covered[i]);
        }
        lemma_all_covered(space, head);
        assert(covered.last() == covered[covered.len() - 1]);
    }
}

/// A batch begins just if its caller may write, no op lies outside the session's
/// scope, and the condition on the revision holds.
pub proof fn law_when_batches_begin(
    space: Space,
    access: Result<MemberAccess, ErrorView>,
    covered: Seq<Option<bool>>,
    swap_commit: Option<Seq<char>>,
)
    ensures
        batch_verdict(space, access, covered, swap_commit) is Ok <==> access is Ok && !covered.contains(
            Some(false),
        ) && swap_commit_verdict(text::opt_text(space.revision), swap_commit) is Ok,
{
    if covered.contains(Some(false)) {
        let i = choose|i: int| 0 <= i < covered.len() && covered[i] == Some(false);
        if scopes_verdict(space, covered) is Ok {
            law_every_op_needs_a_grant(space, covered, i);
        }
    } else {
        assert forall|i: int| 0 <= i < covered.len() implies #[trigger] covered[i] != Some(false) by {}
        lemma_all_covered(space, covered);
    }
}

} // verus!
