//! What is done to spaces, their members and their records.
//!
//! Storage is elsewhere. Here is what each operation decides: what it refuses,
//! what it writes given what it found, and what it logs and signs.
use vstd::prelude::*;

use crate::crypto;
use crate::crypto::P256SigningKey;
use crate::error::{AppError, ErrorView};
use crate::ipld;
use crate::json::{Json, JsonView};
use crate::spaces::commit;
use crate::spaces::commit::SignedCommit;
use crate::spaces::credential::SpaceCredentialClaims;
use crate::spaces::host_mode::HostMode;
use crate::spaces::native_sync;
use crate::spaces::types::{
    AppAccess, MemberAccess, OplogAction, OplogEntry, Policy, RecordView, RepoState, Space, SpaceConfig,
    SpaceInvite, SpaceMember, SpaceRecord,
};
use crate::spaces::types;
use crate::text;

verus! {

/// The failure for a space that is not there.
pub open spec fn no_space() -> ErrorView {
    ErrorView::NotFound("Space not found"@)
}

/// The space that a lookup by address found, or the failure.
pub fn resolve_space(found: Option<Space>) -> (space: Result<Space, AppError>)
    ensures
        match space {
            Ok(s) => found == Some(s),
            Err(e) => found is None && e@ == no_space(),
        },
{
    match found {
        Some(space) => Ok(space),
        None => Err(AppError::NotFound("Space not found".to_owned())),
    }
}

/// The CID of a record's content.
pub open spec fn content_cid_of(record: JsonView) -> Result<Seq<char>, ErrorView> {
    match ipld::record_cid(record) {
        Some(cid) => Ok(cid),
        None => Err(
            ErrorView::BadRequest(
                "record cannot be encoded as DAG-CBOR (non-finite number, or malformed $link/$bytes)"@,
            ),
        ),
    }
}

/// The CID of a record's content.
pub fn content_cid(record: &Json) -> (cid: Result<String, AppError>)
    ensures
        crate::error::outcome(cid) == content_cid_of(record@),
{
    match ipld::compute_record_cid(record) {
        Some(cid) => Ok(cid),
        None => Err(
            AppError::BadRequest(
                "record cannot be encoded as DAG-CBOR (non-finite number, or malformed $link/$bytes)".to_owned(),
            ),
        ),
    }
}

/// Whether a user is the authority of a space. Only for one who is not does it
/// matter whether they are a super admin.
pub fn is_space_authority(space: &Space, did: &str) -> (yes: bool)
    ensures
        yes == (space.authority_did@ == did@),
{
    text::same_text(space.authority_did.as_str(), did)
}

/// Whether a user may administer a space: its authority may, and so may a super
/// admin, which a row in the users' table says with a number other than 0.
pub open spec fn admin_verdict(space: Space, did: Seq<char>, is_super: Option<i32>) -> Result<
    (),
    ErrorView,
> {
    if space.authority_did@ == did || (is_super matches Some(n) && n != 0) {
        Ok(())
    } else {
        Err(ErrorView::Forbidden("Only the space authority can perform this action"@))
    }
}

/// Refuses whoever may not administer a space.
pub fn require_space_admin(space: &Space, did: &str, is_super: Option<i32>) -> (result: Result<
    (),
    AppError,
>)
    ensures
        crate::error::unit_outcome(result) == admin_verdict(*space, did@, is_super),
{
    if is_space_authority(space, did) {
        return Ok(());
    }
    match is_super {
        Some(n) => if n != 0 {
            return Ok(());
        },
        None => {},
    }
    Err(AppError::Forbidden("Only the space authority can perform this action".to_owned()))
}

/// Whether a list of values holds a text.
pub open spec fn holds_text(items: Seq<JsonView>, value: Seq<char>) -> bool {
    exists|i: int| 0 <= i < items.len() && (#[trigger] items[i]) == JsonView::Text(value)
}

/// Whether a space takes records of a collection: all of them, unless its
/// configuration lists some.
pub open spec fn collection_allowed(space: Space, collection: Seq<char>) -> bool {
    match types::extra_value(space.config, "allowedCollections"@) {
        Some(JsonView::List(items)) => items.len() == 0 || holds_text(items, collection),
        _ => true,
    }
}

/// Whether a space takes records of a collection, or the failure.
pub open spec fn collection_verdict(space: Space, collection: Seq<char>) -> Result<(), ErrorView> {
    if collection_allowed(space, collection) {
        Ok(())
    } else {
        Err(
            ErrorView::BadRequest(
                "collection '"@ + collection + "' is not allowed in this space"@,
            ),
        )
    }
}

/// Refuses collections that a space does not take.
pub fn check_collection_allowed(space: &Space, collection: &str) -> (result: Result<(), AppError>)
    ensures
        crate::error::unit_outcome(result) == collection_verdict(*space, collection@),
{
    let items: &Vec<Json> = match space.config.get_extra("allowedCollections") {
        Some(value) => match value.as_list() {
            Some(items) => items,
            None => {
                return Ok(());
            },
        },
        None => {
            return Ok(());
        },
    };
    if items.len() == 0 {
        return Ok(());
    }
    let ghost views = crate::json::json_views(items@);
    for i in 0..items.len()
        invariant
            views == crate::json::json_views(items@),
            types::extra_value(space.config, "allowedCollections"@) == Some(JsonView::List(views)),
            forall|j: int| 0 <= j < i ==> (#[trigger] views[j]) != JsonView::Text(collection@),
    {
        if text::same_opt(items[i].as_str(), Some(collection)) {
            assert(views[i as int] == JsonView::Text(collection@));
            return Ok(());
        }
    }
    Err(
        AppError::BadRequest(
            text::cat3("collection '", collection, "' is not allowed in this space"),
        ),
    )
}

/// Whether a verified credential is for a space.
pub fn credential_is_for(space: &Space, claims: &SpaceCredentialClaims) -> (yes: bool)
    ensures
        yes == (claims.sub@ == native_sync::space_address(*space)),
{
    let uri = native_sync::space_uri(space);
    text::same_text(claims.sub.as_str(), uri.as_str())
}

/// What a caller is permitted in a space by a credential: `None` where the
/// credential decides nothing, because none was given, it does not verify, it is
/// for another space or it was revoked.
pub open spec fn credential_membership_of(
    space: Space,
    verified_sub: Option<Seq<char>>,
    revoked: bool,
    require_write: bool,
) -> Option<Result<MemberAccess, ErrorView>> {
    if verified_sub == Some(native_sync::space_address(space)) && !revoked {
        if require_write {
            Some(Err(ErrorView::Forbidden("Write access is required for this action"@)))
        } else {
            Some(Ok(MemberAccess::reader()))
        }
    } else {
        None
    }
}

/// What a caller is permitted in a space as a listed member.
pub open spec fn listed_membership_of(listed: Option<MemberAccess>, require_write: bool) -> Result<
    MemberAccess,
    ErrorView,
> {
    match listed {
        None => Err(ErrorView::Forbidden("You are not a member of this space"@)),
        Some(access) => if require_write && !access.write {
            Err(ErrorView::Forbidden("Write access is required for this action"@))
        } else {
            Ok(access)
        },
    }
}

/// What a caller is permitted in a space: what the credential decides, and else
/// what the member list does.
pub open spec fn membership_of(
    space: Space,
    verified_sub: Option<Seq<char>>,
    revoked: bool,
    listed: Option<MemberAccess>,
    require_write: bool,
) -> Result<MemberAccess, ErrorView> {
    match credential_membership_of(space, verified_sub, revoked, require_write) {
        Some(decided) => decided,
        None => listed_membership_of(listed, require_write),
    }
}

/// A fallible grant, by what its error says.
pub open spec fn access_outcome(result: Result<MemberAccess, AppError>) -> Result<
    MemberAccess,
    ErrorView,
> {
    match result {
        Ok(access) => Ok(access),
        Err(error) => Err(error@),
    }
}

/// What a caller is permitted in a space by a credential that verified, or
/// `None` where that decides nothing.
pub fn credential_membership(
    space: &Space,
    verified: Option<&SpaceCredentialClaims>,
    revoked: bool,
    require_write: bool,
) -> (decided: Option<Result<MemberAccess, AppError>>)
    ensures
        match decided {
            Some(result) => credential_membership_of(
                *space,
                match verified {
                    Some(claims) => Some(claims.sub@),
                    None => None,
                },
                revoked,
                require_write,
            ) == Some(access_outcome(result)),
            None => credential_membership_of(
                *space,
                match verified {
                    Some(claims) => Some(claims.sub@),
                    None => None,
                },
                revoked,
                require_write,
            ) is None,
        },
{
    match verified {
        Some(claims) => if credential_is_for(space, claims) && !revoked {
            if require_write {
                Some(
                    Err(AppError::Forbidden("Write access is required for this action".to_owned())),
                )
            } else {
                Some(Ok(MemberAccess::reader()))
            }
        } else {
            None
        },
        None => None,
    }
}

/// What a caller is permitted in a space as a listed member.
pub fn listed_membership(listed: Option<MemberAccess>, require_write: bool) -> (access: Result<
    MemberAccess,
    AppError,
>)
    ensures
        access_outcome(access) == listed_membership_of(listed, require_write),
{
    match listed {
        None => Err(AppError::Forbidden("You are not a member of this space".to_owned())),
        Some(access) => if require_write && !access.can_write() {
            Err(AppError::Forbidden("Write access is required for this action".to_owned()))
        } else {
            Ok(access)
        },
    }
}

/// What a caller is permitted in a space.
pub fn require_membership(
    space: &Space,
    verified: Option<&SpaceCredentialClaims>,
    revoked: bool,
    listed: Option<MemberAccess>,
    require_write: bool,
) -> (access: Result<MemberAccess, AppError>)
    ensures
        access_outcome(access) == membership_of(
            *space,
            match verified {
                Some(claims) => Some(claims.sub@),
                None => None,
            },
            revoked,
            listed,
            require_write,
        ),
{
    match credential_membership(space, verified, revoked, require_write) {
        Some(decided) => decided,
        None => listed_membership(listed, require_write),
    }
}

/// A credential never permits a write, and whoever is permitted one is a listed
/// member with write access.
pub proof fn law_writes_need_a_listed_writer(
    space: Space,
    verified_sub: Option<Seq<char>>,
    revoked: bool,
    listed: Option<MemberAccess>,
)
    ensures
        membership_of(space, verified_sub, revoked, listed, true) is Ok ==> (listed matches Some(access)
            && access.write),
{
}

/// A revoked credential, or one for another space, permits nothing that the
/// member list does not.
pub proof fn law_revoked_credential_decides_nothing(
    space: Space,
    verified_sub: Option<Seq<char>>,
    revoked: bool,
    listed: Option<MemberAccess>,
    require_write: bool,
)
    requires
        revoked || verified_sub != Some(native_sync::space_address(space)),
    ensures
        membership_of(space, verified_sub, revoked, listed, require_write) == listed_membership_of(
            listed,
            require_write,
        ),
{
}

/// What was done to a record, with the CIDs before and after.
#[derive(Debug)]
pub struct AppliedOp {
    pub action: OplogAction,
    pub collection: String,
    pub rkey: String,
    pub new_cid: Option<String>,
    pub old_cid: Option<String>,
}

/// What an [`AppliedOp`] says.
#[verifier::ext_equal]
pub struct AppliedView {
    pub action: OplogAction,
    pub collection: Seq<char>,
    pub rkey: Seq<char>,
    pub new_cid: Option<Seq<char>>,
    pub old_cid: Option<Seq<char>>,
}

impl View for AppliedOp {
    type V = AppliedView;

    open spec fn view(&self) -> AppliedView {
        AppliedView {
            action: self.action,
            collection: self.collection@,
            rkey: self.rkey@,
            new_cid: text::opt_text(self.new_cid),
            old_cid: text::opt_text(self.old_cid),
        }
    }
}

/// What a list of applied ops says.
pub open spec fn applied_views(ops: Seq<AppliedOp>) -> Seq<AppliedView> {
    ops.map_values(|op: AppliedOp| op@)
}

/// A change to the set hash over a repo's records: an element, made of a
/// collection, a key and a CID, that comes or goes.
#[derive(Debug)]
pub struct SetHashEdit {
    pub added: bool,
    pub collection: String,
    pub rkey: String,
    pub cid: String,
}

/// What a [`SetHashEdit`] changes.
#[verifier::ext_equal]
pub struct EditView {
    pub added: bool,
    pub collection: Seq<char>,
    pub rkey: Seq<char>,
    pub cid: Seq<char>,
}

impl View for SetHashEdit {
    type V = EditView;

    open spec fn view(&self) -> EditView {
        EditView {
            added: self.added,
            collection: self.collection@,
            rkey: self.rkey@,
            cid: self.cid@,
        }
    }
}

/// What a list of edits changes.
pub open spec fn edit_views(edits: Seq<SetHashEdit>) -> Seq<EditView> {
    edits.map_values(|e: SetHashEdit| e@)
}

/// The edits for an op: the element of the old CID goes, that of the new one
/// comes.
pub open spec fn edits_of_op(op: AppliedView) -> Seq<EditView> {
    let gone = match op.old_cid {
        Some(cid) => seq![
            EditView { added: false, collection: op.collection, rkey: op.rkey, cid },
        ],
        None => Seq::empty(),
    };
    match op.new_cid {
        Some(cid) => gone.push(
            EditView { added: true, collection: op.collection, rkey: op.rkey, cid },
        ),
        None => gone,
    }
}

/// The edits for ops, in order.
pub open spec fn edits_of(ops: Seq<AppliedView>) -> Seq<EditView>
    decreases ops.len(),
{
    if ops.len() == 0 {
        Seq::empty()
    } else {
        edits_of(ops.drop_last()) + edits_of_op(ops.last())
    }
}

/// The edits to the set hash for ops, in order.
pub fn set_hash_edits(ops: &Vec<AppliedOp>) -> (edits: Vec<SetHashEdit>)
    ensures
        edit_views(edits@) == edits_of(applied_views(ops@)),
{
    let ghost views = applied_views(ops@);
    let mut edits: Vec<SetHashEdit> = Vec::new();
    assert(edit_views(edits@) =~= edits_of(views.take(0)));
    for i in 0..ops.len()
        invariant
            views == applied_views(ops@),
            edit_views(edits@) == edits_of(views.take(i as int)),
    {
        let ghost before = edit_views(edits@);
        let op = &ops[i];
        assert(views.take(i + 1).drop_last() =~= views.take(i as int));
        assert(views.take(i + 1).last() == op@);
        if let Some(old) = &op.old_cid {
            edits.push(
                SetHashEdit {
                    added: false,
                    collection: op.collection.clone(),
                    rkey: op.rkey.clone(),
                    cid: old.clone(),
                },
            );
        }
        if let Some(new) = &op.new_cid {
            edits.push(
                SetHashEdit {
                    added: true,
                    collection: op.collection.clone(),
                    rkey: op.rkey.clone(),
                    cid: new.clone(),
                },
            );
        }
        assert(edit_views(edits@) =~= before + edits_of_op(op@));
    }
    assert(views.take(views.len() as int) =~= views);
    edits
}

/// The elements that the set hash stands for, after an edit.
pub open spec fn edited(
    elements: Set<(Seq<char>, Seq<char>, Seq<char>)>,
    edit: EditView,
) -> Set<(Seq<char>, Seq<char>, Seq<char>)> {
    if edit.added {
        elements.insert((edit.collection, edit.rkey, edit.cid))
    } else {
        elements.remove((edit.collection, edit.rkey, edit.cid))
    }
}

/// Whether an edit removes only what is there, and adds only what is not. A set
/// hash cannot tell otherwise.
pub open spec fn edit_fits(
    elements: Set<(Seq<char>, Seq<char>, Seq<char>)>,
    edit: EditView,
) -> bool {
    elements.contains((edit.collection, edit.rkey, edit.cid)) == !edit.added
}

/// The elements after edits, in order.
pub open spec fn all_edited(
    elements: Set<(Seq<char>, Seq<char>, Seq<char>)>,
    edits: Seq<EditView>,
) -> Set<(Seq<char>, Seq<char>, Seq<char>)>
    decreases edits.len(),
{
    if edits.len() == 0 {
        elements
    } else {
        edited(all_edited(elements, edits.drop_last()), edits.last())
    }
}

/// Whether each of some edits, in order, fits.
pub open spec fn all_fit(
    elements: Set<(Seq<char>, Seq<char>, Seq<char>)>,
    edits: Seq<EditView>,
) -> bool
    decreases edits.len(),
{
    if edits.len() == 0 {
        true
    } else {
        all_fit(elements, edits.drop_last()) && edit_fits(
            all_edited(elements, edits.drop_last()),
            edits.last(),
        )
    }
}

/// The elements of a repo: one for each record.
pub open spec fn elements_of(records: Map<(Seq<char>, Seq<char>), Seq<char>>) -> Set<
    (Seq<char>, Seq<char>, Seq<char>),
> {
    Set::new(
        |e: (Seq<char>, Seq<char>, Seq<char>)|
            records.contains_key((e.0, e.1)) && records[(e.0, e.1)] == e.2,
    )
}

/// The CID of a record, if the repo has it.
pub open spec fn cid_at(
    records: Map<(Seq<char>, Seq<char>), Seq<char>>,
    collection: Seq<char>,
    rkey: Seq<char>,
) -> Option<Seq<char>> {
    if records.contains_key((collection, rkey)) {
        Some(records[(collection, rkey)])
    } else {
        None
    }
}

/// The CIDs of a repo's records after an op.
pub open spec fn records_after(
    records: Map<(Seq<char>, Seq<char>), Seq<char>>,
    op: AppliedView,
) -> Map<(Seq<char>, Seq<char>), Seq<char>> {
    match op.new_cid {
        Some(cid) => records.insert((op.collection, op.rkey), cid),
        None => records.remove((op.collection, op.rkey)),
    }
}

/// The CIDs of a repo's records after ops.
pub open spec fn records_after_all(
    records: Map<(Seq<char>, Seq<char>), Seq<char>>,
    ops: Seq<AppliedView>,
) -> Map<(Seq<char>, Seq<char>), Seq<char>>
    decreases ops.len(),
{
    if ops.len() == 0 {
        records
    } else {
        records_after(records_after_all(records, ops.drop_last()), ops.last())
    }
}

/// Whether each op, in order, names the CID that its record has before it.
pub open spec fn ops_are_faithful(
    records: Map<(Seq<char>, Seq<char>), Seq<char>>,
    ops: Seq<AppliedView>,
) -> bool
    decreases ops.len(),
{
    if ops.len() == 0 {
        true
    } else {
        ops_are_faithful(records, ops.drop_last()) && ops.last().old_cid == cid_at(
            records_after_all(records, ops.drop_last()),
            ops.last().collection,
            ops.last().rkey,
        )
    }
}

proof fn lemma_edits_append(
    elements: Set<(Seq<char>, Seq<char>, Seq<char>)>,
    a: Seq<EditView>,
    b: Seq<EditView>,
)
    ensures
        all_edited(elements, a + b) == all_edited(all_edited(elements, a), b),
        all_fit(elements, a + b) == (all_fit(elements, a) && all_fit(all_edited(elements, a), b)),
    decreases b.len(),
{
    if b.len() == 0 {
        assert(a + b =~= a);
    } else {
        lemma_edits_append(elements, a, b.drop_last());
        assert((a + b).drop_last() =~= a + b.drop_last());
        assert((a + b).last() == b.last());
    }
}

proof fn lemma_op_keeps_hash_in_step(
    records: Map<(Seq<char>, Seq<char>), Seq<char>>,
    op: AppliedView,
)
    requires
        op.old_cid == cid_at(records, op.collection, op.rkey),
    ensures
        all_edited(elements_of(records), edits_of_op(op)) == elements_of(records_after(records, op)),
        all_fit(elements_of(records), edits_of_op(op)),
{
    let start = elements_of(records);
    let edits = edits_of_op(op);
    let end = elements_of(records_after(records, op));
    reveal_with_fuel(all_edited, 3);
    reveal_with_fuel(all_fit, 3);
    match op.old_cid {
        Some(old) => {
            let gone = EditView { added: false, collection: op.collection, rkey: op.rkey, cid: old };
            match op.new_cid {
                Some(new) => {
                    let came = EditView { added: true, collection: op.collection, rkey: op.rkey, cid: new };
                    assert(edits =~= seq![gone, came]);
                    assert(edits.drop_last() =~= seq![gone]);
                    assert(edits.drop_last().drop_last() =~= Seq::empty());
                    assert(edited(edited(start, gone), came) =~= end);
                },
                None => {
                    assert(edits =~= seq![gone]);
                    assert(edits.drop_last() =~= Seq::empty());
                    assert(edited(start, gone) =~= end);
                },
            }
        },
        None => {
            match op.new_cid {
                Some(new) => {
                    let came = EditView { added: true, collection: op.collection, rkey: op.rkey, cid: new };
                    assert(edits =~= seq![came]);
                    assert(edits.drop_last() =~= Seq::empty());
                    assert(edited(start, came) =~= end);
                },
                None => {
                    assert(edits =~= Seq::empty());
                    assert(start =~= end);
                },
            }
        },
    }
}

/// Writing keeps the set hash in step with the records: if it stood for the
/// records before some ops, it stands for the records after them, and no edit
/// on the way removes what is not there or adds what is.
pub proof fn law_set_hash_stays_in_step(
    records: Map<(Seq<char>, Seq<char>), Seq<char>>,
    ops: Seq<AppliedView>,
)
    requires
        ops_are_faithful(records, ops),
    ensures
        all_edited(elements_of(records), edits_of(ops)) == elements_of(records_after_all(records, ops)),
        all_fit(elements_of(records), edits_of(ops)),
    decreases ops.len(),
{
    if ops.len() > 0 {
        let head = ops.drop_last();
        law_set_hash_stays_in_step(records, head);
        lemma_op_keeps_hash_in_step(records_after_all(records, head), ops.last());
        lemma_edits_append(elements_of(records), edits_of(head), edits_of_op(ops.last()));
    }
}

/// The failure for a set hash of the wrong size.
pub open spec fn lthash_verdict(len: nat) -> Result<(), ErrorView> {
    if len == 2048 {
        Ok(())
    } else {
        Err(
            ErrorView::Internal(
                "corrupt repo state: lthash is "@ + text::decimal_of(len)
                    + " bytes, expected 2048"@,
            ),
        )
    }
}

/// Refuses a repo state whose set hash has the wrong size.
pub fn check_lthash(repo_state: &RepoState) -> (result: Result<(), AppError>)
    ensures
        crate::error::unit_outcome(result) == lthash_verdict(repo_state.lthash_state@.len()),
{
    let len = repo_state.lthash_state.len();
    if len == 2048 {
        Ok(())
    } else {
        let size = text::decimal(len as u64);
        Err(
            AppError::Internal(
                text::cat3(
                    "corrupt repo state: lthash is ",
                    size.as_str(),
                    " bytes, expected 2048",
                ),
            ),
        )
    }
}

/// Whether a log entry records the `i`th op of a write.
pub open spec fn logs(
    entry: OplogEntry,
    space: Space,
    author_did: Seq<char>,
    rev: Seq<char>,
    op: AppliedView,
    i: int,
    now: Seq<char>,
) -> bool {
    &&& crate::ambient::is_uuid_v4(entry.id@)
    &&& entry.space_id@ == space.id@
    &&& entry.author_did@ == author_did
    &&& entry.rev@ == rev
    &&& entry.idx == i as i32
    &&& entry.action == op.action
    &&& entry.collection@ == op.collection
    &&& entry.rkey@ == op.rkey
    &&& text::opt_text(entry.cid) == op.new_cid
    &&& text::opt_text(entry.prev) == op.old_cid
    &&& entry.value is None
    &&& entry.created_at@ == now
}

/// The log entries of a write: one for each op, in order, with fresh ids.
pub fn oplog_entries(space: &Space, author_did: &str, rev: &str, ops: &Vec<AppliedOp>, now: &str) -> (entries:
    Vec<OplogEntry>)
    ensures
        entries@.len() == ops@.len(),
        forall|i: int|
            0 <= i < entries@.len() ==> logs(
                #[trigger] entries@[i],
                *space,
                author_did@,
                rev@,
                ops@[i]@,
                i,
                now@,
            ),
{
    let mut entries: Vec<OplogEntry> = Vec::new();
    for i in 0..ops.len()
        invariant
            entries@.len() == i,
            forall|j: int|
                0 <= j < i ==> logs(
                    #[trigger] entries@[j],
                    *space,
                    author_did@,
                    rev@,
                    ops@[j]@,
                    j,
                    now@,
                ),
    {
        let op = &ops[i];
        entries.push(
            OplogEntry {
                id: crate::ambient::random_uuid(),
                space_id: space.id.clone(),
                author_did: author_did.to_owned(),
                rev: rev.to_owned(),
                idx: i as i32,
                action: op.action,
                collection: op.collection.clone(),
                rkey: op.rkey.clone(),
                cid: text::clone_opt(&op.new_cid),
                prev: text::clone_opt(&op.old_cid),
                value: None,
                created_at: now.to_owned(),
            },
        );
    }
    entries
}

/// Whether a repo's state is another sealed with a commit: where its host is,
/// and how far it was synced, stays.
pub open spec fn sealed(
    before: RepoState,
    after: RepoState,
    commit: SignedCommit,
    set_hash: Seq<u8>,
) -> bool {
    &&& after.space_id == before.space_id
    &&& after.author_did == before.author_did
    &&& after.host_mode == before.host_mode
    &&& after.sync_cursor == before.sync_cursor
    &&& after.lthash_state@ == set_hash
    &&& text::opt_text(after.rev) == Some(commit.rev@)
    &&& native_sync::holds(after.hash, commit.hash@)
    &&& native_sync::holds(after.ikm, commit.ikm@)
    &&& native_sync::holds(after.sig, commit.sig@)
    &&& native_sync::holds(after.mac, commit.mac@)
}

/// Seals a repo's state with a commit.
pub fn seal_repo_state(repo_state: RepoState, commit: SignedCommit, set_hash: Vec<u8>) -> (after: RepoState)
    ensures
        sealed(repo_state, after, commit, set_hash@),
{
    RepoState {
        space_id: repo_state.space_id,
        author_did: repo_state.author_did,
        lthash_state: set_hash,
        rev: Some(commit.rev),
        hash: Some(vstd::slice::slice_to_vec(&commit.hash)),
        ikm: Some(vstd::slice::slice_to_vec(&commit.ikm)),
        sig: Some(commit.sig),
        mac: Some(vstd::slice::slice_to_vec(&commit.mac)),
        host_mode: repo_state.host_mode,
        sync_cursor: repo_state.sync_cursor,
    }
}

/// Whether a repo's state is another with a commit of the signing key over a
/// hash, at a revision: one that verifies under the key's public key.
pub open spec fn committed(
    before: RepoState,
    after: RepoState,
    space: Space,
    author_did: Seq<char>,
    rev: Seq<char>,
    set_hash: Seq<u8>,
    hash: Seq<u8>,
    signing_key: Seq<u8>,
) -> bool {
    &&& crypto::p256_public_of(signing_key) is Some
    &&& exists|c: SignedCommit| #[trigger]
        sealed(before, after, c, set_hash) && c@ == commit::commit_of(
            hash,
            native_sync::space_address(space),
            author_did,
            rev,
            signing_key,
            c.ikm@,
        ) && commit::commit_verdict(
            c@,
            native_sync::space_address(space),
            author_did,
            commit::SpaceKeyView::P256(crypto::p256_public_of(signing_key)->0),
        ) == Ok::<(), ErrorView>(())
}

/// Signs a repo's state after a write: the new state carries a commit over the
/// new hash that verifies under the signing key's public key.
pub fn commit_write(
    repo_state: RepoState,
    space: &Space,
    author_did: &str,
    rev: &str,
    set_hash: Vec<u8>,
    hash: &[u8; 32],
    signing_key: &P256SigningKey,
) -> (after: Result<RepoState, AppError>)
    ensures
        after matches Ok(state) && committed(
            repo_state,
            state,
            *space,
            author_did@,
            rev@,
            set_hash@,
            hash@,
            signing_key@,
        ),
{
    let uri = native_sync::space_uri(space);
    match commit::sign_commit(hash, uri.as_str(), author_did, rev, signing_key) {
        Ok(signed) => Ok(seal_repo_state(repo_state, signed, set_hash)),
        Err(error) => Err(error),
    }
}

/// What a forwarded write's answer means.
pub open spec fn forwarded_of(method: Seq<char>, success: bool, body: Seq<u8>, detail: Seq<char>) -> Result<
    JsonView,
    ErrorView,
> {
    if !success {
        Err(
            ErrorView::BadGateway("the user's PDS rejected "@ + method + ": "@ + detail),
        )
    } else {
        match crate::json::json_parsed(body) {
            Ok(value) => Ok(value),
            Err(e) => Err(ErrorView::Internal("PDS returned invalid JSON: "@ + e)),
        }
    }
}

/// Reads the answer to a write that was forwarded to the user's PDS: its body,
/// and for a failure the body as text.
pub fn read_forwarded(method: &str, success: bool, body: &[u8], detail: &str) -> (value: Result<
    Json,
    AppError,
>)
    ensures
        crate::error::outcome(value) == forwarded_of(method@, success, body@, detail@),
{
    if !success {
        return Err(
            AppError::BadGateway(text::cat4("the user's PDS rejected ", method, ": ", detail)),
        );
    }
    match Json::from_slice(body) {
        Ok(value) => Ok(value),
        Err(e) => Err(AppError::Internal(text::cat2("PDS returned invalid JSON: ", e.as_str()))),
    }
}

/// The failure for a user whose PDS cannot be written to for them. Writing
/// locally instead would fork the two copies, and the next sync would drop the
/// record.
pub fn no_session_to_forward(reason: &str) -> (error: AppError)
    ensures
        error@ == ErrorView::Forbidden(
            "this space lives on your PDS and HappyView cannot write to it for you; re-authenticate to continue writing ("@
                + reason@ + ")"@,
        ),
{
    AppError::Forbidden(
        text::cat3(
            "this space lives on your PDS and HappyView cannot write to it for you; re-authenticate to continue writing (",
            reason,
            ")",
        ),
    )
}

/// Whether a repo's writes go to its user's PDS.
pub fn forwards_writes(repo_state: &RepoState) -> (yes: bool)
    ensures
        yes == (repo_state.host_mode == HostMode::Native),
{
    !repo_state.host_mode.is_authoritative_here()
}

/// The URI and CID that a forwarded write's answer gives, each empty if it
/// gives none.
pub open spec fn forwarded_ids_of(forwarded: JsonView) -> (Seq<char>, Seq<char>) {
    (
        match forwarded.get_str("uri"@) {
            Some(uri) => uri,
            None => Seq::empty(),
        },
        match forwarded.get_str("cid"@) {
            Some(cid) => cid,
            None => Seq::empty(),
        },
    )
}

fn text_or_empty(value: &Json, key: &str) -> (text: String)
    ensures
        text@ == (match value@.get_str(key@) {
            Some(t) => t,
            None => Seq::empty(),
        }),
{
    match value.get_str(key) {
        Some(t) => t.to_owned(),
        None => String::new(),
    }
}

/// The URI and CID that a forwarded write's answer gives.
pub fn forwarded_ids(forwarded: &Json) -> (ids: (String, String))
    ensures
        (ids.0@, ids.1@) == forwarded_ids_of(forwarded@),
{
    (text_or_empty(forwarded, "uri"), text_or_empty(forwarded, "cid"))
}

/// The body of a forwarded write, without a condition.
pub open spec fn forward_members(
    space_uri: Seq<char>,
    did: Seq<char>,
    collection: Seq<char>,
    rkey: Option<Seq<char>>,
    record: Option<JsonView>,
) -> Seq<(Seq<char>, JsonView)> {
    let base = seq![
        ("space"@, JsonView::Text(space_uri)),
        ("repo"@, JsonView::Text(did)),
        ("collection"@, JsonView::Text(collection)),
    ];
    let keyed = match rkey {
        Some(key) => base.push(("rkey"@, JsonView::Text(key))),
        None => base,
    };
    match record {
        Some(value) => keyed.push(("record"@, value)),
        None => keyed,
    }
}

/// The body of a forwarded write: a create names no key, a delete no record.
pub fn forward_body(
    space_uri: &str,
    did: &str,
    collection: &str,
    rkey: Option<&str>,
    record: Option<&Json>,
) -> (body: Json)
    ensures
        body@ == JsonView::Object(
            forward_members(
                space_uri@,
                did@,
                collection@,
                text::opt_str(rkey),
                match record {
                    Some(value) => Some(value@),
                    None => None,
                },
            ),
        ),
{
    let mut members: Vec<(String, Json)> = Vec::new();
    members.push(("space".to_owned(), Json::Text(space_uri.to_owned())));
    members.push(("repo".to_owned(), Json::Text(did.to_owned())));
    members.push(("collection".to_owned(), Json::Text(collection.to_owned())));
    if let Some(key) = rkey {
        members.push(("rkey".to_owned(), Json::Text(key.to_owned())));
    }
    if let Some(value) = record {
        members.push(("record".to_owned(), value.copy()));
    }
    let body = Json::Object(members);
    proof {
        crate::json::lemma_json_views(body);
        assert(body@->Object_0 =~= forward_members(
            space_uri@,
            did@,
            collection@,
            text::opt_str(rkey),
            match record {
                Some(value) => Some(value@),
                None => None,
            },
        ));
    }
    body
}

/// Adds `swapRecord` to the body of a forwarded write only when the caller gave
/// one.
///
/// `"swapRecord": null` is not the same as leaving it out: it asks the PDS to
/// write only if no record exists, so an unconditional update would fail.
pub fn with_swap_record(body: Json, swap_cid: Option<&str>) -> (result: Json)
    requires
        body is Object,
    ensures
        result@ == (match swap_cid {
            Some(swap) => crate::json::with_member(body@, "swapRecord"@, JsonView::Text(swap@)),
            None => body@,
        }),
{
    match swap_cid {
        Some(swap) => crate::json::set_member(body, "swapRecord", Json::Text(swap.to_owned())),
        None => body,
    }
}

/// A record of an author, as it is to be stored.
pub open spec fn new_record_of(
    space: Space,
    did: Seq<char>,
    collection: Seq<char>,
    rkey: Seq<char>,
    record: JsonView,
    now: Seq<char>,
) -> Result<RecordView, ErrorView> {
    match content_cid_of(record) {
        Err(error) => Err(error),
        Ok(cid) => Ok(
            RecordView {
                uri: native_sync::record_address(space, did, collection, rkey),
                space_id: space.id@,
                author_did: did,
                collection,
                rkey,
                record,
                cid,
                indexed_at: now,
            },
        ),
    }
}

/// Makes a record of an author, as it is to be stored.
pub fn new_record(
    space: &Space,
    did: &str,
    collection: &str,
    rkey: &str,
    record: Json,
    now: &str,
) -> (result: Result<SpaceRecord, AppError>)
    ensures
        crate::error::outcome(result) == new_record_of(
            *space,
            did@,
            collection@,
            rkey@,
            record@,
            now@,
        ),
{
    match content_cid(&record) {
        Err(error) => Err(error),
        Ok(cid) => Ok(
            SpaceRecord {
                uri: native_sync::record_uri(space, did, collection, rkey),
                space_id: space.id.clone(),
                author_did: did.to_owned(),
                collection: collection.to_owned(),
                rkey: rkey.to_owned(),
                record,
                cid,
                indexed_at: now.to_owned(),
            },
        ),
    }
}

/// What is stored under a record's address before a write.
#[derive(Debug)]
pub struct ExistingRecord {
    pub author_did: String,
    pub cid: String,
}

/// What an [`ExistingRecord`] is.
#[verifier::ext_equal]
pub struct ExistingView {
    pub author_did: Seq<char>,
    pub cid: Seq<char>,
}

impl View for ExistingRecord {
    type V = ExistingView;

    open spec fn view(&self) -> ExistingView {
        ExistingView { author_did: self.author_did@, cid: self.cid@ }
    }
}

/// What an optional [`ExistingRecord`] is.
pub open spec fn existing_view(existing: Option<ExistingRecord>) -> Option<ExistingView> {
    match existing {
        Some(record) => Some(record@),
        None => None,
    }
}

/// A change to the stored records.
#[derive(Debug)]
pub enum RecordChange {
    /// This record comes; none with its address may be there.
    Insert(SpaceRecord),
    /// This record comes, in place of any with its address.
    Upsert(SpaceRecord),
    /// This record comes in place of the one with its address and this CID.
    UpsertIf(SpaceRecord, String),
    /// The record with this address goes.
    Delete(String),
    /// The record with this address goes, if it has this CID.
    DeleteIf(String, String),
}

/// What a [`RecordChange`] changes.
#[verifier::ext_equal]
pub enum RecordChangeView {
    Insert(RecordView),
    Upsert(RecordView),
    UpsertIf(RecordView, Seq<char>),
    Delete(Seq<char>),
    DeleteIf(Seq<char>, Seq<char>),
}

impl View for RecordChange {
    type V = RecordChangeView;

    open spec fn view(&self) -> RecordChangeView {
        match self {
            RecordChange::Insert(r) => RecordChangeView::Insert(r@),
            RecordChange::Upsert(r) => RecordChangeView::Upsert(r@),
            RecordChange::UpsertIf(r, swap) => RecordChangeView::UpsertIf(r@, swap@),
            RecordChange::Delete(uri) => RecordChangeView::Delete(uri@),
            RecordChange::DeleteIf(uri, swap) => RecordChangeView::DeleteIf(uri@, swap@),
        }
    }
}

/// What a write does: the change to the stored records, and the op to log.
#[verifier::ext_equal]
pub struct WriteView {
    pub change: RecordChangeView,
    pub op: AppliedView,
}

/// What a write does.
#[derive(Debug)]
pub struct PlannedWrite {
    pub change: RecordChange,
    pub op: AppliedOp,
}

impl View for PlannedWrite {
    type V = WriteView;

    open spec fn view(&self) -> WriteView {
        WriteView { change: self.change@, op: self.op@ }
    }
}

/// Creating a record.
pub open spec fn create_of(record: RecordView) -> WriteView {
    WriteView {
        change: RecordChangeView::Insert(record),
        op: AppliedView {
            action: OplogAction::Create,
            collection: record.collection,
            rkey: record.rkey,
            new_cid: Some(record.cid),
            old_cid: None,
        },
    }
}

/// Plans the creation of a record.
pub fn plan_create(record: SpaceRecord) -> (write: PlannedWrite)
    ensures
        write@ == create_of(record@),
{
    let op = AppliedOp {
        action: OplogAction::Create,
        collection: record.collection.clone(),
        rkey: record.rkey.clone(),
        new_cid: Some(record.cid.clone()),
        old_cid: None,
    };
    PlannedWrite { change: RecordChange::Insert(record), op }
}

/// Putting a record, on condition of the CID before or not. It is an update if
/// there was a record, and else a create.
pub open spec fn put_of(
    record: RecordView,
    swap: Option<Seq<char>>,
    existing: Option<ExistingView>,
) -> WriteView {
    let old_cid = match swap {
        Some(cid) => Some(cid),
        None => match existing {
            Some(e) => Some(e.cid),
            None => None,
        },
    };
    WriteView {
        change: match swap {
            Some(cid) => RecordChangeView::UpsertIf(record, cid),
            None => RecordChangeView::Upsert(record),
        },
        op: AppliedView {
            action: if old_cid is Some {
                OplogAction::Update
            } else {
                OplogAction::Create
            },
            collection: record.collection,
            rkey: record.rkey,
            new_cid: Some(record.cid),
            old_cid,
        },
    }
}

/// Plans the putting of a record. What is stored before is looked up only
/// without a condition.
pub fn plan_put(record: SpaceRecord, swap: Option<String>, existing: Option<ExistingRecord>) -> (write:
    PlannedWrite)
    ensures
        write@ == put_of(record@, text::opt_text(swap), existing_view(existing)),
{
    let old_cid: Option<String> = match &swap {
        Some(cid) => Some(cid.clone()),
        None => match existing {
            Some(e) => Some(e.cid),
            None => None,
        },
    };
    let action = if old_cid.is_some() {
        OplogAction::Update
    } else {
        OplogAction::Create
    };
    let op = AppliedOp {
        action,
        collection: record.collection.clone(),
        rkey: record.rkey.clone(),
        new_cid: Some(record.cid.clone()),
        old_cid,
    };
    let change = match swap {
        Some(cid) => RecordChange::UpsertIf(record, cid),
        None => RecordChange::Upsert(record),
    };
    PlannedWrite { change, op }
}

/// Deleting a record, on condition of the CID before or not. Without one, only
/// the record's own author may.
pub open spec fn delete_of(
    uri: Seq<char>,
    did: Seq<char>,
    collection: Seq<char>,
    rkey: Seq<char>,
    swap: Option<Seq<char>>,
    existing: Option<ExistingView>,
) -> Result<WriteView, ErrorView> {
    let op = AppliedView {
        action: OplogAction::Delete,
        collection,
        rkey,
        new_cid: None,
        old_cid: None,
    };
    match swap {
        Some(cid) => Ok(
            WriteView {
                change: RecordChangeView::DeleteIf(uri, cid),
                op: AppliedView { old_cid: Some(cid), ..op },
            },
        ),
        None => match existing {
            None => Err(ErrorView::NotFound("Record not found"@)),
            Some(e) => if e.author_did != did {
                Err(ErrorView::Forbidden("You can only delete your own records"@))
            } else {
                Ok(
                    WriteView {
                        change: RecordChangeView::Delete(uri),
                        op: AppliedView { old_cid: Some(e.cid), ..op },
                    },
                )
            },
        },
    }
}

/// Plans the deletion of a record. What is stored before is looked up only
/// without a condition.
pub fn plan_delete(
    uri: String,
    did: &str,
    collection: &str,
    rkey: &str,
    swap: Option<String>,
    existing: Option<ExistingRecord>,
) -> (write: Result<PlannedWrite, AppError>)
    ensures
        crate::error::outcome(write) == delete_of(
            uri@,
            did@,
            collection@,
            rkey@,
            text::opt_text(swap),
            existing_view(existing),
        ),
{
    let (change, old_cid): (RecordChange, String) = match swap {
        Some(cid) => (RecordChange::DeleteIf(uri, cid.clone()), cid),
        None => match existing {
            None => {
                return Err(AppError::NotFound("Record not found".to_owned()));
            },
            Some(e) => {
                if !text::same_text(e.author_did.as_str(), did) {
                    return Err(
                        AppError::Forbidden("You can only delete your own records".to_owned()),
                    );
                }
                (RecordChange::Delete(uri), e.cid)
            },
        },
    };
    let op = AppliedOp {
        action: OplogAction::Delete,
        collection: collection.to_owned(),
        rkey: rkey.to_owned(),
        new_cid: None,
        old_cid: Some(old_cid),
    };
    Ok(PlannedWrite { change, op })
}

/// What is stored, by address.
pub open spec fn stored_at(records: Map<Seq<char>, ExistingView>, uri: Seq<char>) -> Option<ExistingView> {
    if records.contains_key(uri) {
        Some(records[uri])
    } else {
        None
    }
}

/// The CID of what is stored, by address.
pub open spec fn stored_cid(records: Map<Seq<char>, ExistingView>, uri: Seq<char>) -> Option<Seq<char>> {
    match stored_at(records, uri) {
        Some(e) => Some(e.cid),
        None => None,
    }
}

/// The address that a change is about.
pub open spec fn change_uri(change: RecordChangeView) -> Seq<char> {
    match change {
        RecordChangeView::Insert(r) => r.uri,
        RecordChangeView::Upsert(r) => r.uri,
        RecordChangeView::UpsertIf(r, _) => r.uri,
        RecordChangeView::Delete(uri) => uri,
        RecordChangeView::DeleteIf(uri, _) => uri,
    }
}

/// Whether a store takes a change: an insert finds nothing there, and a
/// condition holds.
pub open spec fn change_admitted(records: Map<Seq<char>, ExistingView>, change: RecordChangeView) -> bool {
    match change {
        RecordChangeView::Insert(r) => !records.contains_key(r.uri),
        RecordChangeView::Upsert(_) => true,
        RecordChangeView::UpsertIf(r, swap) => stored_cid(records, r.uri) == Some(swap),
        RecordChangeView::Delete(_) => true,
        RecordChangeView::DeleteIf(uri, swap) => stored_cid(records, uri) == Some(swap),
    }
}

/// What is stored after a change.
pub open spec fn stored_after(records: Map<Seq<char>, ExistingView>, change: RecordChangeView) -> Map<
    Seq<char>,
    ExistingView,
> {
    match change {
        RecordChangeView::Insert(r) | RecordChangeView::Upsert(r) | RecordChangeView::UpsertIf(r, _) => records.insert(
            r.uri,
            ExistingView { author_did: r.author_did, cid: r.cid },
        ),
        RecordChangeView::Delete(uri) | RecordChangeView::DeleteIf(uri, _) => records.remove(uri),
    }
}

/// Whether a write logs what it does: the CIDs that it names are the ones stored
/// before and after it.
pub open spec fn logged_faithfully(records: Map<Seq<char>, ExistingView>, write: WriteView) -> bool {
    let uri = change_uri(write.change);
    write.op.old_cid == stored_cid(records, uri) && write.op.new_cid == stored_cid(
        stored_after(records, write.change),
        uri,
    )
}

/// Creating and putting a record log what they do, if the store takes the change
/// and what was looked up is what is stored.
pub proof fn law_puts_are_logged_faithfully(
    records: Map<Seq<char>, ExistingView>,
    record: RecordView,
    swap: Option<Seq<char>>,
    existing: Option<ExistingView>,
)
    requires
        swap is None ==> existing == stored_at(records, record.uri),
    ensures
        change_admitted(records, create_of(record).change) ==> logged_faithfully(
            records,
            create_of(record),
        ),
        change_admitted(records, put_of(record, swap, existing).change) ==> logged_faithfully(
            records,
            put_of(record, swap, existing),
        ),
{
}

/// Deleting a record logs what it does, if the store takes the change and what
/// was looked up is what is stored.
pub proof fn law_deletes_are_logged_faithfully(
    records: Map<Seq<char>, ExistingView>,
    uri: Seq<char>,
    did: Seq<char>,
    collection: Seq<char>,
    rkey: Seq<char>,
    swap: Option<Seq<char>>,
    existing: Option<ExistingView>,
)
    requires
        swap is None ==> existing == stored_at(records, uri),
    ensures
        delete_of(uri, did, collection, rkey, swap, existing) matches Ok(write) ==> (change_admitted(
            records,
            write.change,
        ) ==> logged_faithfully(records, write)),
{
}

/// The failure for a space without an address, or with one that is taken.
pub open spec fn new_space_verdict(type_nsid: Seq<char>, skey: Seq<char>, taken: bool) -> Result<
    (),
    ErrorView,
> {
    if type_nsid.len() == 0 || skey.len() == 0 {
        Err(ErrorView::BadRequest("type and skey are required"@))
    } else if taken {
        Err(ErrorView::Conflict("A space with this address already exists"@))
    } else {
        Ok(())
    }
}

/// The members of a new space's configuration beyond the flags: those given, and
/// the collections that the space's type declares, if it declares some and the
/// configuration does not say.
pub open spec fn configured(
    extra: Seq<(Seq<char>, JsonView)>,
    declared: Option<Seq<Seq<char>>>,
) -> Seq<(Seq<char>, JsonView)> {
    match declared {
        Some(collections) => if collections.len() > 0 && crate::json::lookup(
            extra,
            "allowedCollections"@,
        ) is None {
            extra.push(
                (
                    "allowedCollections"@,
                    JsonView::List(collections.map_values(|t: Seq<char>| JsonView::Text(t))),
                ),
            )
        } else {
            extra
        },
        None => extra,
    }
}

/// The texts of an optional list.
pub open spec fn opt_texts(list: Option<Vec<String>>) -> Option<Seq<Seq<char>>> {
    match list {
        Some(items) => Some(text::texts(items@)),
        None => None,
    }
}

/// Completes a new space's configuration with the collections that its type
/// declares.
pub fn with_declared_collections(config: SpaceConfig, declared: Option<Vec<String>>) -> (result:
    SpaceConfig)
    ensures
        result.membership_public == config.membership_public,
        result.records_public == config.records_public,
        crate::json::member_views(result.extra@) == configured(
            crate::json::member_views(config.extra@),
            opt_texts(declared),
        ),
{
    match declared {
        Some(collections) => {
            assert(text::texts(collections@).len() == collections@.len());
            if collections.len() > 0 && config.get_extra("allowedCollections").is_none() {
                let mut extra = config.extra;
                extra.push(("allowedCollections".to_owned(), types::json_text_list(&collections)));
                assert(crate::json::member_views(extra@) =~= configured(
                    crate::json::member_views(config.extra@),
                    Some(text::texts(collections@)),
                ));
                SpaceConfig {
                    membership_public: config.membership_public,
                    records_public: config.records_public,
                    extra,
                }
            } else {
                config
            }
        },
        None => config,
    }
}

/// Whether a space is a new one as it was asked for: its creator is its
/// authority, and what was not given has its default.
pub open spec fn is_new_space(
    space: Space,
    did: Seq<char>,
    type_nsid: Seq<char>,
    skey: Seq<char>,
    details: SpaceDetails,
    declared: Option<Seq<Seq<char>>>,
    now: Seq<char>,
) -> bool {
    &&& crate::ambient::is_uuid_v4(space.id@)
    &&& space.did@ == did
    &&& space.authority_did@ == did
    &&& space.creator_did@ == did
    &&& space.type_nsid@ == type_nsid
    &&& space.skey@ == skey
    &&& space.display_name == details.display_name
    &&& space.description == details.description
    &&& space.read_policy == (match details.read_policy {
        Some(policy) => policy,
        None => Policy::MemberList,
    })
    &&& space.write_policy == (match details.write_policy {
        Some(policy) => policy,
        None => Policy::MemberList,
    })
    &&& space.app_access == (match details.app_access {
        Some(access) => access,
        None => AppAccess::Open,
    })
    &&& space.config.membership_public == (details.config matches Some(c) && c.membership_public)
    &&& space.config.records_public == (details.config matches Some(c) && c.records_public)
    &&& crate::json::member_views(space.config.extra@) == configured(
        match details.config {
            Some(c) => crate::json::member_views(c.extra@),
            None => Seq::empty(),
        },
        declared,
    )
    &&& space.revision is None
    &&& space.created_at@ == now
    &&& space.updated_at@ == now
}

/// Whether a member is a new one, with a fresh id.
pub open spec fn is_new_member(
    member: SpaceMember,
    space_id: Seq<char>,
    did: Seq<char>,
    access: MemberAccess,
    is_delegation: bool,
    granted_by: Seq<char>,
    now: Seq<char>,
) -> bool {
    &&& crate::ambient::is_uuid_v4(member.id@)
    &&& member.space_id@ == space_id
    &&& member.did@ == did
    &&& member.access == access
    &&& member.is_delegation == is_delegation
    &&& text::opt_text(member.granted_by) == Some(granted_by)
    &&& member.created_at@ == now
}

/// What a space's creator says of it, beyond its address.
pub struct SpaceDetails {
    pub display_name: Option<String>,
    pub description: Option<String>,
    pub read_policy: Option<Policy>,
    pub write_policy: Option<Policy>,
    pub app_access: Option<AppAccess>,
    pub config: Option<SpaceConfig>,
}

fn new_member(
    space_id: String,
    did: &str,
    access: MemberAccess,
    is_delegation: bool,
    granted_by: &str,
    now: &str,
) -> (member: SpaceMember)
    ensures
        is_new_member(member, space_id@, did@, access, is_delegation, granted_by@, now@),
{
    SpaceMember {
        id: crate::ambient::random_uuid(),
        space_id,
        did: did.to_owned(),
        access,
        is_delegation,
        granted_by: Some(granted_by.to_owned()),
        created_at: now.to_owned(),
    }
}

/// Makes a space, with its creator as a member who can write. `taken` says
/// whether the address is, and `declared` which collections the space's type
/// declares.
pub fn create_space(
    did: &str,
    type_nsid: &str,
    skey: &str,
    taken: bool,
    details: SpaceDetails,
    declared: Option<Vec<String>>,
    now: &str,
) -> (result: Result<(Space, SpaceMember), AppError>)
    ensures
        match result {
            Ok((space, member)) => new_space_verdict(type_nsid@, skey@, taken) is Ok && is_new_space(
                space,
                did@,
                type_nsid@,
                skey@,
                details,
                opt_texts(declared),
                now@,
            ) && is_new_member(
                member,
                space.id@,
                did@,
                MemberAccess::writer(),
                false,
                did@,
                now@,
            ),
            Err(error) => new_space_verdict(type_nsid@, skey@, taken) == Err::<(), ErrorView>(error@),
        },
{
    proof {
        reveal_strlit("");
        assert(""@ =~= Seq::empty());
        assert(type_nsid@.len() == 0 ==> type_nsid@ =~= Seq::empty());
        assert(skey@.len() == 0 ==> skey@ =~= Seq::empty());
    }
    if text::same_text(type_nsid, "") || text::same_text(skey, "") {
        return Err(AppError::BadRequest("type and skey are required".to_owned()));
    }
    if taken {
        return Err(AppError::Conflict("A space with this address already exists".to_owned()));
    }
    let given = match details.config {
        Some(config) => config,
        None => SpaceConfig::default(),
    };
    assert(details.config is None ==> crate::json::member_views(given.extra@) =~= Seq::empty());
    let config = with_declared_collections(given, declared);
    let space = Space {
        id: crate::ambient::random_uuid(),
        did: did.to_owned(),
        authority_did: did.to_owned(),
        creator_did: did.to_owned(),
        type_nsid: type_nsid.to_owned(),
        skey: skey.to_owned(),
        display_name: details.display_name,
        description: details.description,
        read_policy: match details.read_policy {
            Some(policy) => policy,
            None => Policy::default(),
        },
        write_policy: match details.write_policy {
            Some(policy) => policy,
            None => Policy::default(),
        },
        app_access: match details.app_access {
            Some(access) => access,
            None => AppAccess::default(),
        },
        config,
        revision: None,
        created_at: now.to_owned(),
        updated_at: now.to_owned(),
    };
    let member = new_member(space.id.clone(), did, MemberAccess::writer(), false, did, now);
    Ok((space, member))
}

/// A new space takes just the collections that its type declares, unless its
/// creator says otherwise.
pub proof fn law_declared_collections_are_enforced(
    space: Space,
    did: Seq<char>,
    type_nsid: Seq<char>,
    skey: Seq<char>,
    details: SpaceDetails,
    declared: Seq<Seq<char>>,
    now: Seq<char>,
    collection: Seq<char>,
)
    requires
        is_new_space(space, did, type_nsid, skey, details, Some(declared), now),
        declared.len() > 0,
        details.config matches Some(c) ==> types::extra_value(c, "allowedCollections"@) is None,
    ensures
        collection_allowed(space, collection) == declared.contains(collection),
{
    let given = match details.config {
        Some(c) => crate::json::member_views(c.extra@),
        None => Seq::empty(),
    };
    let extra = configured(given, Some(declared));
    let items = declared.map_values(|t: Seq<char>| JsonView::Text(t));
    assert(extra.drop_last() =~= given);
    assert(types::extra_value(space.config, "allowedCollections"@) == Some(JsonView::List(items)));
    if declared.contains(collection) {
        let i = choose|i: int| 0 <= i < declared.len() && declared[i] == collection;
        assert(items[i] == JsonView::Text(collection));
    }
    if holds_text(items, collection) {
        let i = choose|i: int| 0 <= i < items.len() && (#[trigger] items[i]) == JsonView::Text(collection);
        assert(declared[i] == collection);
    }
}

/// The grant of a member who is put: what is asked for, except that whether it
/// is limited to own records stays as it is.
pub open spec fn put_access(access: MemberAccess, existing: Option<MemberAccess>) -> MemberAccess {
    MemberAccess {
        read_self: existing matches Some(old) && old.read_self,
        ..access
    }
}

/// Adds a member, or replaces what they may read and write if they are one.
///
/// A repeat call updates the member rather than conflicting, and keeps
/// `read_self`, which is never sent over the wire: a caller who replaces read
/// and write access has not asked to lift an own-records restriction.
pub fn put_member(
    space: &Space,
    actor_did: &str,
    member_did: &str,
    access: MemberAccess,
    is_delegation: Option<bool>,
    existing: Option<&SpaceMember>,
    now: &str,
) -> (member: SpaceMember)
    ensures
        member.space_id@ == space.id@,
        member.did@ == member_did@,
        member.access == put_access(
            access,
            match existing {
                Some(old) => Some(old.access),
                None => None,
            },
        ),
        member.is_delegation == (is_delegation == Some(true)),
        text::opt_text(member.granted_by) == Some(actor_did@),
        member.created_at@ == now@,
        match existing {
            Some(old) => member.id@ == old.id@,
            None => crate::ambient::is_uuid_v4(member.id@),
        },
{
    let (id, read_self) = match existing {
        Some(old) => (old.id.clone(), old.access.read_self),
        None => (crate::ambient::random_uuid(), false),
    };
    SpaceMember {
        id,
        space_id: space.id.clone(),
        did: member_did.to_owned(),
        access: MemberAccess { read: access.read, write: access.write, read_self },
        is_delegation: match is_delegation {
            Some(b) => b,
            None => false,
        },
        granted_by: Some(actor_did.to_owned()),
        created_at: now.to_owned(),
    }
}

/// Putting a member who reads only own records leaves them reading only own
/// records, and putting one twice is the same as putting them once.
pub proof fn law_put_keeps_own_records_restriction(access: MemberAccess, existing: Option<MemberAccess>)
    ensures
        put_access(access, existing).read_self == (existing matches Some(old) && old.read_self),
        put_access(access, Some(put_access(access, existing))) == put_access(access, existing),
{
}

/// Adds a member who is not one yet.
pub fn add_member(
    space: &Space,
    actor_did: &str,
    member_did: &str,
    access: Option<MemberAccess>,
    is_delegation: Option<bool>,
    exists: bool,
    now: &str,
) -> (result: Result<SpaceMember, AppError>)
    ensures
        match result {
            Ok(member) => !exists && is_new_member(
                member,
                space.id@,
                member_did@,
                match access {
                    Some(a) => a,
                    None => MemberAccess::reader(),
                },
                is_delegation == Some(true),
                actor_did@,
                now@,
            ),
            Err(error) => exists && error@ == ErrorView::Conflict(
                "Member already exists in this space"@,
            ),
        },
{
    if exists {
        return Err(AppError::Conflict("Member already exists in this space".to_owned()));
    }
    let granted = match access {
        Some(a) => a,
        None => MemberAccess::reader(),
    };
    let delegation = match is_delegation {
        Some(b) => b,
        None => false,
    };
    Ok(new_member(space.id.clone(), member_did, granted, delegation, actor_did, now))
}

/// What is to change about a space. What is `None` stays.
pub struct SpaceUpdate {
    pub display_name: Option<Option<String>>,
    pub description: Option<Option<String>>,
    pub read_policy: Option<Policy>,
    pub write_policy: Option<Policy>,
    pub app_access: Option<AppAccess>,
    pub config: Option<SpaceConfig>,
}

/// A value, or another in its place.
pub open spec fn replaced<T>(old: T, new: Option<T>) -> T {
    match new {
        Some(value) => value,
        None => old,
    }
}

/// Changes a space. Each policy that is given replaces the current one
/// wholesale.
pub fn update_space(space: Space, update: SpaceUpdate) -> (result: Space)
    ensures
        result == (Space {
            display_name: replaced(space.display_name, update.display_name),
            description: replaced(space.description, update.description),
            read_policy: replaced(space.read_policy, update.read_policy),
            write_policy: replaced(space.write_policy, update.write_policy),
            app_access: replaced(space.app_access, update.app_access),
            config: replaced(space.config, update.config),
            ..space
        }),
{
    let mut space = space;
    if let Some(name) = update.display_name {
        space.display_name = name;
    }
    if let Some(description) = update.description {
        space.description = description;
    }
    if let Some(policy) = update.read_policy {
        space.read_policy = policy;
    }
    if let Some(policy) = update.write_policy {
        space.write_policy = policy;
    }
    if let Some(access) = update.app_access {
        space.app_access = access;
    }
    if let Some(config) = update.config {
        space.config = config;
    }
    space
}

/// The removal of a member that an admin asks for. Credentials that were issued to
/// the member are to be revoked first.
pub struct MemberRemoval {
    space_id: String,
    did: String,
}

/// The removal of a member whose credentials are revoked. The entry is to be
/// removed now.
pub struct RevokedMember {
    space_id: String,
    did: String,
}

/// Takes an admin's request to remove a member.
pub fn remove_member(space: &Space, actor_did: &str, is_super: Option<i32>, member_did: &str) -> (removal:
    Result<MemberRemoval, AppError>)
    ensures
        match removal {
            Ok(removal) => admin_verdict(*space, actor_did@, is_super) is Ok && removal.space_id()
                == space.id@ && removal.did() == member_did@,
            Err(error) => admin_verdict(*space, actor_did@, is_super) == Err::<(), ErrorView>(error@),
        },
{
    match require_space_admin(space, actor_did, is_super) {
        Ok(_) => Ok(
            MemberRemoval { space_id: space.id.clone(), did: member_did.to_owned() },
        ),
        Err(error) => Err(error),
    }
}

impl MemberRemoval {
    /// The space.
    pub closed spec fn space_id(self) -> Seq<char> {
        self.space_id@
    }

    /// The member.
    pub closed spec fn did(self) -> Seq<char> {
        self.did@
    }

    /// In which space whose credentials are to be revoked.
    pub fn credentials(&self) -> (subject: (&str, &str))
        ensures
            subject.0@ == self.space_id(),
            subject.1@ == self.did(),
    {
        (self.space_id.as_str(), self.did.as_str())
    }

    /// Goes on once the credentials are revoked.
    pub fn on_revoked(self) -> (removal: RevokedMember)
        ensures
            removal.space_id() == self.space_id(),
            removal.did() == self.did(),
    {
        RevokedMember { space_id: self.space_id, did: self.did }
    }
}

impl RevokedMember {
    /// The space.
    pub closed spec fn space_id(self) -> Seq<char> {
        self.space_id@
    }

    /// The member.
    pub closed spec fn did(self) -> Seq<char> {
        self.did@
    }

    /// From which space whose entry is to be removed.
    pub fn entry(&self) -> (subject: (&str, &str))
        ensures
            subject.0@ == self.space_id(),
            subject.1@ == self.did(),
    {
        (self.space_id.as_str(), self.did.as_str())
    }

    /// The outcome, given whether there was an entry: a failure if there was none.
    pub fn on_removed(self, removed: bool) -> (result: Result<(), AppError>)
        ensures
            crate::error::unit_outcome(result) == (if removed {
                Ok(())
            } else {
                Err(ErrorView::NotFound("Member not found in this space"@))
            }),
    {
        if removed {
            Ok(())
        } else {
            Err(AppError::NotFound("Member not found in this space".to_owned()))
        }
    }
}

/// Makes an invitation, and the token that redeems it. Only the token's hash is
/// kept.
pub fn create_invite(
    space: &Space,
    actor_did: &str,
    access: Option<MemberAccess>,
    max_uses: Option<i64>,
    expires_at: Option<String>,
    now: &str,
) -> (result: (SpaceInvite, String))
    ensures
        exists|secret: Seq<u8>| secret.len() == 24 && result.1@ == #[trigger] text::hex_of(secret),
        result.0.token_hash@ == crypto::text_hash(result.1@),
        crate::ambient::is_uuid_v4(result.0.id@),
        result.0.space_id@ == space.id@,
        result.0.created_by@ == actor_did@,
        result.0.access == (match access {
            Some(a) => a,
            None => MemberAccess::reader(),
        }),
        result.0.max_uses == max_uses,
        result.0.uses == 0,
        result.0.expires_at == expires_at,
        !result.0.revoked,
        result.0.created_at@ == now@,
{
    let secret = crate::ambient::random_bytes(24);
    let token = text::hex(secret.as_slice());
    let token_hash = crypto::hash_text(token.as_str());
    let invite = SpaceInvite {
        id: crate::ambient::random_uuid(),
        space_id: space.id.clone(),
        token_hash,
        created_by: actor_did.to_owned(),
        access: match access {
            Some(a) => a,
            None => MemberAccess::reader(),
        },
        max_uses,
        uses: 0,
        expires_at,
        revoked: false,
        created_at: now.to_owned(),
    };
    (invite, token)
}

/// Whether an invitation can be redeemed at a time: it was not revoked, was not
/// used up, and has not expired, where times are compared as text.
pub open spec fn invite_verdict(invite: SpaceInvite, now: Seq<char>) -> Result<(), ErrorView> {
    if invite.revoked {
        Err(ErrorView::BadRequest("This invite has been revoked"@))
    } else if invite.max_uses matches Some(max) && invite.uses >= max {
        Err(ErrorView::BadRequest("This invite has reached its maximum uses"@))
    } else if invite.expires_at matches Some(expires) && text::text_before(expires@, now) {
        Err(ErrorView::BadRequest("This invite has expired"@))
    } else {
        Ok(())
    }
}

/// The invitation that a token redeems, if one was found under the token's hash
/// and it can be redeemed.
pub fn redeemable_invite(found: Option<SpaceInvite>, now: &str) -> (result: Result<
    SpaceInvite,
    AppError,
>)
    ensures
        match result {
            Ok(invite) => found == Some(invite) && invite_verdict(invite, now@) is Ok,
            Err(error) => match found {
                None => error@ == ErrorView::NotFound("Invalid invite token"@),
                Some(invite) => invite_verdict(invite, now@) == Err::<(), ErrorView>(error@),
            },
        },
{
    let invite = match found {
        Some(invite) => invite,
        None => {
            return Err(AppError::NotFound("Invalid invite token".to_owned()));
        },
    };
    if invite.revoked {
        return Err(AppError::BadRequest("This invite has been revoked".to_owned()));
    }
    if let Some(max) = invite.max_uses {
        if invite.uses >= max {
            return Err(AppError::BadRequest("This invite has reached its maximum uses".to_owned()));
        }
    }
    if let Some(expires) = &invite.expires_at {
        if text::text_less(expires.as_str(), now) {
            return Err(AppError::BadRequest("This invite has expired".to_owned()));
        }
    }
    Ok(invite)
}

/// Redeems an invitation: the new member has just the access that the invitation
/// gives, in its name.
pub fn accept_invite(invite: &SpaceInvite, did: &str, is_member: bool, now: &str) -> (result: Result<
    SpaceMember,
    AppError,
>)
    ensures
        match result {
            Ok(member) => !is_member && is_new_member(
                member,
                invite.space_id@,
                did@,
                invite.access,
                false,
                invite.created_by@,
                now@,
            ),
            Err(error) => is_member && error@ == ErrorView::Conflict(
                "You are already a member of this space"@,
            ),
        },
{
    if is_member {
        return Err(AppError::Conflict("You are already a member of this space".to_owned()));
    }
    Ok(
        new_member(
            invite.space_id.clone(),
            did,
            invite.access,
            false,
            invite.created_by.as_str(),
            now,
        ),
    )
}

/// The address of the space that a member joined, or the failure if it is gone.
pub fn joined_space(space: Option<&Space>) -> (address: Result<String, AppError>)
    ensures
        crate::error::outcome(address) == (match space {
            Some(s) => Ok(native_sync::space_address(*s)),
            None => Err(ErrorView::Internal("space vanished after member insert"@)),
        }),
{
    match space {
        Some(s) => Ok(native_sync::space_uri(s)),
        None => Err(AppError::Internal("space vanished after member insert".to_owned())),
    }
}

/// An invitation with a limit can be redeemed that often and no more, and one
/// that was revoked never again, whenever that is tried.
pub proof fn law_invites_end(invite: SpaceInvite, now: Seq<char>)
    ensures
        invite.revoked ==> invite_verdict(invite, now) is Err,
        (invite.max_uses matches Some(max) && invite.uses >= max) ==> invite_verdict(invite, now) is Err,
{
}

/// The key that signs commits: the bytes stored under `#atproto_space`.
pub open spec fn loaded_key_of(stored: Option<Seq<u8>>) -> Result<Seq<u8>, ErrorView> {
    match stored {
        None => Err(
            ErrorView::Internal(
                "#atproto_space signing key is missing; it is provisioned at startup and on space creation"@,
            ),
        ),
        Some(bytes) => Ok(bytes),
    }
}

/// The bytes of the key that signs commits.
pub fn load_signing_key(stored: Option<Vec<u8>>) -> (bytes: Result<Vec<u8>, AppError>)
    ensures
        crate::error::outcome(bytes) == loaded_key_of(crypto::opt_bytes(stored)),
{
    match stored {
        None => Err(
            AppError::Internal(
                "#atproto_space signing key is missing; it is provisioned at startup and on space creation".to_owned(),
            ),
        ),
        Some(bytes) => Ok(bytes),
    }
}

/// The key that signs commits, if commits can be signed at all.
pub open spec fn service_key_of(has_encryption_key: bool, stored: Option<Seq<u8>>) -> Result<
    Seq<u8>,
    ErrorView,
> {
    if !has_encryption_key {
        Err(
            ErrorView::Internal(
                "spaces require a token encryption key to sign commits; set TOKEN_ENCRYPTION_KEY"@,
            ),
        )
    } else {
        loaded_key_of(stored)
    }
}

/// The bytes of the key that signs a write. `stored` is read with the encryption
/// key, if there is one.
pub fn service_signing_key(has_encryption_key: bool, stored: Option<Vec<u8>>) -> (bytes: Result<
    Vec<u8>,
    AppError,
>)
    ensures
        crate::error::outcome(bytes) == service_key_of(has_encryption_key, crypto::opt_bytes(stored)),
{
    if !has_encryption_key {
        return Err(
            AppError::Internal(
                "spaces require a token encryption key to sign commits; set TOKEN_ENCRYPTION_KEY".to_owned(),
            ),
        );
    }
    load_signing_key(stored)
}

/// The record that a change brings, if it brings one.
pub open spec fn coming(change: RecordChangeView) -> Option<RecordView> {
    match change {
        RecordChangeView::Insert(r) => Some(r),
        RecordChangeView::Upsert(r) => Some(r),
        RecordChangeView::UpsertIf(r, _) => Some(r),
        RecordChangeView::Delete(_) => None,
        RecordChangeView::DeleteIf(_, _) => None,
    }
}

/// Whether a store holds a record under its address after a change, and all else
/// as before.
pub open spec fn adds_just(
    before: Map<Seq<char>, ExistingView>,
    after: Map<Seq<char>, ExistingView>,
    record: RecordView,
) -> bool {
    &&& stored_at(after, record.uri) == Some(
        ExistingView { author_did: record.author_did, cid: record.cid },
    )
    &&& forall|uri: Seq<char>| uri != record.uri ==> stored_at(after, uri) == #[trigger] stored_at(before, uri)
}

/// A record is created just where none is: the store takes it if nothing has its
/// address, and then holds it there.
pub proof fn law_creates_add_a_record(store: Map<Seq<char>, ExistingView>, record: RecordView)
    ensures
        change_admitted(store, create_of(record).change) <==> stored_at(store, record.uri) is None,
        adds_just(store, stored_after(store, create_of(record).change), record),
        coming(create_of(record).change) == Some(record),
{
}

/// A record that is put without a condition is always taken, whatever has its
/// address; one on condition of a CID just if that is the CID there. Either way the
/// store then holds it there, and all else as before.
pub proof fn law_puts_leave_the_record(
    store: Map<Seq<char>, ExistingView>,
    record: RecordView,
    swap: Option<Seq<char>>,
    existing: Option<ExistingView>,
)
    ensures
        ({
            let change = put_of(record, swap, existing).change;
            &&& (swap is None ==> change_admitted(store, change))
            &&& (swap is Some ==> (change_admitted(store, change) <==> stored_cid(store, record.uri)
                == swap))
            &&& adds_just(store, stored_after(store, change), record)
            &&& coming(change) == Some(record)
        }),
{
}

/// A deletion takes just the record with its address. One without a condition is
/// always taken, one on condition of a CID just if that is the CID there.
pub proof fn law_deletes_take_just_the_record(
    store: Map<Seq<char>, ExistingView>,
    uri: Seq<char>,
    did: Seq<char>,
    collection: Seq<char>,
    rkey: Seq<char>,
    swap: Option<Seq<char>>,
    existing: Option<ExistingView>,
    other: Seq<char>,
)
    ensures
        delete_of(uri, did, collection, rkey, swap, existing) matches Ok(write) ==> {
            &&& (swap is None ==> change_admitted(store, write.change))
            &&& (swap is Some ==> (change_admitted(store, write.change) <==> stored_cid(store, uri)
                == swap))
            &&& stored_at(stored_after(store, write.change), uri) is None
            &&& (other != uri ==> stored_at(stored_after(store, write.change), other) == stored_at(
                store,
                other,
            ))
            &&& coming(write.change) is None
            &&& write.op.collection == collection
            &&& write.op.rkey == rkey
        },
        delete_of(uri, did, collection, rkey, swap, existing) is Ok <==> swap is Some || (
        existing matches Some(e) && e.author_did == did),
{
}

/// What an op is called is what its CIDs say: a create has none before it, an
/// update has both, and a delete has none after it.
pub open spec fn named_by_its_cids(op: AppliedView) -> bool {
    op.action == (if op.new_cid is None {
        OplogAction::Delete
    } else if op.old_cid is None {
        OplogAction::Create
    } else {
        OplogAction::Update
    })
}

/// What a write logs is called by what its CIDs say, and is about the record that
/// the write is about.
pub proof fn law_ops_are_named_by_their_cids(
    record: RecordView,
    uri: Seq<char>,
    did: Seq<char>,
    swap: Option<Seq<char>>,
    existing: Option<ExistingView>,
)
    ensures
        named_by_its_cids(create_of(record).op),
        named_by_its_cids(put_of(record, swap, existing).op),
        delete_of(uri, did, record.collection, record.rkey, swap, existing) matches Ok(write)
            ==> named_by_its_cids(write.op) && write.op.old_cid is Some,
        create_of(record).op.collection == record.collection && create_of(record).op.rkey == record.rkey,
        put_of(record, swap, existing).op.collection == record.collection && put_of(
            record,
            swap,
            existing,
        ).op.rkey == record.rkey,
        create_of(record).op.new_cid == Some(record.cid),
        put_of(record, swap, existing).op.new_cid == Some(record.cid),
{
}

/// A log entry tells of its op, and of whose repo, at which revision and in which
/// place, so that whoever reads the log can replay the write.
pub proof fn law_log_entries_tell_the_op(
    entry: OplogEntry,
    space: Space,
    author_did: Seq<char>,
    rev: Seq<char>,
    op: AppliedView,
    i: int,
    now: Seq<char>,
)
    requires
        logs(entry, space, author_did, rev, op, i, now),
        0 <= i <= i32::MAX,
    ensures
        entry.action == op.action,
        entry.collection@ == op.collection,
        entry.rkey@ == op.rkey,
        text::opt_text(entry.cid) == op.new_cid,
        text::opt_text(entry.prev) == op.old_cid,
        entry.idx == i,
        entry.rev@ == rev,
        entry.space_id@ == space.id@,
        entry.author_did@ == author_did,
        entry.created_at@ == now,
{
}

/// A space is administered by its authority and by super admins, and by nobody
/// else; whoever is refused is forbidden it.
pub proof fn law_who_administers_a_space(space: Space, did: Seq<char>, is_super: Option<i32>)
    ensures
        admin_verdict(space, space.authority_did@, is_super) is Ok,
        is_super matches Some(n) && n != 0 ==> admin_verdict(space, did, is_super) is Ok,
        did != space.authority_did@ && (is_super is None || is_super == Some(0i32)) ==> admin_verdict(
            space,
            did,
            is_super,
        ) matches Err(ErrorView::Forbidden(_)),
{
}

/// A space takes every collection unless its configuration lists some, and then
/// just those.
pub proof fn law_which_collections_a_space_takes(
    space: Space,
    collection: Seq<char>,
    listed: Seq<Seq<char>>,
)
    ensures
        types::extra_value(space.config, "allowedCollections"@) is None ==> collection_verdict(
            space,
            collection,
        ) is Ok,
        (types::extra_value(space.config, "allowedCollections"@) matches Some(value)
            && value.as_list() is None) ==> collection_verdict(space, collection) is Ok,
        types::extra_value(space.config, "allowedCollections"@) == Some(
            JsonView::List(listed.map_values(|t: Seq<char>| JsonView::Text(t))),
        ) ==> (collection_verdict(space, collection) is Ok <==> listed.len() == 0 || listed.contains(
            collection,
        )),
        collection_verdict(space, collection) matches Err(error) ==> error is BadRequest,
{
    let items = listed.map_values(|t: Seq<char>| JsonView::Text(t));
    if listed.contains(collection) {
        let i = choose|i: int| 0 <= i < listed.len() && listed[i] == collection;
        assert(items[i] == JsonView::Text(collection));
        assert(holds_text(items, collection));
    }
    if holds_text(items, collection) {
        let i = choose|i: int| 0 <= i < items.len() && (#[trigger] items[i]) == JsonView::Text(collection);
        assert(listed[i] == collection);
    }
}

/// Who is permitted what in a space. A credential for it that was not revoked
/// reads everything and writes nothing. Without one, a listed member is permitted
/// what the list grants, if that covers a write where one is asked for, and nobody
/// else anything; whoever is refused is forbidden it.
pub proof fn law_what_members_and_credentials_permit(
    space: Space,
    verified_sub: Option<Seq<char>>,
    revoked: bool,
    listed: Option<MemberAccess>,
    require_write: bool,
)
    ensures
        ({
            let by_credential = verified_sub == Some(native_sync::space_address(space)) && !revoked;
            let decided = membership_of(space, verified_sub, revoked, listed, require_write);
            &&& (by_credential && !require_write ==> (decided matches Ok(access) && access.read
                && !access.write && !access.read_self))
            &&& (by_credential && require_write ==> decided is Err)
            &&& (!by_credential ==> (decided is Ok <==> (listed matches Some(access) && (require_write
                ==> access.write))))
            &&& (!by_credential ==> (decided matches Ok(access) ==> listed == Some(access)))
            &&& (decided matches Err(error) ==> error is Forbidden)
        }),
{
}

/// A repo state is taken just if its set hash has the size of one.
pub proof fn law_set_hashes_have_one_size(len: nat)
    ensures
        lthash_verdict(len) is Ok <==> len == 2048,
        lthash_verdict(len) matches Err(error) ==> error is Internal,
{
}

/// What a host answered to a forwarded write is taken just if it succeeded and is
/// JSON, and then as it is.
pub proof fn law_forwarded_answers_are_taken_as_they_are(
    method: Seq<char>,
    success: bool,
    body: Seq<u8>,
    detail: Seq<char>,
    value: JsonView,
)
    ensures
        forwarded_of(method, success, body, detail) == Ok::<JsonView, ErrorView>(value) <==> success
            && crate::json::json_parsed(body) == crate::json::json_ok(value),
        !success ==> forwarded_of(method, success, body, detail) matches Err(ErrorView::BadGateway(_)),
{
}

/// A record that is stored is its author's, in the collection and under the key
/// that were given, with the value that was given and the CID of its content; and
/// its address, if its parts are path segments, is read back as those parts.
pub proof fn law_new_records_are_as_given(
    space: Space,
    did: Seq<char>,
    collection: Seq<char>,
    rkey: Seq<char>,
    record: JsonView,
    now: Seq<char>,
)
    ensures
        new_record_of(space, did, collection, rkey, record, now) is Ok <==> ipld::record_cid(record)
            is Some,
        new_record_of(space, did, collection, rkey, record, now) matches Err(error) ==> error
            is BadRequest,
        new_record_of(space, did, collection, rkey, record, now) matches Ok(r) ==> {
            &&& r.space_id == space.id@
            &&& r.author_did == did
            &&& r.collection == collection
            &&& r.rkey == rkey
            &&& r.record == record
            &&& Some(r.cid) == ipld::record_cid(record)
            &&& r.indexed_at == now
        },
        new_record_of(space, did, collection, rkey, record, now) matches Ok(r) ==> (
        crate::spaces::uri::is_segment(space.did@) && crate::spaces::uri::is_segment(space.type_nsid@)
            && crate::spaces::uri::is_segment(space.skey@) && crate::spaces::uri::is_segment(did)
            && crate::spaces::uri::is_segment(collection) && crate::spaces::uri::is_segment(rkey)
            ==> crate::spaces::uri::parsed_uri(r.uri) == Ok::<
            crate::spaces::uri::SpaceUriView,
            ErrorView,
        >(
            crate::spaces::uri::SpaceUriView {
                did: space.did@,
                type_nsid: space.type_nsid@,
                skey: space.skey@,
                user_did: Some(did),
                collection: Some(collection),
                rkey: Some(rkey),
            },
        )),
{
    let uri = crate::spaces::uri::SpaceUriView {
        did: space.did@,
        type_nsid: space.type_nsid@,
        skey: space.skey@,
        user_did: Some(did),
        collection: Some(collection),
        rkey: Some(rkey),
    };
    if uri.well_formed() {
        crate::spaces::uri::law_parse_of_text(uri);
    }
}

/// A space is made just under an address that has both parts and is free.
pub proof fn law_when_spaces_are_made(type_nsid: Seq<char>, skey: Seq<char>, taken: bool)
    ensures
        new_space_verdict(type_nsid, skey, taken) is Ok <==> type_nsid.len() > 0 && skey.len() > 0
            && !taken,
        type_nsid.len() == 0 || skey.len() == 0 ==> new_space_verdict(type_nsid, skey, taken)
            matches Err(ErrorView::BadRequest(_)),
        type_nsid.len() > 0 && skey.len() > 0 && taken ==> new_space_verdict(type_nsid, skey, taken)
            matches Err(ErrorView::Conflict(_)),
{
}

/// What a creator configures is kept: under every key that they gave, and under
/// every other but that of the collections nothing is added.
pub proof fn law_configuration_is_kept(
    extra: Seq<(Seq<char>, JsonView)>,
    declared: Option<Seq<Seq<char>>>,
    key: Seq<char>,
)
    ensures
        crate::json::lookup(extra, key) is Some ==> crate::json::lookup(configured(extra, declared), key)
            == crate::json::lookup(extra, key),
        key != "allowedCollections"@ ==> crate::json::lookup(configured(extra, declared), key)
            == crate::json::lookup(extra, key),
        declared is None || declared == Some(Seq::<Seq<char>>::empty()) ==> configured(extra, declared)
            == extra,
{
    let all = configured(extra, declared);
    if all != extra {
        assert(all.drop_last() =~= extra);
    }
}

/// A new space belongs to its creator, stands under the address that was asked
/// for, holds what its creator said of it, and what they did not say is the
/// default: its members read and write it, through any application, and neither
/// its members nor its records are public.
pub proof fn law_new_spaces_are_as_asked_for(
    space: Space,
    did: Seq<char>,
    type_nsid: Seq<char>,
    skey: Seq<char>,
    details: SpaceDetails,
    declared: Option<Seq<Seq<char>>>,
    now: Seq<char>,
)
    requires
        is_new_space(space, did, type_nsid, skey, details, declared, now),
    ensures
        admin_verdict(space, did, None) is Ok,
        native_sync::space_address(space) == crate::spaces::uri::space_text(did, type_nsid, skey),
        space.creator_did@ == did,
        space.display_name == details.display_name,
        space.description == details.description,
        details.read_policy is Some ==> Some(space.read_policy) == details.read_policy,
        details.read_policy is None ==> space.read_policy is MemberList,
        details.write_policy is Some ==> Some(space.write_policy) == details.write_policy,
        details.write_policy is None ==> space.write_policy is MemberList,
        details.app_access is Some ==> Some(space.app_access) == details.app_access,
        details.app_access is None ==> space.app_access is Open,
        details.config matches Some(c) ==> space.config.membership_public == c.membership_public
            && space.config.records_public == c.records_public,
        details.config is None ==> !space.config.membership_public && !space.config.records_public,
        space.revision is None,
        space.created_at@ == now,
        space.updated_at@ == now,
{
}

/// A new member is who was named, in the space that was named, with just the grant
/// that was given and in the name of who gave it.
pub proof fn law_new_members_are_as_granted(
    member: SpaceMember,
    space_id: Seq<char>,
    did: Seq<char>,
    access: MemberAccess,
    is_delegation: bool,
    granted_by: Seq<char>,
    now: Seq<char>,
)
    requires
        is_new_member(member, space_id, did, access, is_delegation, granted_by, now),
    ensures
        member.space_id@ == space_id,
        member.did@ == did,
        member.access.read == access.read && member.access.write == access.write
            && member.access.read_self == access.read_self,
        member.is_delegation <==> is_delegation,
        member.granted_by matches Some(by) && by@ == granted_by,
        member.created_at@ == now,
{
}

/// Putting a member grants what is asked for, whatever they had before.
pub proof fn law_put_grants_what_is_asked(access: MemberAccess, existing: Option<MemberAccess>)
    ensures
        put_access(access, existing).read == access.read,
        put_access(access, existing).write == access.write,
{
}

/// What is not given stays, and what is given takes its place.
pub proof fn law_replacing_takes_what_is_given<T>(old: T, new: T)
    ensures
        replaced(old, None) == old,
        replaced(old, Some(new)) == new,
{
}

/// An invitation can be redeemed just until it is revoked, used up or past its
/// time; one without a limit never is used up, and one without a time never
/// passes.
pub proof fn law_when_invites_can_be_redeemed(invite: SpaceInvite, now: Seq<char>)
    ensures
        invite_verdict(invite, now) is Ok <==> !invite.revoked && (invite.max_uses matches Some(max)
            ==> invite.uses < max) && (invite.expires_at matches Some(expires) ==> !text::text_before(
            expires@,
            now,
        )),
        invite_verdict(invite, now) matches Err(error) ==> error is BadRequest,
{
}

/// Commits are signed with the key that is stored, and just where there is one and
/// an encryption key to read it with.
pub proof fn law_commits_are_signed_with_the_stored_key(
    has_encryption_key: bool,
    stored: Option<Seq<u8>>,
    key: Seq<u8>,
)
    ensures
        loaded_key_of(stored) == Ok::<Seq<u8>, ErrorView>(key) <==> stored == Some(key),
        service_key_of(has_encryption_key, stored) == Ok::<Seq<u8>, ErrorView>(key) <==> has_encryption_key
            && stored == Some(key),
{
}

/// A record's content has a CID just if it can be encoded, and then that one.
pub proof fn law_content_has_the_cid_of_its_encoding(record: JsonView, cid: Seq<char>)
    ensures
        content_cid_of(record) == Ok::<Seq<char>, ErrorView>(cid) <==> ipld::record_cid(record) == Some(
            cid,
        ),
        content_cid_of(record) matches Err(error) ==> error is BadRequest,
{
}

/// Sealing a repo's state keeps whose it is, where it is hosted and how far it was
/// synced, and takes the new set hash.
pub proof fn law_sealing_keeps_the_rest(
    before: RepoState,
    after: RepoState,
    commit: SignedCommit,
    set_hash: Seq<u8>,
)
    requires
        sealed(before, after, commit, set_hash),
    ensures
        after.space_id == before.space_id,
        after.author_did == before.author_did,
        after.host_mode == before.host_mode,
        after.sync_cursor == before.sync_cursor,
        after.lthash_state@ == set_hash,
        after.rev matches Some(rev) && rev@ == commit.rev@,
{
}

} // verus!
