//! Reading a permissioned repo from the user's own PDS.
//!
//! Used to verify a migration and to keep a repo in step once it is native. The
//! requests are made elsewhere; here is what to ask, and what the answers mean.
use vstd::prelude::*;

use crate::error::{AppError, ErrorView};
use crate::json::{Json, JsonView};
use crate::profile;
use crate::profile::DidDocument;
use crate::spaces::commit;
use crate::spaces::commit::{CommitView, SignedCommit, SpaceKeyView, SpaceVerifyingKey};
use crate::spaces::credential;
use crate::text;

verus! {

/// What an oplog entry did to its record.
#[derive(Debug, Clone, Copy, PartialEq, Eq, Structural)]
pub enum OpAction {
    Create,
    Update,
    Delete,
}

/// One entry from `listRepoOps`.
#[derive(Debug)]
pub struct RepoOp {
    pub rev: String,
    pub action: OpAction,
    pub collection: String,
    pub rkey: String,
    pub cid: Option<String>,
    pub prev: Option<String>,
    /// Inlined record value. Absent for a delete, when the caller asked for
    /// metadata only, or when a later op has superseded this one.
    pub value: Option<Json>,
}

/// What a [`RepoOp`] says.
#[verifier::ext_equal]
pub struct OpView {
    pub rev: Seq<char>,
    pub action: OpAction,
    pub collection: Seq<char>,
    pub rkey: Seq<char>,
    pub cid: Option<Seq<char>>,
    pub prev: Option<Seq<char>>,
    pub value: Option<JsonView>,
}

impl View for RepoOp {
    type V = OpView;

    open spec fn view(&self) -> OpView {
        OpView {
            rev: self.rev@,
            action: self.action,
            collection: self.collection@,
            rkey: self.rkey@,
            cid: text::opt_text(self.cid),
            prev: text::opt_text(self.prev),
            value: match self.value {
                Some(value) => Some(value@),
                None => None,
            },
        }
    }
}

/// What a list of ops says.
pub open spec fn op_views(ops: Seq<RepoOp>) -> Seq<OpView> {
    ops.map_values(|op: RepoOp| op@)
}

/// What an entry did, by which of its CIDs are null: a null `cid` is a delete, a
/// null `prev` a create, and both present an update.
pub open spec fn implied_action(cid: Option<Seq<char>>, prev: Option<Seq<char>>) -> Option<OpAction> {
    match (cid, prev) {
        (None, Some(_)) => Some(OpAction::Delete),
        (Some(_), None) => Some(OpAction::Create),
        (Some(_), Some(_)) => Some(OpAction::Update),
        (None, None) => None,
    }
}

/// The failure for an entry without a field.
pub open spec fn missing_field(field: Seq<char>) -> ErrorView {
    ErrorView::Internal("listRepoOps entry is missing "@ + field)
}

/// What an entry of `listRepoOps` says.
pub open spec fn op_of_entry(entry: JsonView) -> Result<OpView, ErrorView> {
    let cid = entry.get_str("cid"@);
    let prev = entry.get_str("prev"@);
    match implied_action(cid, prev) {
        None => Err(ErrorView::Internal("listRepoOps entry has neither cid nor prev"@)),
        Some(action) => match entry.get_str("rev"@) {
            None => Err(missing_field("rev"@)),
            Some(rev) => match entry.get_str("collection"@) {
                None => Err(missing_field("collection"@)),
                Some(collection) => match entry.get_str("rkey"@) {
                    None => Err(missing_field("rkey"@)),
                    Some(rkey) => Ok(
                        OpView {
                            rev,
                            action,
                            collection,
                            rkey,
                            cid,
                            prev,
                            value: match entry.get("value"@) {
                                Some(JsonView::Null) => None,
                                other => other,
                            },
                        },
                    ),
                },
            },
        },
    }
}

/// What entries of `listRepoOps` say. One that is malformed fails them all.
pub open spec fn ops_of_entries(entries: Seq<JsonView>) -> Result<Seq<OpView>, ErrorView>
    decreases entries.len(),
{
    if entries.len() == 0 {
        Ok(Seq::empty())
    } else {
        match ops_of_entries(entries.drop_last()) {
            Err(error) => Err(error),
            Ok(ops) => match op_of_entry(entries.last()) {
                Err(error) => Err(error),
                Ok(op) => Ok(ops.push(op)),
            },
        }
    }
}

/// What a page of `listRepoOps` says: its ops, and where the next page begins.
pub open spec fn page_of(body: JsonView) -> Result<(Seq<OpView>, Option<Seq<char>>), ErrorView> {
    match body.get("ops"@) {
        Some(JsonView::List(entries)) => match ops_of_entries(entries) {
            Ok(ops) => Ok((ops, body.get_str("cursor"@))),
            Err(error) => Err(error),
        },
        _ => Err(ErrorView::Internal("listRepoOps returned no ops array"@)),
    }
}

fn require_field(entry: &Json, field: &str) -> (value: Result<String, AppError>)
    ensures
        match value {
            Ok(v) => entry@.get_str(field@) == Some(v@),
            Err(e) => entry@.get_str(field@) is None && e@ == missing_field(field@),
        },
{
    match entry.get_str(field) {
        Some(value) => Ok(value.to_owned()),
        None => Err(AppError::Internal(text::cat2("listRepoOps entry is missing ", field))),
    }
}

fn optional_field(entry: &Json, field: &str) -> (value: Option<String>)
    ensures
        text::opt_text(value) == entry@.get_str(field@),
{
    match entry.get_str(field) {
        Some(value) => Some(value.to_owned()),
        None => None,
    }
}

fn read_op(entry: &Json) -> (op: Result<RepoOp, AppError>)
    ensures
        crate::error::outcome(op) == op_of_entry(entry@),
{
    let cid = optional_field(entry, "cid");
    let prev = optional_field(entry, "prev");
    let action = match (&cid, &prev) {
        (None, Some(_)) => OpAction::Delete,
        (Some(_), None) => OpAction::Create,
        (Some(_), Some(_)) => OpAction::Update,
        (None, None) => {
            return Err(
                AppError::Internal("listRepoOps entry has neither cid nor prev".to_owned()),
            );
        },
    };
    let rev = match require_field(entry, "rev") {
        Ok(rev) => rev,
        Err(error) => {
            return Err(error);
        },
    };
    let collection = match require_field(entry, "collection") {
        Ok(collection) => collection,
        Err(error) => {
            return Err(error);
        },
    };
    let rkey = match require_field(entry, "rkey") {
        Ok(rkey) => rkey,
        Err(error) => {
            return Err(error);
        },
    };
    let value: Option<Json> = match entry.get("value") {
        Some(Json::Null) => None,
        Some(value) => Some(value.copy()),
        None => None,
    };
    Ok(RepoOp { rev, action, collection, rkey, cid, prev, value })
}

/// Reads one page of a `listRepoOps` response into its ops and next cursor.
///
/// An entry carries no action: it is implied by which CIDs are null. A malformed
/// entry fails the whole page. Skipping it would apply the rest, and the set
/// hash would then disagree for a reason no log explains.
pub fn parse_repo_ops_page(body: &Json) -> (page: Result<(Vec<RepoOp>, Option<String>), AppError>)
    ensures
        match page {
            Ok((ops, cursor)) => page_of(body@) == Ok::<(Seq<OpView>, Option<Seq<char>>), ErrorView>(
                (op_views(ops@), text::opt_text(cursor)),
            ),
            Err(error) => page_of(body@) == Err::<(Seq<OpView>, Option<Seq<char>>), ErrorView>(error@),
        },
{
    let list: Option<&Vec<Json>> = match body.get("ops") {
        Some(value) => value.as_list(),
        None => None,
    };
    let entries = match list {
        Some(entries) => entries,
        None => {
            return Err(AppError::Internal("listRepoOps returned no ops array".to_owned()));
        },
    };
    let ghost views = crate::json::json_views(entries@);
    let mut ops: Vec<RepoOp> = Vec::new();
    assert(op_views(ops@) =~= Seq::empty());
    for i in 0..entries.len()
        invariant
            views == crate::json::json_views(entries@),
            body@.get("ops"@) == Some(JsonView::List(views)),
            ops_of_entries(views.take(i as int)) == Ok::<Seq<OpView>, ErrorView>(op_views(ops@)),
    {
        let ghost before = op_views(ops@);
        assert(views.take(i + 1).drop_last() =~= views.take(i as int));
        assert(views.take(i + 1).last() == entries@[i as int]@);
        match read_op(&entries[i]) {
            Ok(op) => {
                ops.push(op);
                assert(op_views(ops@) =~= before.push(op@));
            },
            Err(error) => {
                proof {
                    lemma_error_stays(views, i + 1);
                }
                return Err(error);
            },
        }
    }
    assert(views.take(views.len() as int) =~= views);
    let cursor = optional_field(body, "cursor");
    Ok((ops, cursor))
}

proof fn lemma_error_stays(entries: Seq<JsonView>, n: int)
    requires
        0 <= n <= entries.len(),
        ops_of_entries(entries.take(n)) is Err,
    ensures
        ops_of_entries(entries) == ops_of_entries(entries.take(n)),
    decreases entries.len() - n,
{
    if n < entries.len() {
        assert(entries.take(n + 1).drop_last() =~= entries.take(n));
        lemma_error_stays(entries, n + 1);
    } else {
        assert(entries.take(n) =~= entries);
    }
}

/// A walk over the pages of `listRepoOps`.
///
/// Reading only the first page does more than slow a sync down: the next sync
/// starts from the same cursor, gets the same page, and never catches up.
pub struct OpsPager {
    space: String,
    author: String,
    since: Option<String>,
    all: Vec<RepoOp>,
    cursor: Option<String>,
}

/// What a pager is about, and what it has read.
#[verifier::ext_equal]
pub struct PagerView {
    pub space: Seq<char>,
    pub author: Seq<char>,
    pub since: Option<Seq<char>>,
    pub all: Seq<OpView>,
    pub cursor: Option<Seq<char>>,
}

impl View for OpsPager {
    type V = PagerView;

    closed spec fn view(&self) -> PagerView {
        PagerView {
            space: self.space@,
            author: self.author@,
            since: text::opt_text(self.since),
            all: op_views(self.all@),
            cursor: text::opt_text(self.cursor),
        }
    }
}

/// The parameters of a query.
pub open spec fn param_views(params: Seq<(&'static str, String)>) -> Seq<(Seq<char>, Seq<char>)> {
    params.map_values(|p: (&'static str, String)| (p.0@, p.1@))
}

/// What to ask for next. A continuation also carries the last rev seen, as
/// `since`: a conforming host gives `cursor` precedence and ignores it, and one
/// that pages by `since` alone would otherwise serve the first page forever.
pub open spec fn page_request(pager: PagerView) -> Seq<(Seq<char>, Seq<char>)> {
    let base = seq![("space"@, pager.space), ("repo"@, pager.author)];
    match pager.cursor {
        None => match pager.since {
            Some(since) => base.push(("since"@, since)),
            None => base,
        },
        Some(cursor) => if pager.all.len() > 0 {
            base.push(("cursor"@, cursor)).push(("since"@, pager.all.last().rev))
        } else {
            base.push(("cursor"@, cursor))
        },
    }
}

/// What becomes of a walk with one more page: the walk so far with where it goes
/// on, or, without a next cursor, all that was read.
pub open spec fn page_taken(pager: PagerView, body: JsonView) -> Result<(PagerView, bool), ErrorView> {
    match page_of(body) {
        Err(error) => Err(error),
        Ok((ops, next)) => match next {
            None => Ok((PagerView { all: pager.all + ops, ..pager }, true)),
            Some(cursor) => if pager.cursor == Some(cursor) {
                Err(ErrorView::Internal("listRepoOps returned the same cursor twice"@))
            } else {
                Ok((PagerView { all: pager.all + ops, cursor: next, ..pager }, false))
            },
        },
    }
}

/// Where a walk over pages stands.
pub enum PageStep {
    /// There are more pages.
    More(OpsPager),
    /// These are all ops.
    Done(Vec<RepoOp>),
}

impl OpsPager {
    /// What to ask for next.
    pub fn request(&self) -> (params: Vec<(&'static str, String)>)
        ensures
            param_views(params@) == page_request(self@),
    {
        let mut params: Vec<(&'static str, String)> = Vec::new();
        params.push(("space", self.space.clone()));
        params.push(("repo", self.author.clone()));
        match &self.cursor {
            None => {
                if let Some(since) = &self.since {
                    params.push(("since", since.clone()));
                }
            },
            Some(cursor) => {
                params.push(("cursor", cursor.clone()));
                let n = self.all.len();
                if n > 0 {
                    assert(self@.all.last() == self.all@[n - 1]@);
                    params.push(("since", self.all[n - 1].rev.clone()));
                }
            },
        }
        assert(param_views(params@) =~= page_request(self@));
        params
    }

    /// Takes the page that was asked for.
    pub fn on_page(self, body: &Json) -> (step: Result<PageStep, AppError>)
        ensures
            match step {
                Ok(PageStep::More(pager)) => page_taken(self@, body@) == Ok::<(PagerView, bool), ErrorView>(
                    (pager@, false),
                ),
                Ok(PageStep::Done(ops)) => page_taken(self@, body@) matches Ok((pager, true))
                    && pager.all == op_views(ops@),
                Err(error) => page_taken(self@, body@) == Err::<(PagerView, bool), ErrorView>(error@),
            },
    {
        let (mut ops, next) = match parse_repo_ops_page(body) {
            Ok(page) => page,
            Err(error) => {
                return Err(error);
            },
        };
        let ghost taken = op_views(ops@);
        let ghost before = self@.all;
        let mut all = self.all;
        all.append(&mut ops);
        assert(op_views(all@) =~= before + taken);
        match next {
            Some(next) => {
                let same = match &self.cursor {
                    Some(cursor) => text::same_text(cursor.as_str(), next.as_str()),
                    None => false,
                };
                if same {
                    return Err(
                        AppError::Internal("listRepoOps returned the same cursor twice".to_owned()),
                    );
                }
                Ok(
                    PageStep::More(
                        OpsPager {
                            space: self.space,
                            author: self.author,
                            since: self.since,
                            all,
                            cursor: Some(next),
                        },
                    ),
                )
            },
            None => Ok(PageStep::Done(all)),
        }
    }
}

/// Begins a walk over every page of the ops of an author in a space since a
/// revision. Reading only the first page does more than slow a sync down: the
/// next sync starts from the same cursor, gets the same page, and never catches
/// up.
pub fn collect_repo_ops(space_uri: &str, author_did: &str, since: Option<&str>) -> (pager: OpsPager)
    ensures
        pager@ == (PagerView {
            space: space_uri@,
            author: author_did@,
            since: text::opt_str(since),
            all: Seq::empty(),
            cursor: None,
        }),
{
    let since: Option<String> = match since {
        Some(s) => Some(s.to_owned()),
        None => None,
    };
    let pager = OpsPager {
        space: space_uri.to_owned(),
        author: author_did.to_owned(),
        since,
        all: Vec::new(),
        cursor: None,
    };
    assert(pager@.all =~= Seq::empty());
    pager
}

/// What a walk has come to after pages: the walk so far, or all that was read.
pub open spec fn pages_taken(pager: PagerView, bodies: Seq<JsonView>) -> Result<
    (PagerView, bool),
    ErrorView,
>
    decreases bodies.len(),
{
    if bodies.len() == 0 {
        Ok((pager, false))
    } else {
        match pages_taken(pager, bodies.drop_last()) {
            Ok((so_far, false)) => page_taken(so_far, bodies.last()),
            other => other,
        }
    }
}

/// The ops of pages, one page behind the other.
pub open spec fn ops_of_pages(bodies: Seq<JsonView>) -> Seq<OpView>
    decreases bodies.len(),
{
    if bodies.len() == 0 {
        Seq::empty()
    } else {
        ops_of_pages(bodies.drop_last()) + page_of(bodies.last())->Ok_0.0
    }
}

/// Whether a walk goes on.
pub open spec fn goes_on(taken: Result<(PagerView, bool), ErrorView>) -> bool {
    match taken {
        Ok((_, done)) => !done,
        Err(_) => false,
    }
}

/// A walk that is done has every op of every page, in order, and was done with
/// the last page: that one, and no earlier one, has no next cursor.
pub proof fn law_every_page_is_collected(pager: PagerView, bodies: Seq<JsonView>)
    requires
        pager.all.len() == 0,
    ensures
        bodies.len() > 0 && goes_on(pages_taken(pager, bodies.drop_last())) ==> match pages_taken(
            pager,
            bodies,
        ) {
            Ok((done, true)) => done.all == ops_of_pages(bodies) && page_of(bodies.last())->Ok_0.1 is None,
            _ => true,
        },
        goes_on(pages_taken(pager, bodies)) ==> pages_taken(pager, bodies)->Ok_0.0.all == ops_of_pages(bodies),
    decreases bodies.len(),
{
    if bodies.len() > 0 {
        law_every_page_is_collected(pager, bodies.drop_last());
    } else {
        assert(pager.all =~= Seq::empty());
    }
}

/// A page whose cursor does not advance is refused, so that a walk cannot go in
/// a circle of one.
pub proof fn law_stuck_cursor_is_an_error(pager: PagerView, body: JsonView)
    requires
        pager.cursor is Some,
        page_of(body) matches Ok((_, next)) && next == pager.cursor,
    ensures
        page_taken(pager, body) is Err,
{
}

/// A field of 32 bytes.
pub open spec fn bytes_32(value: JsonView, field: Seq<char>) -> Result<Seq<u8>, ErrorView> {
    match commit::lex_bytes(value, field) {
        Err(error) => Err(error),
        Ok(bytes) => if bytes.len() == 32 {
            Ok(bytes)
        } else {
            Err(ErrorView::Internal("commit "@ + field + " is not 32 bytes"@))
        },
    }
}

fn decode_32(value: &Json, field: &str) -> (bytes: Result<[u8; 32], AppError>)
    ensures
        crate::error::outcome(bytes) == bytes_32(value@, field@),
{
    match commit::decode_lex_bytes(value, field) {
        Err(error) => Err(error),
        Ok(bytes) => if bytes.len() == 32 {
            Ok(crate::crypto::array_32(bytes.as_slice()))
        } else {
            Err(AppError::Internal(text::cat3("commit ", field, " is not 32 bytes")))
        },
    }
}

/// The version that a commit gives, in 32 bits; 0 if it gives none.
pub open spec fn version_of(value: JsonView) -> u32 {
    match value.get_u64("ver"@) {
        Some(n) => (n % 0x1_0000_0000) as u32,
        None => 0,
    }
}

/// The commit that a `signedCommit` value holds.
pub open spec fn signed_commit_of(value: JsonView) -> Result<CommitView, ErrorView> {
    match bytes_32(value, "hash"@) {
        Err(error) => Err(error),
        Ok(hash) => match bytes_32(value, "ikm"@) {
            Err(error) => Err(error),
            Ok(ikm) => match commit::lex_bytes(value, "sig"@) {
                Err(error) => Err(error),
                Ok(sig) => match bytes_32(value, "mac"@) {
                    Err(error) => Err(error),
                    Ok(mac) => match value.get_str("rev"@) {
                        None => Err(ErrorView::Internal("commit is missing rev"@)),
                        Some(rev) => Ok(
                            CommitView { ver: version_of(value), hash, ikm, sig, mac, rev },
                        ),
                    },
                },
            },
        },
    }
}

/// Reads a `signedCommit` as it appears in a `getLatestCommit` response.
pub fn parse_signed_commit(value: &Json) -> (commit: Result<SignedCommit, AppError>)
    ensures
        crate::error::outcome(commit) == signed_commit_of(value@),
{
    let wide: u64 = match value.get_u64("ver") {
        Some(n) => n,
        None => 0,
    };
    let ver: u32 = (wide % 0x1_0000_0000) as u32;
    let hash = match decode_32(value, "hash") {
        Ok(hash) => hash,
        Err(error) => {
            return Err(error);
        },
    };
    let ikm = match decode_32(value, "ikm") {
        Ok(ikm) => ikm,
        Err(error) => {
            return Err(error);
        },
    };
    let sig = match commit::decode_lex_bytes(value, "sig") {
        Ok(sig) => sig,
        Err(error) => {
            return Err(error);
        },
    };
    let mac = match decode_32(value, "mac") {
        Ok(mac) => mac,
        Err(error) => {
            return Err(error);
        },
    };
    let rev = match value.get_str("rev") {
        Some(rev) => rev.to_owned(),
        None => {
            return Err(AppError::Internal("commit is missing rev".to_owned()));
        },
    };
    Ok(SignedCommit { ver, hash, ikm, sig, mac, rev })
}

/// The key that a repo's commits are signed with: always the author's account
/// key. A space credential is signed by the space authority, which is another
/// question.
pub open spec fn author_key_of(methods: Seq<profile::VerificationMethod>, author_did: Seq<char>) -> Result<
    SpaceKeyView,
    ErrorView,
> {
    match profile::method_index(methods, "#atproto"@) {
        None => Err(
            ErrorView::Auth("author "@ + author_did + " has no #atproto verification method"@),
        ),
        Some(i) => match methods[i].public_key_multibase {
            None => Err(
                ErrorView::Auth("#atproto verification method missing publicKeyMultibase"@),
            ),
            Some(key) => credential::multikey_of(key@),
        },
    }
}

/// Resolves the key that a repo's commits are signed with from its author's DID
/// document.
pub fn author_signing_key(did_doc: &DidDocument, author_did: &str) -> (key: Result<
    SpaceVerifyingKey,
    AppError,
>)
    ensures
        crate::error::outcome(key) == author_key_of(did_doc.verification_method@, author_did@),
{
    match profile::find_method(&did_doc.verification_method, "#atproto") {
        None => Err(
            AppError::Auth(
                text::cat3("author ", author_did, " has no #atproto verification method"),
            ),
        ),
        Some(method) => match &method.public_key_multibase {
            None => Err(
                AppError::Auth(
                    "#atproto verification method missing publicKeyMultibase".to_owned(),
                ),
            ),
            Some(key) => credential::multikey_to_space_key(key.as_str()),
        },
    }
}

/// The parameters of `getLatestCommit` for an author in a space.
pub fn latest_commit_params(space_uri: &str, author_did: &str) -> (params: Vec<(&'static str, String)>)
    ensures
        param_views(params@) == seq![("space"@, space_uri@), ("repo"@, author_did@)],
{
    let mut params: Vec<(&'static str, String)> = Vec::new();
    params.push(("space", space_uri.to_owned()));
    params.push(("repo", author_did.to_owned()));
    assert(param_views(params@) =~= seq![("space"@, space_uri@), ("repo"@, author_did@)]);
    params
}

/// The commit that a `getLatestCommit` response holds.
pub open spec fn latest_commit_of(body: JsonView) -> Result<CommitView, ErrorView> {
    match body.get("commit"@) {
        None => Err(ErrorView::Internal("getLatestCommit returned no commit"@)),
        Some(value) => signed_commit_of(value),
    }
}

/// Reads the current signed commit of a repo out of a `getLatestCommit`
/// response.
pub fn get_latest_commit(body: &Json) -> (commit: Result<SignedCommit, AppError>)
    ensures
        crate::error::outcome(commit) == latest_commit_of(body@),
{
    match body.get("commit") {
        None => Err(AppError::Internal("getLatestCommit returned no commit".to_owned())),
        Some(value) => parse_signed_commit(value),
    }
}

/// Whether two ops are about the same record.
pub open spec fn same_record(a: OpView, b: OpView) -> bool {
    a.collection == b.collection && a.rkey == b.rkey
}

/// Whether no later op is about the same record.
pub open spec fn is_latest(ops: Seq<OpView>, i: int) -> bool {
    forall|j: int| i < j < ops.len() ==> !same_record(ops[i], #[trigger] ops[j])
}

/// Those of the first `n` ops that no later op supersedes, in log order.
pub open spec fn latest_of_first(ops: Seq<OpView>, n: nat) -> Seq<OpView>
    decreases n,
{
    if n == 0 {
        Seq::empty()
    } else if is_latest(ops, n - 1) {
        latest_of_first(ops, (n - 1) as nat).push(ops[n - 1])
    } else {
        latest_of_first(ops, (n - 1) as nat)
    }
}

/// The last op for each record, in log order.
pub open spec fn latest_ops(ops: Seq<OpView>) -> Seq<OpView> {
    latest_of_first(ops, ops.len())
}

/// What a list of borrowed ops says.
pub open spec fn op_ref_views(ops: Seq<&RepoOp>) -> Seq<OpView> {
    ops.map_values(|op: &RepoOp| op@)
}

fn superseded(ops: &Vec<RepoOp>, i: usize) -> (yes: bool)
    requires
        i < ops@.len(),
    ensures
        yes == !is_latest(op_views(ops@), i as int),
{
    let ghost views = op_views(ops@);
    for j in i + 1..ops.len()
        invariant
            i < ops@.len(),
            views == op_views(ops@),
            forall|k: int| i < k < j ==> !same_record(views[i as int], #[trigger] views[k]),
    {
        assert(views[i as int] == ops@[i as int]@);
        assert(views[j as int] == ops@[j as int]@);
        if text::same_text(ops[i].collection.as_str(), ops[j].collection.as_str())
            && text::same_text(ops[i].rkey.as_str(), ops[j].rkey.as_str()) {
            assert(same_record(views[i as int], views[j as int]));
            return true;
        }
    }
    false
}

/// The last op for each record, in log order.
///
/// A window of the oplog can touch one record several times, and the host
/// withholds the value of every op but the latest. Applying only each record's
/// final op is what the index needs, and it is the only order in which every op
/// applied carries a value.
pub fn latest_op_per_record(ops: &Vec<RepoOp>) -> (latest: Vec<&RepoOp>)
    ensures
        op_ref_views(latest@) == latest_ops(op_views(ops@)),
{
    let ghost views = op_views(ops@);
    let mut latest: Vec<&RepoOp> = Vec::new();
    assert(op_ref_views(latest@) =~= Seq::empty());
    for i in 0..ops.len()
        invariant
            views == op_views(ops@),
            op_ref_views(latest@) == latest_of_first(views, i as nat),
    {
        if !superseded(ops, i) {
            let ghost before = op_ref_views(latest@);
            latest.push(&ops[i]);
            assert(op_ref_views(latest@) =~= before.push(views[i as int]));
        }
    }
    latest
}

/// The CIDs of a repo's records, by collection and key, after an op.
pub open spec fn index_after(
    index: Map<(Seq<char>, Seq<char>), Seq<char>>,
    op: OpView,
) -> Map<(Seq<char>, Seq<char>), Seq<char>> {
    match op.cid {
        Some(cid) => index.insert((op.collection, op.rkey), cid),
        None => index.remove((op.collection, op.rkey)),
    }
}

/// The CIDs of a repo's records after ops, one behind the other.
pub open spec fn replayed(
    index: Map<(Seq<char>, Seq<char>), Seq<char>>,
    ops: Seq<OpView>,
) -> Map<(Seq<char>, Seq<char>), Seq<char>>
    decreases ops.len(),
{
    if ops.len() == 0 {
        index
    } else {
        index_after(replayed(index, ops.drop_last()), ops.last())
    }
}

/// The CID that the last op for a record leaves, if there is an op for it.
spec fn last_cid(ops: Seq<OpView>, key: (Seq<char>, Seq<char>)) -> Option<Option<Seq<char>>>
    decreases ops.len(),
{
    if ops.len() == 0 {
        None
    } else if (ops.last().collection, ops.last().rkey) == key {
        Some(ops.last().cid)
    } else {
        last_cid(ops.drop_last(), key)
    }
}

spec fn entry(index: Map<(Seq<char>, Seq<char>), Seq<char>>, key: (Seq<char>, Seq<char>)) -> Option<Seq<char>> {
    if index.contains_key(key) {
        Some(index[key])
    } else {
        None
    }
}

proof fn lemma_replayed_entry(
    index: Map<(Seq<char>, Seq<char>), Seq<char>>,
    ops: Seq<OpView>,
    key: (Seq<char>, Seq<char>),
)
    ensures
        entry(replayed(index, ops), key) == (match last_cid(ops, key) {
            Some(cid) => cid,
            None => entry(index, key),
        }),
    decreases ops.len(),
{
    if ops.len() > 0 {
        lemma_replayed_entry(index, ops.drop_last(), key);
    }
}

/// The last op for a key among the first `n`, if no op behind them has the key.
proof fn lemma_latest_keeps_last(ops: Seq<OpView>, n: nat, key: (Seq<char>, Seq<char>))
    requires
        n <= ops.len(),
    ensures
        (forall|j: int| n <= j < ops.len() ==> ((#[trigger] ops[j]).collection, ops[j].rkey) != key)
            ==> last_cid(latest_of_first(ops, n), key) == last_cid(ops.take(n as int), key),
        (exists|j: int| n <= j < ops.len() && ((#[trigger] ops[j]).collection, ops[j].rkey) == key)
            ==> last_cid(latest_of_first(ops, n), key) is None,
    decreases n,
{
    if n > 0 {
        let m = (n - 1) as nat;
        lemma_latest_keeps_last(ops, m, key);
        let op = ops[n - 1];
        let here = (op.collection, op.rkey) == key;
        assert(ops.take(n as int).drop_last() =~= ops.take(m as int));
        assert(ops.take(n as int).last() == op);
        if is_latest(ops, n - 1) {
            let kept = latest_of_first(ops, n);
            assert(kept.drop_last() =~= latest_of_first(ops, m));
            assert(kept.last() == op);
        }
        if exists|j: int| n <= j < ops.len() && ((#[trigger] ops[j]).collection, ops[j].rkey) == key {
            let j = choose|j: int| n <= j < ops.len() && ((#[trigger] ops[j]).collection, ops[j].rkey) == key;
            assert(m <= j < ops.len() && (ops[j].collection, ops[j].rkey) == key);
            if here {
                assert(same_record(ops[n - 1], ops[j]));
            }
        } else {
            if here {
                assert forall|j: int| n - 1 < j < ops.len() implies !same_record(ops[n - 1], #[trigger] ops[j]) by {
                    assert((ops[j].collection, ops[j].rkey) != key);
                }
                assert(is_latest(ops, n - 1));
            } else {
                assert forall|j: int| m <= j < ops.len() implies ((#[trigger] ops[j]).collection, ops[j].rkey)
                    != key by {
                    if j > m {
                        assert(n <= j);
                    }
                }
            }
        }
    }
}

/// Applying each record's final op leaves the same index as applying every op in
/// order.
pub proof fn law_latest_ops_suffice(index: Map<(Seq<char>, Seq<char>), Seq<char>>, ops: Seq<OpView>)
    ensures
        replayed(index, latest_ops(ops)) == replayed(index, ops),
{
    let a = replayed(index, latest_ops(ops));
    let b = replayed(index, ops);
    assert forall|key: (Seq<char>, Seq<char>)| entry(a, key) == entry(b, key) by {
        lemma_replayed_entry(index, ops, key);
        lemma_replayed_entry(index, latest_ops(ops), key);
        lemma_latest_keeps_last(ops, ops.len(), key);
        assert(ops.take(ops.len() as int) =~= ops);
    }
    assert forall|key: (Seq<char>, Seq<char>)| a.contains_key(key) <==> b.contains_key(key) by {
        assert(entry(a, key) == entry(b, key));
    }
    assert forall|key: (Seq<char>, Seq<char>)| a.contains_key(key) implies a[key] == b[key] by {
        assert(entry(a, key) == entry(b, key));
    }
    assert(a =~= b);
}

/// What an entry did is told by its CIDs: without one after it, it deleted; without
/// one before it, it created; with both, it updated; and an entry with neither did
/// nothing that can be told.
pub proof fn law_actions_are_implied_by_the_cids(cid: Option<Seq<char>>, prev: Option<Seq<char>>)
    ensures
        implied_action(cid, prev) is None <==> cid is None && prev is None,
        implied_action(cid, prev) == Some(OpAction::Delete) <==> cid is None && prev is Some,
        implied_action(cid, prev) == Some(OpAction::Create) <==> cid is Some && prev is None,
        implied_action(cid, prev) == Some(OpAction::Update) <==> cid is Some && prev is Some,
{
}

/// An entry is read field by field, each under its own name, and just if it has
/// those that it must have. A value of null is none.
pub proof fn law_entries_are_read_as_written(entry: JsonView)
    ensures
        op_of_entry(entry) matches Ok(op) ==> {
            &&& entry.get_str("rev"@) == Some(op.rev)
            &&& entry.get_str("collection"@) == Some(op.collection)
            &&& entry.get_str("rkey"@) == Some(op.rkey)
            &&& entry.get_str("cid"@) == op.cid
            &&& entry.get_str("prev"@) == op.prev
            &&& implied_action(op.cid, op.prev) == Some(op.action)
            &&& (op.value is None <==> entry.get("value"@) is None || entry.get("value"@) == Some(
                JsonView::Null,
            ))
            &&& (op.value is Some ==> op.value == entry.get("value"@))
        },
        op_of_entry(entry) is Ok <==> entry.get_str("rev"@) is Some && entry.get_str("collection"@) is Some
            && entry.get_str("rkey"@) is Some && (entry.get_str("cid"@) is Some || entry.get_str("prev"@)
            is Some),
{
}

/// A page gives the op of each of its entries, in order, and fails if one of them
/// cannot be read.
pub proof fn law_pages_give_every_op(entries: Seq<JsonView>)
    ensures
        ops_of_entries(entries) matches Ok(ops) ==> ops.len() == entries.len() && forall|i: int|
            0 <= i < ops.len() ==> op_of_entry(entries[i]) == Ok::<OpView, ErrorView>(#[trigger] ops[i]),
        ops_of_entries(entries) is Ok <==> forall|i: int|
            0 <= i < entries.len() ==> op_of_entry(#[trigger] entries[i]) is Ok,
    decreases entries.len(),
{
    if entries.len() > 0 {
        let head = entries.drop_last();
        law_pages_give_every_op(head);
        assert forall|i: int| 0 <= i < head.len() implies head[i] == entries[i] by {}
        if forall|i: int| 0 <= i < entries.len() ==> op_of_entry(#[trigger] entries[i]) is Ok {
            assert forall|i: int| 0 <= i < head.len() implies op_of_entry(#[trigger] head[i]) is Ok by {
                assert(op_of_entry(entries[i]) is Ok);
            }
            assert(op_of_entry(entries[entries.len() - 1]) is Ok);
        }
        if ops_of_entries(entries) is Ok {
            assert forall|i: int| 0 <= i < entries.len() implies op_of_entry(#[trigger] entries[i]) is Ok by {
                if i < head.len() {
                    assert(op_of_entry(head[i]) is Ok);
                }
            }
        }
    }
}

/// A page's ops are those of its list, and it goes on where its cursor says.
pub proof fn law_pages_go_on_at_their_cursor(body: JsonView)
    ensures
        page_of(body) matches Ok((ops, cursor)) ==> cursor == body.get_str("cursor"@) && (body.get("ops"@)
            matches Some(JsonView::List(entries)) && ops_of_entries(entries) == Ok::<
            Seq<OpView>,
            ErrorView,
        >(ops)),
        page_of(body) is Err ==> match body.get("ops"@) {
            Some(JsonView::List(entries)) => ops_of_entries(entries) is Err,
            _ => true,
        },
{
}

/// The value of a parameter of a request, if it has it just once.
pub open spec fn asked(params: Seq<(Seq<char>, Seq<char>)>, name: Seq<char>) -> Option<Seq<char>> {
    if exists|i: int| 0 <= i < params.len() && (#[trigger] params[i]).0 == name {
        let i = choose|i: int| 0 <= i < params.len() && (#[trigger] params[i]).0 == name;
        Some(params[i].1)
    } else {
        None
    }
}

proof fn lemma_asked_at(params: Seq<(Seq<char>, Seq<char>)>, i: int)
    requires
        0 <= i < params.len(),
        forall|j: int| 0 <= j < params.len() && (#[trigger] params[j]).0 == params[i].0 ==> j == i,
    ensures
        asked(params, params[i].0) == Some(params[i].1),
{
    let name = params[i].0;
    assert(params[i].0 == name);
    let k = choose|k: int| 0 <= k < params.len() && (#[trigger] params[k]).0 == name;
    assert(k == i);
}

/// Every request of a walk is about its space and its author's repo. The first one
/// asks for what came since the revision that the walk began with; every other one
/// goes on at the cursor, from the revision of the last op that was read.
pub proof fn law_requests_go_on_where_the_walk_is(pager: PagerView)
    ensures
        asked(page_request(pager), "space"@) == Some(pager.space),
        asked(page_request(pager), "repo"@) == Some(pager.author),
        asked(page_request(pager), "cursor"@) == pager.cursor,
        asked(page_request(pager), "since"@) == (if pager.cursor is None {
            pager.since
        } else if pager.all.len() > 0 {
            Some(pager.all.last().rev)
        } else {
            None
        }),
{
    reveal_strlit("space");
    reveal_strlit("repo");
    reveal_strlit("cursor");
    reveal_strlit("since");
    assert("space"@.len() == 5 && "repo"@.len() == 4 && "cursor"@.len() == 6 && "since"@.len() == 5);
    assert("space"@[1] == 'p' && "since"@[1] == 'i');
    let params = page_request(pager);
    assert(params[0] == ("space"@, pager.space) && params[1] == ("repo"@, pager.author));
    lemma_asked_at(params, 0);
    lemma_asked_at(params, 1);
    if params.len() > 2 {
        lemma_asked_at(params, 2);
    }
    if params.len() > 3 {
        lemma_asked_at(params, 3);
    }
}

/// A walk stays about the same space, repo and revision, adds the page's ops behind
/// those it has, and is done just when a page has no next cursor; otherwise it goes
/// on there.
pub proof fn law_walks_add_page_by_page(pager: PagerView, body: JsonView)
    ensures
        page_taken(pager, body) matches Ok((after, done)) ==> {
            let (ops, next) = page_of(body)->Ok_0;
            &&& page_of(body) is Ok
            &&& after.space == pager.space
            &&& after.author == pager.author
            &&& after.since == pager.since
            &&& after.all == pager.all + ops
            &&& (done <==> next is None)
            &&& (!done ==> after.cursor == next)
        },
        page_of(body) matches Ok((ops, next)) ==> (page_taken(pager, body) is Err <==> next is Some
            && next == pager.cursor),
        page_of(body) is Err ==> page_taken(pager, body) is Err,
{
}

/// Each field of a commit is read out of the member of its name. The three that are
/// hashes or keys have 32 bytes, and a commit that gives no version has version 0.
pub proof fn law_commits_are_read_field_by_field(value: JsonView)
    ensures
        signed_commit_of(value) matches Ok(c) ==> {
            &&& commit::lex_bytes(value, "hash"@) == Ok::<Seq<u8>, ErrorView>(c.hash)
            &&& commit::lex_bytes(value, "ikm"@) == Ok::<Seq<u8>, ErrorView>(c.ikm)
            &&& commit::lex_bytes(value, "sig"@) == Ok::<Seq<u8>, ErrorView>(c.sig)
            &&& commit::lex_bytes(value, "mac"@) == Ok::<Seq<u8>, ErrorView>(c.mac)
            &&& value.get_str("rev"@) == Some(c.rev)
            &&& c.hash.len() == 32 && c.ikm.len() == 32 && c.mac.len() == 32
            &&& (value.get_u64("ver"@) is None ==> c.ver == 0)
            &&& (value.get_u64("ver"@) matches Some(n) ==> n <= u32::MAX ==> c.ver == n)
        },
        signed_commit_of(value) is Ok <==> {
            &&& commit::lex_bytes(value, "hash"@) matches Ok(hash) && hash.len() == 32
            &&& commit::lex_bytes(value, "ikm"@) matches Ok(ikm) && ikm.len() == 32
            &&& commit::lex_bytes(value, "sig"@) is Ok
            &&& commit::lex_bytes(value, "mac"@) matches Ok(mac) && mac.len() == 32
            &&& value.get_str("rev"@) is Some
        },
{
}

/// The latest commit is the one under `commit`.
pub proof fn law_the_latest_commit_is_under_its_name(body: JsonView, value: JsonView)
    ensures
        body.get("commit"@) is None ==> latest_commit_of(body) is Err,
        body.get("commit"@) == Some(value) ==> latest_commit_of(body) == signed_commit_of(value),
{
}

/// Whether an op is one of the first `n` that no later op supersedes.
pub open spec fn stands(ops: Seq<OpView>, n: nat, op: OpView) -> bool {
    exists|k: int| 0 <= k < n && is_latest(ops, k) && #[trigger] ops[k] == op
}

proof fn lemma_latest_is_latest(ops: Seq<OpView>, n: nat)
    requires
        n <= ops.len(),
    ensures
        forall|i: int|
            0 <= i < latest_of_first(ops, n).len() ==> stands(
                ops,
                n,
                #[trigger] latest_of_first(ops, n)[i],
            ),
        forall|i: int, j: int|
            0 <= i < j < latest_of_first(ops, n).len() ==> !same_record(
                #[trigger] latest_of_first(ops, n)[i],
                #[trigger] latest_of_first(ops, n)[j],
            ),
    decreases n,
{
    if n > 0 {
        let m = (n - 1) as nat;
        lemma_latest_is_latest(ops, m);
        let before = latest_of_first(ops, m);
        let after = latest_of_first(ops, n);
        assert forall|i: int| 0 <= i < after.len() implies stands(ops, n, #[trigger] after[i]) by {
            if i < before.len() {
                assert(after[i] == before[i]);
                assert(stands(ops, m, before[i]));
                let k = choose|k: int|
                    0 <= k < m && is_latest(ops, k) && #[trigger] ops[k] == before[i];
                assert(ops[k] == after[i]);
            } else {
                assert(ops[n - 1] == after[i]);
            }
        }
        assert forall|i: int, j: int| 0 <= i < j < after.len() implies !same_record(
            #[trigger] after[i],
            #[trigger] after[j],
        ) by {
            assert(after[i] == before[i]);
            if j < before.len() {
                assert(after[j] == before[j]);
            } else {
                assert(stands(ops, m, before[i]));
                let k = choose|k: int|
                    0 <= k < m && is_latest(ops, k) && #[trigger] ops[k] == before[i];
                assert(!same_record(ops[k], ops[n - 1]));
            }
        }
    }
}

/// Of each record one op is left, and it is one that no later op supersedes.
pub proof fn law_one_op_is_left_of_each_record(ops: Seq<OpView>)
    ensures
        forall|i: int|
            0 <= i < latest_ops(ops).len() ==> stands(ops, ops.len(), #[trigger] latest_ops(ops)[i]),
        forall|i: int, j: int|
            0 <= i < j < latest_ops(ops).len() ==> !same_record(
                #[trigger] latest_ops(ops)[i],
                #[trigger] latest_ops(ops)[j],
            ),
{
    lemma_latest_is_latest(ops, ops.len());
}

/// A repo's commits are signed with the first account key that its author lists,
/// and with no other, also where a key for spaces is listed.
pub proof fn law_repos_are_signed_with_the_account_key(
    methods: Seq<profile::VerificationMethod>,
    author_did: Seq<char>,
)
    ensures
        match profile::method_index(methods, "#atproto"@) {
            Some(i) => match methods[i].public_key_multibase {
                Some(key) => author_key_of(methods, author_did) == credential::multikey_of(key@),
                None => author_key_of(methods, author_did) matches Err(ErrorView::Auth(_)),
            },
            None => author_key_of(methods, author_did) matches Err(ErrorView::Auth(_)),
        },
{
}

} // verus!
