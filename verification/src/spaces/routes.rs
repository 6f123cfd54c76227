//! The protocol's endpoints: which there are, who may call them, and what they
//! answer.
use vstd::prelude::*;

use crate::auth::{Claims, XrpcClaims};
use crate::crypto;
use crate::crypto::K256SigningKey;
use crate::error::{AppError, ErrorView};
use crate::json::{Json, JsonView};
use crate::record_refs;
use crate::spaces::auth;
use crate::spaces::auth::IssueStep;
use crate::spaces::commit;
use crate::spaces::commit::{CommitView, SignedCommit};
use crate::spaces::credential;
use crate::spaces::credential::{
    DelegationTokenClaims, DelegationView, SpaceCredentialClaims, DELEGATION_TOKEN_TTL_SECS,
};
use crate::spaces::native_client;
use crate::spaces::native_sync;
use crate::spaces::scope;
use crate::spaces::service;
use crate::spaces::types::{MemberAccess, RepoState, Space, SpaceRecord};
use crate::spaces::uri;
use crate::spaces::uri::SpaceUri;
use crate::text;
use crate::url;

verus! {

/// The namespace of the protocol's methods.
pub const PROTO_NS: &'static str = "com.atproto";

/// The namespace of the aliases that older clients call.
pub const LEGACY_NS: &'static str = "dev.happyview";

/// What an endpoint does.
#[derive(Debug, Clone, Copy, PartialEq, Eq, Structural)]
pub enum Endpoint {
    ListSpaces,
    GetRecord,
    ListRecords,
    GetLatestCommit,
    GetRepo,
    ListRepoOps,
    ListRepos,
    GetDelegationToken,
    GetSpaceCredential,
    CreateRecord,
    PutRecord,
    DeleteRecord,
    ApplyWrites,
    RegisterNotify,
    UnregisterNotify,
    ListBlobs,
    NotifyWrite,
    NotifySpaceDeleted,
    GetBlob,
    CreateInvite,
    AcceptInvite,
    RevokeInvite,
    ListInvites,
    GetSpace,
    CreateSpace,
    UpdateSpace,
    DeleteSpace,
    PutMember,
    RemoveMember,
    ListMembers,
    Describe,
}

impl Endpoint {
    /// Whether the endpoint is a query, which is asked with GET, rather than a
    /// procedure, which is called with POST.
    pub open spec fn queries(self) -> bool {
        match self {
            Endpoint::ListSpaces => true,
            Endpoint::GetRecord => true,
            Endpoint::ListRecords => true,
            Endpoint::GetLatestCommit => true,
            Endpoint::GetRepo => true,
            Endpoint::ListRepoOps => true,
            Endpoint::ListRepos => true,
            Endpoint::GetDelegationToken => true,
            Endpoint::ListBlobs => true,
            Endpoint::GetBlob => true,
            Endpoint::ListInvites => true,
            Endpoint::GetSpace => true,
            Endpoint::ListMembers => true,
            Endpoint::Describe => true,
            _ => false,
        }
    }

    /// Whether the endpoint is a query.
    pub fn is_query(self) -> (yes: bool)
        ensures
            yes == self.queries(),
    {
        match self {
            Endpoint::ListSpaces => true,
            Endpoint::GetRecord => true,
            Endpoint::ListRecords => true,
            Endpoint::GetLatestCommit => true,
            Endpoint::GetRepo => true,
            Endpoint::ListRepoOps => true,
            Endpoint::ListRepos => true,
            Endpoint::GetDelegationToken => true,
            Endpoint::ListBlobs => true,
            Endpoint::GetBlob => true,
            Endpoint::ListInvites => true,
            Endpoint::GetSpace => true,
            Endpoint::ListMembers => true,
            Endpoint::Describe => true,
            _ => false,
        }
    }

    /// The status with which the endpoint answers a request that succeeds: 201
    /// where something was made or put in place.
    pub open spec fn success_status(self) -> u16 {
        if self == Endpoint::CreateRecord || self == Endpoint::PutRecord || self
            == Endpoint::CreateInvite || self == Endpoint::AcceptInvite || self
            == Endpoint::CreateSpace || self == Endpoint::PutMember {
            201
        } else {
            200
        }
    }

    /// The status of an answer to a request that succeeded.
    pub fn status(self) -> (status: u16)
        ensures
            status == self.success_status(),
    {
        match self {
            Endpoint::CreateRecord => 201,
            Endpoint::PutRecord => 201,
            Endpoint::CreateInvite => 201,
            Endpoint::AcceptInvite => 201,
            Endpoint::CreateSpace => 201,
            Endpoint::PutMember => 201,
            _ => 200,
        }
    }
}

/// What a list of named endpoints says.
pub open spec fn method_views(table: Seq<(String, Endpoint)>) -> Seq<(Seq<char>, Endpoint)> {
    table.map_values(|m: (String, Endpoint)| (m.0@, m.1))
}

/// The protocol methods that this build serves.
pub open spec fn protocol_methods() -> Seq<(Seq<char>, Endpoint)> {
    seq![
        ("com.atproto.space.listSpaces"@, Endpoint::ListSpaces),
        ("com.atproto.space.getRecord"@, Endpoint::GetRecord),
        ("com.atproto.space.listRecords"@, Endpoint::ListRecords),
        ("com.atproto.space.getLatestCommit"@, Endpoint::GetLatestCommit),
        ("com.atproto.space.getRepoState"@, Endpoint::GetLatestCommit),
        ("com.atproto.space.getRepo"@, Endpoint::GetRepo),
        ("com.atproto.space.listRepoOps"@, Endpoint::ListRepoOps),
        ("com.atproto.space.listRepos"@, Endpoint::ListRepos),
        ("com.atproto.space.getDelegationToken"@, Endpoint::GetDelegationToken),
        ("com.atproto.space.getSpaceCredential"@, Endpoint::GetSpaceCredential),
        ("com.atproto.space.createRecord"@, Endpoint::CreateRecord),
        ("com.atproto.space.putRecord"@, Endpoint::PutRecord),
        ("com.atproto.space.deleteRecord"@, Endpoint::DeleteRecord),
        ("com.atproto.space.applyWrites"@, Endpoint::ApplyWrites),
        ("com.atproto.space.registerNotify"@, Endpoint::RegisterNotify),
        ("com.atproto.space.unregisterNotify"@, Endpoint::UnregisterNotify),
        ("com.atproto.space.listBlobs"@, Endpoint::ListBlobs),
        ("com.atproto.space.notifyWrite"@, Endpoint::NotifyWrite),
        ("com.atproto.space.notifySpaceDeleted"@, Endpoint::NotifySpaceDeleted),
        ("com.atproto.space.getBlob"@, Endpoint::GetBlob),
    ]
}

/// The protocol methods that this build serves.
///
/// The routes and the capability descriptor are both made from this, so the
/// advertisement cannot claim a method that does not route, or omit one that
/// does. `getRepoState` is an older name of `getLatestCommit` that other
/// implementations still call.
pub fn protocol_method_table() -> (table: Vec<(String, Endpoint)>)
    ensures
        method_views(table@) == protocol_methods(),
{
    let table = vec![
        ("com.atproto.space.listSpaces".to_owned(), Endpoint::ListSpaces),
        ("com.atproto.space.getRecord".to_owned(), Endpoint::GetRecord),
        ("com.atproto.space.listRecords".to_owned(), Endpoint::ListRecords),
        ("com.atproto.space.getLatestCommit".to_owned(), Endpoint::GetLatestCommit),
        ("com.atproto.space.getRepoState".to_owned(), Endpoint::GetLatestCommit),
        ("com.atproto.space.getRepo".to_owned(), Endpoint::GetRepo),
        ("com.atproto.space.listRepoOps".to_owned(), Endpoint::ListRepoOps),
        ("com.atproto.space.listRepos".to_owned(), Endpoint::ListRepos),
        ("com.atproto.space.getDelegationToken".to_owned(), Endpoint::GetDelegationToken),
        ("com.atproto.space.getSpaceCredential".to_owned(), Endpoint::GetSpaceCredential),
        ("com.atproto.space.createRecord".to_owned(), Endpoint::CreateRecord),
        ("com.atproto.space.putRecord".to_owned(), Endpoint::PutRecord),
        ("com.atproto.space.deleteRecord".to_owned(), Endpoint::DeleteRecord),
        ("com.atproto.space.applyWrites".to_owned(), Endpoint::ApplyWrites),
        ("com.atproto.space.registerNotify".to_owned(), Endpoint::RegisterNotify),
        ("com.atproto.space.unregisterNotify".to_owned(), Endpoint::UnregisterNotify),
        ("com.atproto.space.listBlobs".to_owned(), Endpoint::ListBlobs),
        ("com.atproto.space.notifyWrite".to_owned(), Endpoint::NotifyWrite),
        ("com.atproto.space.notifySpaceDeleted".to_owned(), Endpoint::NotifySpaceDeleted),
        ("com.atproto.space.getBlob".to_owned(), Endpoint::GetBlob),
    ];
    assert(method_views(table@) =~= protocol_methods());
    table
}

/// The methods beside the protocol: invites, which it has no equivalent of, and
/// the aliases that older clients call. They are served and never advertised.
pub open spec fn legacy_methods() -> Seq<(Seq<char>, Endpoint)> {
    seq![
        ("dev.happyview.space.createInvite"@, Endpoint::CreateInvite),
        ("dev.happyview.space.acceptInvite"@, Endpoint::AcceptInvite),
        ("dev.happyview.space.revokeInvite"@, Endpoint::RevokeInvite),
        ("dev.happyview.space.listInvites"@, Endpoint::ListInvites),
        ("dev.happyview.space.getSpace"@, Endpoint::GetSpace),
        ("dev.happyview.space.listSpaces"@, Endpoint::ListSpaces),
        ("dev.happyview.space.getRecord"@, Endpoint::GetRecord),
        ("dev.happyview.space.listRecords"@, Endpoint::ListRecords),
        ("dev.happyview.space.getMemberGrant"@, Endpoint::GetDelegationToken),
        ("dev.happyview.space.getSpaceCredential"@, Endpoint::GetSpaceCredential),
        ("dev.happyview.space.createRecord"@, Endpoint::CreateRecord),
        ("dev.happyview.space.putRecord"@, Endpoint::PutRecord),
        ("dev.happyview.space.deleteRecord"@, Endpoint::DeleteRecord),
        ("dev.happyview.space.applyWrites"@, Endpoint::ApplyWrites),
        ("dev.happyview.space.getBlob"@, Endpoint::GetBlob),
    ]
}

/// The methods beside the protocol.
pub fn legacy_method_table() -> (table: Vec<(String, Endpoint)>)
    ensures
        method_views(table@) == legacy_methods(),
{
    let table = vec![
        ("dev.happyview.space.createInvite".to_owned(), Endpoint::CreateInvite),
        ("dev.happyview.space.acceptInvite".to_owned(), Endpoint::AcceptInvite),
        ("dev.happyview.space.revokeInvite".to_owned(), Endpoint::RevokeInvite),
        ("dev.happyview.space.listInvites".to_owned(), Endpoint::ListInvites),
        ("dev.happyview.space.getSpace".to_owned(), Endpoint::GetSpace),
        ("dev.happyview.space.listSpaces".to_owned(), Endpoint::ListSpaces),
        ("dev.happyview.space.getRecord".to_owned(), Endpoint::GetRecord),
        ("dev.happyview.space.listRecords".to_owned(), Endpoint::ListRecords),
        ("dev.happyview.space.getMemberGrant".to_owned(), Endpoint::GetDelegationToken),
        ("dev.happyview.space.getSpaceCredential".to_owned(), Endpoint::GetSpaceCredential),
        ("dev.happyview.space.createRecord".to_owned(), Endpoint::CreateRecord),
        ("dev.happyview.space.putRecord".to_owned(), Endpoint::PutRecord),
        ("dev.happyview.space.deleteRecord".to_owned(), Endpoint::DeleteRecord),
        ("dev.happyview.space.applyWrites".to_owned(), Endpoint::ApplyWrites),
        ("dev.happyview.space.getBlob".to_owned(), Endpoint::GetBlob),
    ];
    assert(method_views(table@) =~= legacy_methods());
    table
}

/// The routes of methods: each below `/xrpc/`.
pub open spec fn routes_of(methods: Seq<(Seq<char>, Endpoint)>) -> Seq<(Seq<char>, Endpoint)> {
    methods.map_values(|m: (Seq<char>, Endpoint)| ("/xrpc/"@ + m.0, m.1))
}

/// The routes of some methods.
pub fn xrpc_routes(table: &Vec<(String, Endpoint)>) -> (routes: Vec<(String, Endpoint)>)
    ensures
        method_views(routes@) == routes_of(method_views(table@)),
{
    let mut routes: Vec<(String, Endpoint)> = Vec::new();
    for i in 0..table.len()
        invariant
            routes@.len() == i,
            forall|j: int|
                0 <= j < i ==> (#[trigger] routes@[j]).0@ == "/xrpc/"@ + table@[j].0@ && routes@[j].1
                    == table@[j].1,
    {
        routes.push((text::cat2("/xrpc/", table[i].0.as_str()), table[i].1));
    }
    assert(method_views(routes@) =~= routes_of(method_views(table@)));
    routes
}

/// The routes of the protocol's methods and of those beside it.
pub fn space_routes() -> (routes: Vec<(String, Endpoint)>)
    ensures
        method_views(routes@) == routes_of(protocol_methods() + legacy_methods()),
{
    let mut table = protocol_method_table();
    let mut legacy = legacy_method_table();
    let ghost a = table@;
    let ghost b = legacy@;
    table.append(&mut legacy);
    assert(method_views(table@) =~= method_views(a) + method_views(b));
    xrpc_routes(&table)
}

/// Who a request is from, where only a user counts.
pub fn require_auth(claims: &XrpcClaims) -> (result: Result<&Claims, AppError>)
    ensures
        match result {
            Ok(identity) => claims.identity == Some(*identity),
            Err(error) => claims.identity is None && error@ == ErrorView::Auth(
                "This endpoint requires authentication"@,
            ),
        },
{
    match &claims.identity {
        Some(identity) => Ok(identity),
        None => Err(AppError::Auth("This endpoint requires authentication".to_owned())),
    }
}

/// Where a caller's DID comes from.
pub enum CallerSource {
    /// From the session.
    Known(String),
    /// From a space credential, once that is verified.
    Credential(String),
}

/// Who a request is from, where a space credential counts too. The credential
/// is looked at only without a session.
pub fn auth_or_credential(claims: &XrpcClaims) -> (source: Result<CallerSource, AppError>)
    ensures
        match source {
            Ok(CallerSource::Known(did)) => claims.identity matches Some(identity) && identity.did@
                == did@,
            Ok(CallerSource::Credential(token)) => claims.identity is None && text::opt_text(
                claims.space_credential,
            ) == Some(token@),
            Err(error) => claims.identity is None && claims.space_credential is None && error@
                == ErrorView::Auth("This endpoint requires authentication"@),
        },
{
    match &claims.identity {
        Some(identity) => Ok(CallerSource::Known(identity.did.clone())),
        None => match &claims.space_credential {
            Some(token) => Ok(CallerSource::Credential(token.clone())),
            None => Err(AppError::Auth("This endpoint requires authentication".to_owned())),
        },
    }
}

/// Whom a verified credential stands for, unless it was revoked.
pub fn credential_caller(verified: SpaceCredentialClaims, revoked: bool) -> (did: Result<
    String,
    AppError,
>)
    ensures
        crate::error::outcome(did) == (if revoked {
            Err(ErrorView::Auth("space credential has been revoked"@))
        } else {
            Ok(verified.sub@)
        }),
{
    if revoked {
        return Err(AppError::Auth("space credential has been revoked".to_owned()));
    }
    Ok(verified.sub)
}

/// Under which hash a credential's revocation is looked up.
pub fn credential_hash(token: &str) -> (hash: String)
    ensures
        hash@ == crypto::text_hash(token@),
{
    crypto::hash_text(token)
}

/// Who fires a notification: a user, or a service that authenticated itself. A
/// space credential does not count, because its subject is a space and not the
/// authority that these endpoints ask for.
pub open spec fn notify_caller(claims: XrpcClaims) -> Result<Seq<char>, ErrorView> {
    match claims.identity {
        Some(identity) => Ok(identity.did@),
        None => match claims.service_auth {
            Some(service) => Ok(service.did@),
            None => Err(ErrorView::Auth("This endpoint requires authentication"@)),
        },
    }
}

/// Who fires a notification.
pub fn require_notify_caller(claims: &XrpcClaims) -> (did: Result<String, AppError>)
    ensures
        crate::error::outcome(did) == notify_caller(*claims),
{
    match &claims.identity {
        Some(identity) => Ok(identity.did.clone()),
        None => match &claims.service_auth {
            Some(service) => Ok(service.did.clone()),
            None => Err(AppError::Auth("This endpoint requires authentication".to_owned())),
        },
    }
}

/// What a session's scope must cover for a read.
#[derive(Debug, Clone, Copy, PartialEq, Eq, Structural)]
pub enum ReadTarget {
    /// Reading own records, which reading everything covers too.
    ReadSelf,
    /// Reading everything.
    Read,
}

/// What a session's scope must cover for a read of a repo, or `None` where no
/// scope is asked for: the space's authority issues a credential to grant
/// reading the whole space, and a caller without a session has no grant to
/// check.
pub fn read_scope(caller_did: &str, target_repo_did: &str, has_credential: bool, has_identity: bool) -> (target:
    Option<ReadTarget>)
    ensures
        target == (if has_credential || !has_identity {
            None
        } else if caller_did@ == target_repo_did@ {
            Some(ReadTarget::ReadSelf)
        } else {
            Some(ReadTarget::Read)
        }),
{
    if has_credential || !has_identity {
        None
    } else if text::same_text(caller_did, target_repo_did) {
        Some(ReadTarget::ReadSelf)
    } else {
        Some(ReadTarget::Read)
    }
}

/// Whether a caller may read a repo of a space: the member list answers what the
/// user may do, and the scope what the application may do on their behalf.
pub open spec fn read_authorization(
    caller_did: Seq<char>,
    target_repo_did: Seq<char>,
    space: Space,
    membership: MemberAccess,
    has_credential: bool,
    has_identity: bool,
    covered: Option<bool>,
) -> Result<(), ErrorView> {
    match scope::read_verdict(caller_did, target_repo_did, membership, has_credential) {
        Err(error) => Err(error),
        Ok(_) => if has_credential || !has_identity {
            Ok(())
        } else {
            scope::scope_verdict(space, covered)
        },
    }
}

/// Refuses a read of a repo that is not authorized. `covered` is whether the
/// session's scope covers what [`read_scope`] asks for, if it carries one.
pub fn authorize_space_read(
    caller_did: &str,
    target_repo_did: &str,
    space: &Space,
    membership: MemberAccess,
    has_credential: bool,
    has_identity: bool,
    covered: Option<bool>,
) -> (result: Result<(), AppError>)
    ensures
        crate::error::unit_outcome(result) == read_authorization(
            caller_did@,
            target_repo_did@,
            *space,
            membership,
            has_credential,
            has_identity,
            covered,
        ),
{
    match scope::check_read_access(caller_did, target_repo_did, membership, has_credential) {
        Err(error) => {
            return Err(error);
        },
        Ok(_) => {},
    }
    if has_credential || !has_identity {
        return Ok(());
    }
    scope::require_space_scope(space, covered)
}

/// A session reads a repo only if its user's membership and its own scope both
/// permit that.
pub proof fn law_session_reads_need_both_gates(
    caller: Seq<char>,
    target: Seq<char>,
    space: Space,
    membership: MemberAccess,
    covered: Option<bool>,
)
    ensures
        read_authorization(caller, target, space, membership, false, true, covered) is Ok <==> (
        membership.read && (membership.read_self ==> caller == target) && covered != Some(false)),
{
}

/// Whether a space may be shown to a caller: to anyone if its membership is
/// public, and else to its authority and its members. To others it is as if it
/// was not there.
pub open spec fn visibility(space: Space, caller: Option<Seq<char>>, is_member: bool) -> Result<
    (),
    ErrorView,
> {
    if space.config.membership_public {
        Ok(())
    } else {
        match caller {
            None => Err(ErrorView::Auth("This endpoint requires authentication"@)),
            Some(did) => if did == space.authority_did@ || is_member {
                Ok(())
            } else {
                Err(service::no_space())
            },
        }
    }
}

/// Refuses to show a space to whom it is not visible.
pub fn check_visibility(space: &Space, claims: &XrpcClaims, is_member: bool) -> (result: Result<
    (),
    AppError,
>)
    ensures
        crate::error::unit_outcome(result) == visibility(
            *space,
            match claims.identity {
                Some(identity) => Some(identity.did@),
                None => None,
            },
            is_member,
        ),
{
    if space.config.membership_public {
        return Ok(());
    }
    match require_auth(claims) {
        Err(error) => Err(error),
        Ok(identity) => if text::same_text(space.authority_did.as_str(), identity.did())
            || is_member {
            Ok(())
        } else {
            Err(AppError::NotFound("Space not found".to_owned()))
        },
    }
}

/// Whether a space's repos may be listed to a caller who is not a member: only
/// if its membership is public.
pub fn lists_repos_to_all(space: &Space) -> (yes: bool)
    ensures
        yes == space.config.membership_public,
{
    space.config.membership_public
}

/// How many items a page holds: as many as are asked for, up to 100, and 50 if
/// nothing is.
pub fn page_limit(limit: Option<i64>) -> (n: i64)
    ensures
        n == (match limit {
            Some(asked) => if asked > 100 {
                100
            } else {
                asked
            },
            None => 50,
        }),
{
    match limit {
        Some(asked) => if asked > 100 {
            100
        } else {
            asked
        },
        None => 50,
    }
}

/// A number within bounds.
pub open spec fn clamped(n: i64, low: i64, high: i64) -> i64 {
    if n < low {
        low
    } else if n > high {
        high
    } else {
        n
    }
}

/// How many ops a page of the log holds: as many as are asked for, from 1 to
/// 1000, and 100 if nothing is.
pub fn ops_limit(limit: Option<i64>) -> (n: i64)
    ensures
        n == clamped(
            match limit {
                Some(asked) => asked,
                None => 100,
            },
            1,
            1000,
        ),
{
    let asked: i64 = match limit {
        Some(asked) => asked,
        None => 100,
    };
    if asked < 1 {
        1
    } else if asked > 1000 {
        1000
    } else {
        asked
    }
}

/// Whose records are listed: all authors' if `None`. A member who reads only own
/// records gets those, whatever they ask for; and who asks for nothing gets
/// their own, or with a credential everyone's.
pub open spec fn listed_repo_of(
    did: Seq<char>,
    asked: Option<Seq<char>>,
    membership: MemberAccess,
    has_credential: bool,
) -> Option<Seq<char>> {
    if !has_credential && membership.read_self {
        Some(did)
    } else {
        match asked {
            Some(repo) => Some(repo),
            None => if has_credential {
                None
            } else {
                Some(did)
            },
        }
    }
}

/// Whose records are listed.
pub fn listed_repo(
    did: &str,
    asked: Option<String>,
    membership: MemberAccess,
    has_credential: bool,
) -> (repo: Option<String>)
    ensures
        text::opt_text(repo) == listed_repo_of(
            did@,
            text::opt_text(asked),
            membership,
            has_credential,
        ),
{
    if !has_credential && membership.restricted_to_own_records() {
        return Some(did.to_owned());
    }
    match asked {
        Some(repo) => Some(repo),
        None => if has_credential {
            None
        } else {
            Some(did.to_owned())
        },
    }
}

/// A member who reads only own records is never listed another's.
pub proof fn law_own_records_are_listed_alone(
    did: Seq<char>,
    asked: Option<Seq<char>>,
    membership: MemberAccess,
)
    requires
        membership.read_self,
    ensures
        listed_repo_of(did, asked, membership, false) == Some(did),
{
}

/// The answer that shows a record.
pub fn record_json(record: SpaceRecord) -> (json: Json)
    ensures
        json@ == JsonView::Object(
            seq![
                ("uri"@, JsonView::Text(record@.uri)),
                ("cid"@, JsonView::Text(record@.cid)),
                ("value"@, record@.record),
            ],
        ),
{
    let json = Json::Object(
        vec![
            ("uri".to_owned(), Json::Text(record.uri)),
            ("cid".to_owned(), Json::Text(record.cid)),
            ("value".to_owned(), record.record),
        ],
    );
    proof {
        crate::json::lemma_json_views(json);
        assert(json@->Object_0 =~= seq![
            ("uri"@, JsonView::Text(record@.uri)),
            ("cid"@, JsonView::Text(record@.cid)),
            ("value"@, record@.record),
        ]);
    }
    json
}

/// What a commit of a repo's state is shown as, if it has one.
pub open spec fn state_commit_json(state: RepoState) -> Result<Option<JsonView>, ErrorView> {
    match state.hash {
        None => Ok(None),
        Some(hash) => match state.ikm {
            None => Err(ErrorView::Internal("corrupt repo state: hash present but ikm missing"@)),
            Some(ikm) => match state.mac {
                None => Err(
                    ErrorView::Internal("corrupt repo state: hash present but mac missing"@),
                ),
                Some(mac) => match state.sig {
                    None => Err(
                        ErrorView::Internal("corrupt repo state: hash present but sig missing"@),
                    ),
                    Some(sig) => Ok(
                        Some(
                            JsonView::Object(
                                seq![
                                    ("ver"@, JsonView::Unsigned(1)),
                                    ("hash"@, commit::lex_value(hash@)),
                                    ("ikm"@, commit::lex_value(ikm@)),
                                    ("sig"@, commit::lex_value(sig@)),
                                    ("mac"@, commit::lex_value(mac@)),
                                    ("rev"@, opt_json(text::opt_text(state.rev))),
                                ],
                            ),
                        ),
                    ),
                },
            },
        },
    }
}

/// A text, or null.
pub open spec fn opt_json(value: Option<Seq<char>>) -> JsonView {
    match value {
        Some(t) => JsonView::Text(t),
        None => JsonView::Null,
    }
}

/// A text, or null.
pub fn make_opt_json(value: &Option<String>) -> (json: Json)
    ensures
        json@ == opt_json(text::opt_text(*value)),
{
    match value {
        Some(t) => Json::Text(t.clone()),
        None => Json::Null,
    }
}

proof fn lemma_commit_keys()
    ensures
        "ver"@ != "hash"@ && "ver"@ != "ikm"@ && "ver"@ != "sig"@ && "ver"@ != "mac"@ && "ver"@ != "rev"@,
        "hash"@ != "ikm"@ && "hash"@ != "sig"@ && "hash"@ != "mac"@ && "hash"@ != "rev"@,
        "ikm"@ != "sig"@ && "ikm"@ != "mac"@ && "ikm"@ != "rev"@,
        "sig"@ != "mac"@ && "sig"@ != "rev"@,
        "mac"@ != "rev"@,
{
    reveal_strlit("ver");
    reveal_strlit("hash");
    reveal_strlit("ikm");
    reveal_strlit("sig");
    reveal_strlit("mac");
    reveal_strlit("rev");
    assert("ver"@.len() == 3 && "hash"@.len() == 4);
    assert("ver"@[0] == 'v' && "ikm"@[0] == 'i' && "sig"@[0] == 's' && "mac"@[0] == 'm' && "rev"@[0] == 'r');
}

/// What a commit of a repo's state is shown as, if it has one. Whoever reads the
/// commit that is shown gets the commit that the state holds.
pub fn repo_state_commit_json(repo_state: &RepoState) -> (json: Result<Option<Json>, AppError>)
    ensures
        match json {
            Ok(Some(value)) => state_commit_json(*repo_state) == Ok::<Option<JsonView>, ErrorView>(
                Some(value@),
            ),
            Ok(None) => state_commit_json(*repo_state) == Ok::<Option<JsonView>, ErrorView>(None),
            Err(error) => state_commit_json(*repo_state) == Err::<Option<JsonView>, ErrorView>(error@),
        },
        json matches Ok(Some(value)) ==> (commit_of_state(*repo_state) matches Ok(held)
            ==> native_client::signed_commit_of(value@) == Ok::<CommitView, ErrorView>(held)),
{
    let hash = match &repo_state.hash {
        Some(hash) => hash,
        None => {
            return Ok(None);
        },
    };
    let ikm = match &repo_state.ikm {
        Some(ikm) => ikm,
        None => {
            return Err(
                AppError::Internal("corrupt repo state: hash present but ikm missing".to_owned()),
            );
        },
    };
    let mac = match &repo_state.mac {
        Some(mac) => mac,
        None => {
            return Err(
                AppError::Internal("corrupt repo state: hash present but mac missing".to_owned()),
            );
        },
    };
    let sig = match &repo_state.sig {
        Some(sig) => sig,
        None => {
            return Err(
                AppError::Internal("corrupt repo state: hash present but sig missing".to_owned()),
            );
        },
    };
    let json = Json::Object(
        vec![
            ("ver".to_owned(), Json::Unsigned(1)),
            ("hash".to_owned(), commit::encode_lex_bytes(hash.as_slice())),
            ("ikm".to_owned(), commit::encode_lex_bytes(ikm.as_slice())),
            ("sig".to_owned(), commit::encode_lex_bytes(sig.as_slice())),
            ("mac".to_owned(), commit::encode_lex_bytes(mac.as_slice())),
            ("rev".to_owned(), make_opt_json(&repo_state.rev)),
        ],
    );
    proof {
        crate::json::lemma_json_views(json);
        let all = json@->Object_0;
        assert(all =~= state_commit_json(*repo_state)->Ok_0->Some_0->Object_0);
        lemma_commit_keys();
        assert(crate::json::distinct_keys(all));
        crate::json::lemma_lookup_at(all, 0);
        crate::json::lemma_lookup_at(all, 1);
        crate::json::lemma_lookup_at(all, 2);
        crate::json::lemma_lookup_at(all, 3);
        crate::json::lemma_lookup_at(all, 4);
        crate::json::lemma_lookup_at(all, 5);
        assert(json@.get("hash"@) == Some(commit::lex_value(hash@)));
        assert(json@.get("ikm"@) == Some(commit::lex_value(ikm@)));
        assert(json@.get("sig"@) == Some(commit::lex_value(sig@)));
        assert(json@.get("mac"@) == Some(commit::lex_value(mac@)));
        assert(json@.get_u64("ver"@) == Some(1u64));
    }
    Ok(Some(json))
}

/// The answer that shows a revision and a commit.
pub open spec fn latest_commit_of(rev: Option<Seq<char>>, shown: JsonView) -> JsonView {
    JsonView::Object(seq![("rev"@, opt_json(rev)), ("commit"@, shown)])
}

/// The answer that shows a repo's latest commit. Whoever reads the answer gets the
/// commit that the state holds.
pub fn latest_commit_json(repo_state: &RepoState) -> (json: Result<Json, AppError>)
    ensures
        crate::error::outcome(json) == (match state_commit_json(*repo_state) {
            Err(error) => Err(error),
            Ok(Some(shown)) => Ok(latest_commit_of(text::opt_text(repo_state.rev), shown)),
            Ok(None) => Ok(latest_commit_of(text::opt_text(repo_state.rev), JsonView::Null)),
        }),
        json matches Ok(answer) ==> (commit_of_state(*repo_state) matches Ok(held)
            ==> native_client::latest_commit_of(answer@) == Ok::<CommitView, ErrorView>(held)),
{
    let shown = match repo_state_commit_json(repo_state) {
        Err(error) => {
            return Err(error);
        },
        Ok(Some(value)) => value,
        Ok(None) => Json::Null,
    };
    let ghost view = shown@;
    let json = Json::Object(
        vec![("rev".to_owned(), make_opt_json(&repo_state.rev)), ("commit".to_owned(), shown)],
    );
    proof {
        crate::json::lemma_json_views(json);
        let all = json@->Object_0;
        assert(all =~= latest_commit_of(text::opt_text(repo_state.rev), view)->Object_0);
        reveal_strlit("rev");
        reveal_strlit("commit");
        assert("rev"@.len() == 3 && "commit"@.len() == 6);
        assert(crate::json::distinct_keys(all));
        crate::json::lemma_lookup_at(all, 1);
        assert(json@.get("commit"@) == Some(view));
    }
    Ok(json)
}

/// A field of a repo's state that must hold 32 bytes.
pub open spec fn field_32(bytes: Option<Vec<u8>>, missing: ErrorView, wrong: ErrorView) -> Result<
    Seq<u8>,
    ErrorView,
> {
    match bytes {
        None => Err(missing),
        Some(value) => if value@.len() == 32 {
            Ok(value@)
        } else {
            Err(wrong)
        },
    }
}

/// The commit that a repo's state holds.
pub open spec fn commit_of_state(state: RepoState) -> Result<CommitView, ErrorView> {
    match field_32(
        state.hash,
        ErrorView::NotFound("no commit exists for this repo"@),
        ErrorView::Internal("corrupt repo state: hash is not 32 bytes"@),
    ) {
        Err(error) => Err(error),
        Ok(hash) => match field_32(
            state.ikm,
            ErrorView::Internal("corrupt repo state: missing ikm"@),
            ErrorView::Internal("corrupt repo state: ikm is not 32 bytes"@),
        ) {
            Err(error) => Err(error),
            Ok(ikm) => match field_32(
                state.mac,
                ErrorView::Internal("corrupt repo state: missing mac"@),
                ErrorView::Internal("corrupt repo state: mac is not 32 bytes"@),
            ) {
                Err(error) => Err(error),
                Ok(mac) => match state.rev {
                    None => Err(ErrorView::Internal("corrupt repo state: missing rev"@)),
                    Some(rev) => match state.sig {
                        None => Err(ErrorView::Internal("corrupt repo state: missing sig"@)),
                        Some(sig) => Ok(
                            CommitView { ver: 1, hash, ikm, sig: sig@, mac, rev: rev@ },
                        ),
                    },
                },
            },
        },
    }
}

fn read_32(bytes: &Option<Vec<u8>>, missing: AppError, wrong: AppError) -> (array: Result<
    [u8; 32],
    AppError,
>)
    ensures
        match array {
            Ok(a) => field_32(*bytes, missing@, wrong@) == Ok::<Seq<u8>, ErrorView>(a@),
            Err(error) => field_32(*bytes, missing@, wrong@) == Err::<Seq<u8>, ErrorView>(error@),
        },
{
    match bytes {
        None => Err(missing),
        Some(value) => if value.len() == 32 {
            Ok(crypto::array_32(value.as_slice()))
        } else {
            Err(wrong)
        },
    }
}

/// The commit that a repo's state holds, for its archive.
pub fn state_commit(state: RepoState) -> (result: Result<SignedCommit, AppError>)
    ensures
        crate::error::outcome(result) == commit_of_state(state),
{
    let hash = match read_32(
        &state.hash,
        AppError::NotFound("no commit exists for this repo".to_owned()),
        AppError::Internal("corrupt repo state: hash is not 32 bytes".to_owned()),
    ) {
        Ok(hash) => hash,
        Err(error) => {
            return Err(error);
        },
    };
    let ikm = match read_32(
        &state.ikm,
        AppError::Internal("corrupt repo state: missing ikm".to_owned()),
        AppError::Internal("corrupt repo state: ikm is not 32 bytes".to_owned()),
    ) {
        Ok(ikm) => ikm,
        Err(error) => {
            return Err(error);
        },
    };
    let mac = match read_32(
        &state.mac,
        AppError::Internal("corrupt repo state: missing mac".to_owned()),
        AppError::Internal("corrupt repo state: mac is not 32 bytes".to_owned()),
    ) {
        Ok(mac) => mac,
        Err(error) => {
            return Err(error);
        },
    };
    let rev = match state.rev {
        Some(rev) => rev,
        None => {
            return Err(AppError::Internal("corrupt repo state: missing rev".to_owned()));
        },
    };
    let sig = match state.sig {
        Some(sig) => sig,
        None => {
            return Err(AppError::Internal("corrupt repo state: missing sig".to_owned()));
        },
    };
    Ok(SignedCommit { ver: 1, hash, ikm, sig, mac, rev })
}

/// The commit that a write seals a repo's state with is the commit that the
/// state holds.
pub proof fn law_sealed_state_holds_its_commit(
    before: RepoState,
    after: RepoState,
    signed: SignedCommit,
    set_hash: Seq<u8>,
)
    requires
        service::sealed(before, after, signed, set_hash),
        signed.ver == 1,
    ensures
        commit_of_state(after) == Ok::<CommitView, ErrorView>(signed@),
{
}

/// Whether one of some records refers to a blob.
pub open spec fn referenced(records: Seq<SpaceRecord>, cid: Seq<char>) -> bool {
    exists|i: int|
        0 <= i < records.len() && record_refs::mentions_blob((#[trigger] records[i]).record@, cid)
}

/// Whether a list holds just the blobs that records refer to and that come after
/// a cursor, each once and in order.
pub open spec fn is_blob_listing(
    records: Seq<SpaceRecord>,
    cursor: Option<Seq<char>>,
    all: Seq<Seq<char>>,
) -> bool {
    &&& text::texts_ascend(all)
    &&& forall|cid: Seq<char>| #[trigger]
        all.contains(cid) <==> (referenced(records, cid) && (cursor matches Some(after)
            ==> text::text_before(after, cid)))
}

/// How many blobs a page holds.
pub open spec fn blob_limit(limit: Option<i64>) -> int {
    clamped(
        match limit {
            Some(asked) => asked,
            None => 500,
        },
        1,
        1000,
    ) as int
}

/// A page of the blobs that a repo's records refer to, and the cursor of the
/// next one if there is more. Each blob is listed once however many records
/// refer to it, and in an order that does not change between calls.
pub fn list_blobs(records: &Vec<SpaceRecord>, cursor: Option<&str>, limit: Option<i64>) -> (page: (
    Vec<String>,
    Option<String>,
))
    ensures
        exists|all: Seq<Seq<char>>|
            #![trigger is_blob_listing(records@, text::opt_str(cursor), all)]
            is_blob_listing(records@, text::opt_str(cursor), all) && (if all.len() > blob_limit(limit) {
                text::texts(page.0@) == all.take(blob_limit(limit)) && text::opt_text(page.1) == Some(
                    all[blob_limit(limit) - 1],
                )
            } else {
                text::texts(page.0@) == all && page.1 is None
            }),
{
    let mut cids: Vec<String> = Vec::new();
    let ghost after = text::opt_str(cursor);
    for i in 0..records.len()
        invariant
            after == text::opt_str(cursor),
            text::texts_ascend(text::texts(cids@)),
            forall|cid: Seq<char>| #[trigger]
                text::texts(cids@).contains(cid) <==> (referenced(records@.take(i as int), cid) && (
                after matches Some(a) ==> text::text_before(a, cid))),
    {
        let ghost before = text::texts(cids@);
        let found = record_refs::extract_blob_cids(&records[i].record);
        let ghost here = found@;
        let list = found.into_vec();
        let ghost names = text::texts(list@);
        for k in 0..list.len()
            invariant
                after == text::opt_str(cursor),
                names == text::texts(list@),
                text::texts_ascend(text::texts(cids@)),
                forall|cid: Seq<char>| #[trigger]
                    text::texts(cids@).contains(cid) <==> (before.contains(cid) || (names.take(
                        k as int,
                    ).contains(cid) && (after matches Some(a) ==> text::text_before(a, cid)))),
        {
            let ghost placed = text::texts(cids@);
            let item = list[k].as_str();
            let wanted = match cursor {
                Some(a) => text::text_less(a, item),
                None => true,
            };
            if wanted {
                text::place(&mut cids, item);
            }
            proof {
                assert(names.take(k + 1) =~= names.take(k as int).push(item@));
                assert forall|cid: Seq<char>| #[trigger]
                    text::texts(cids@).contains(cid) <==> (before.contains(cid) || (names.take(
                        k + 1,
                    ).contains(cid) && (after matches Some(a) ==> text::text_before(a, cid)))) by {
                    assert(placed.contains(cid) || !placed.contains(cid));
                    lemma_push_contains(names.take(k as int), item@, cid);
                }
            }
        }
        proof {
            assert(names.take(names.len() as int) =~= names);
            assert forall|cid: Seq<char>| #[trigger]
                text::texts(cids@).contains(cid) <==> (referenced(records@.take(i + 1), cid) && (
                after matches Some(a) ==> text::text_before(a, cid))) by {
                assert(names.to_set().contains(cid) <==> names.contains(cid));
                assert(here.contains(cid) <==> record_refs::mentions_blob(
                    records@[i as int].record@,
                    cid,
                ));
                assert(before.contains(cid) || !before.contains(cid));
                lemma_referenced_step(records@, i as int, cid);
            }
        }
    }
    assert(records@.take(records@.len() as int) =~= records@);
    let ghost all = text::texts(cids@);
    assert(is_blob_listing(records@, after, all));
    let asked: i64 = match limit {
        Some(asked) => asked,
        None => 500,
    };
    let n: usize = if asked < 1 {
        1
    } else if asked > 1000 {
        1000
    } else {
        asked as usize
    };
    assert(n == blob_limit(limit));
    if cids.len() > n {
        cids.truncate(n);
        assert(text::texts(cids@) =~= all.take(n as int));
        let last = cids[n - 1].clone();
        (cids, Some(last))
    } else {
        (cids, None)
    }
}

proof fn lemma_push_contains(list: Seq<Seq<char>>, item: Seq<char>, t: Seq<char>)
    ensures
        list.push(item).contains(t) <==> list.contains(t) || t == item,
{
    let longer = list.push(item);
    if longer.contains(t) {
        let k = choose|k: int| 0 <= k < longer.len() && longer[k] == t;
        if k < list.len() {
            assert(list[k] == t);
        }
    }
    if list.contains(t) {
        let k = choose|k: int| 0 <= k < list.len() && list[k] == t;
        assert(longer[k] == t);
    }
    if t == item {
        assert(longer[list.len() as int] == t);
    }
}

proof fn lemma_referenced_step(records: Seq<SpaceRecord>, i: int, cid: Seq<char>)
    requires
        0 <= i < records.len(),
    ensures
        referenced(records.take(i + 1), cid) <==> referenced(records.take(i), cid)
            || record_refs::mentions_blob(records[i].record@, cid),
{
    let longer = records.take(i + 1);
    let shorter = records.take(i);
    if referenced(longer, cid) {
        let k = choose|k: int|
            0 <= k < longer.len() && record_refs::mentions_blob((#[trigger] longer[k]).record@, cid);
        if k < i {
            assert(shorter[k] == longer[k]);
        }
    }
    if referenced(shorter, cid) {
        let k = choose|k: int|
            0 <= k < shorter.len() && record_refs::mentions_blob((#[trigger] shorter[k]).record@, cid);
        assert(longer[k] == shorter[k]);
    }
    assert(longer[i] == records[i]);
}

/// Following the cursor continues where the page ended: what comes after the
/// last blob of a page is the rest of the list, so that no blob is skipped and
/// none comes twice.
pub proof fn law_blob_pages_continue(
    records: Seq<SpaceRecord>,
    cursor: Option<Seq<char>>,
    all: Seq<Seq<char>>,
    n: int,
    rest: Seq<Seq<char>>,
)
    requires
        is_blob_listing(records, cursor, all),
        0 < n <= all.len(),
        is_blob_listing(records, Some(all[n - 1]), rest),
    ensures
        rest == all.skip(n),
{
    let last = all[n - 1];
    let expected = all.skip(n);
    assert forall|t: Seq<char>| #[trigger] rest.contains(t) <==> expected.contains(t) by {
        if rest.contains(t) {
            assert(referenced(records, t) && text::text_before(last, t));
            assert(all.contains(last)) by {
                assert(all[n - 1] == last);
            }
            if cursor is Some {
                text::lemma_bytes_transitive(
                    vstd::utf8::encode_utf8(cursor->0),
                    vstd::utf8::encode_utf8(last),
                    vstd::utf8::encode_utf8(t),
                );
            }
            assert(all.contains(t));
            let k = choose|k: int| 0 <= k < all.len() && all[k] == t;
            text::lemma_text_total(last, t);
            if k < n {
                if k == n - 1 {
                    text::lemma_text_total(t, t);
                } else {
                    assert(text::text_before(all[k], all[n - 1]));
                }
            }
            assert(expected[k - n] == t);
        }
        if expected.contains(t) {
            let k = choose|k: int| 0 <= k < expected.len() && expected[k] == t;
            assert(all[k + n] == t);
            assert(all.contains(t));
            assert(text::text_before(all[n - 1], all[k + n]));
        }
    }
    assert(text::texts_ascend(expected)) by {
        assert forall|i: int, j: int| 0 <= i < j < expected.len() implies text::text_before(
            #[trigger] expected[i],
            #[trigger] expected[j],
        ) by {
            assert(expected[i] == all[i + n] && expected[j] == all[j + n]);
        }
    }
    text::lemma_one_ascending_list(rest, expected);
}

/// Where a PDS serves a blob.
pub fn blob_url(pds_endpoint: &str, author_did: &str, cid: &str) -> (url: String)
    ensures
        url@ == pds_endpoint@ + "/xrpc/com.atproto.sync.getBlob?did="@ + url::encoded(author_did@)
            + "&cid="@ + url::encoded(cid@),
{
    let did = url::encode(author_did);
    let cid = url::encode(cid);
    text::cat5(
        pds_endpoint,
        "/xrpc/com.atproto.sync.getBlob?did=",
        did.as_str(),
        "&cid=",
        cid.as_str(),
    )
}

/// Refuses to pass on an answer of a PDS that is no blob. `status_text` is the
/// status as text.
pub fn check_blob_answer(success: bool, status_text: &str, cid: &str) -> (result: Result<(), AppError>)
    ensures
        crate::error::unit_outcome(result) == (if success {
            Ok(())
        } else {
            Err(
                ErrorView::BadGateway(
                    "PDS returned "@ + status_text@ + " for blob cid="@ + cid@,
                ),
            )
        }),
{
    if success {
        Ok(())
    } else {
        Err(
            AppError::BadGateway(
                text::cat4("PDS returned ", status_text, " for blob cid=", cid),
            ),
        )
    }
}

/// The author of a blob in a space, or the failure if no record refers to it.
pub fn blob_author(found: Option<String>) -> (author: Result<String, AppError>)
    ensures
        crate::error::outcome(author) == (match found {
            Some(did) => Ok(did@),
            None => Err(ErrorView::NotFound("Blob not found in this space"@)),
        }),
{
    match found {
        Some(did) => Ok(did),
        None => Err(AppError::NotFound("Blob not found in this space".to_owned())),
    }
}

/// The record that a lookup found, or the failure.
pub fn found_record(found: Option<SpaceRecord>) -> (record: Result<SpaceRecord, AppError>)
    ensures
        match record {
            Ok(r) => found == Some(r),
            Err(error) => found is None && error@ == ErrorView::NotFound("Record not found"@),
        },
{
    match found {
        Some(record) => Ok(record),
        None => Err(AppError::NotFound("Record not found".to_owned())),
    }
}

/// The outcome of revoking an invitation: a failure if there was none.
pub fn invite_revoked(revoked: bool) -> (result: Result<(), AppError>)
    ensures
        crate::error::unit_outcome(result) == (if revoked {
            Ok(())
        } else {
            Err(ErrorView::NotFound("Invite not found"@))
        }),
{
    if revoked {
        Ok(())
    } else {
        Err(AppError::NotFound("Invite not found".to_owned()))
    }
}

/// Whether a caller may withdraw a service's registration: the service itself,
/// and whoever may administer the space.
pub open spec fn unregister_verdict(
    space: Space,
    did: Seq<char>,
    service_did: Seq<char>,
    is_super: Option<i32>,
) -> Result<(), ErrorView> {
    if did == service_did {
        Ok(())
    } else {
        service::admin_verdict(space, did, is_super)
    }
}

/// Refuses to withdraw a registration for whom it does not belong to.
pub fn check_unregister(space: &Space, did: &str, service_did: &str, is_super: Option<i32>) -> (result:
    Result<(), AppError>)
    ensures
        crate::error::unit_outcome(result) == unregister_verdict(
            *space,
            did@,
            service_did@,
            is_super,
        ),
{
    if text::same_text(did, service_did) {
        Ok(())
    } else {
        service::require_space_admin(space, did, is_super)
    }
}

/// The key that signs delegation tokens, made of the instance's encryption key.
pub open spec fn delegation_key_of(encryption_key: Option<Seq<u8>>) -> Result<Seq<u8>, ErrorView> {
    match encryption_key {
        None => Err(
            ErrorView::Internal("TOKEN_ENCRYPTION_KEY is required for space credentials"@),
        ),
        Some(key) => if crypto::k256_public_of(key) is Some {
            Ok(key)
        } else {
            Err(
                ErrorView::Internal("failed to derive delegation signing key: signature error"@),
            )
        },
    }
}

/// What an optional array holds.
pub open spec fn opt_array(bytes: Option<&[u8; 32]>) -> Option<Seq<u8>> {
    match bytes {
        Some(b) => Some(b@),
        None => None,
    }
}

/// The key that signs delegation tokens.
pub fn delegation_key(encryption_key: Option<&[u8; 32]>) -> (key: Result<K256SigningKey, AppError>)
    ensures
        crate::error::outcome(key) == delegation_key_of(opt_array(encryption_key)),
{
    match encryption_key {
        None => Err(
            AppError::Internal("TOKEN_ENCRYPTION_KEY is required for space credentials".to_owned()),
        ),
        Some(bytes) => match K256SigningKey::from_slice(bytes) {
            Some(key) => Ok(key),
            None => Err(
                AppError::Internal(
                    "failed to derive delegation signing key: signature error".to_owned(),
                ),
            ),
        },
    }
}

/// What a delegation token for a space says, issued at a time.
pub open spec fn delegated_claims(space: Space, did: Seq<char>, now: u64, jti: Seq<char>) -> DelegationView {
    DelegationView {
        iss: did,
        sub: native_sync::space_address(space),
        aud: space.did@ + "#atproto_space_host"@,
        iat: now,
        exp: (now + DELEGATION_TOKEN_TTL_SECS) as u64,
        jti,
    }
}

/// Whether a member may have a delegation token: with full read access to the
/// space, and a scope that covers reading all of it.
pub open spec fn delegation_verdict(
    space: Space,
    membership: Result<MemberAccess, ErrorView>,
    covered: Option<bool>,
) -> Result<(), ErrorView> {
    match membership {
        Err(error) => Err(error),
        Ok(access) => match scope::delegation_token_verdict(access, false) {
            Err(error) => Err(error),
            Ok(_) => scope::scope_verdict(space, covered),
        },
    }
}

/// Decides whether a member may have a delegation token. A space credential does
/// not help here.
pub fn may_delegate(space: &Space, listed: Option<MemberAccess>, covered: Option<bool>) -> (result:
    Result<(), AppError>)
    ensures
        crate::error::unit_outcome(result) == delegation_verdict(
            *space,
            service::membership_of(*space, None, false, listed, false),
            covered,
        ),
{
    match service::require_membership(space, None, false, listed, false) {
        Err(error) => Err(error),
        Ok(access) => match scope::check_delegation_token_access(access, false) {
            Err(error) => Err(error),
            Ok(_) => scope::require_space_scope(space, covered),
        },
    }
}

/// A delegation token is issued only to a member who can read the whole space.
pub proof fn law_delegation_needs_a_full_reader(
    space: Space,
    listed: Option<MemberAccess>,
    covered: Option<bool>,
)
    ensures
        delegation_verdict(space, service::membership_of(space, None, false, listed, false), covered) is Ok
            ==> (listed matches Some(access) && access.read && !access.read_self) && covered != Some(
            false,
        ),
{
}

/// Whether a space has an address: the parts of it are path segments.
pub open spec fn has_address(space: Space) -> bool {
    uri::is_segment(space.did@) && uri::is_segment(space.type_nsid@) && uri::is_segment(space.skey@)
}

/// Issues a delegation token, with the text of its expiry. If the space has an
/// address, the holder can exchange the token, while it lasts, at the instance
/// that holds the signing key.
pub fn issue_delegation_token_at(space: &Space, did: &str, signing_key: &K256SigningKey, now: u64) -> (result:
    Result<(String, String), AppError>)
    requires
        now + DELEGATION_TOKEN_TTL_SECS <= u64::MAX,
    ensures
        result matches Ok((token, expires_at)) && (exists|jti: Seq<char>|
            crate::ambient::is_uuid_v4(jti) && token@ == credential::delegation_token(
                #[trigger] delegated_claims(*space, did@, now, jti),
                signing_key@,
            ) && (has_address(*space) ==> forall|then: u64|
                then < now + DELEGATION_TOKEN_TTL_SECS ==> #[trigger] grant_verdict(
                    token@,
                    did@,
                    Some(signing_key@),
                    then,
                ) == Ok::<DelegationView, ErrorView>(delegated_claims(*space, did@, now, jti))))
            && expires_at@ == crate::ambient::expiry_text((now + DELEGATION_TOKEN_TTL_SECS) as u64),
{
    let exp = now + DELEGATION_TOKEN_TTL_SECS;
    let claims = DelegationTokenClaims {
        iss: did.to_owned(),
        sub: native_sync::space_uri(space),
        aud: text::cat2(space.did.as_str(), "#atproto_space_host"),
        iat: now,
        exp,
        jti: credential::make_jti(),
    };
    assert(claims@ == delegated_claims(*space, did@, now, claims.jti@));
    match credential::sign_delegation_token(&claims, signing_key) {
        Ok(token) => {
            proof {
                if has_address(*space) {
                    let address = uri::SpaceUriView {
                        did: space.did@,
                        type_nsid: space.type_nsid@,
                        skey: space.skey@,
                        user_did: None,
                        collection: None,
                        rkey: None,
                    };
                    uri::law_parse_of_text(address);
                    let accepted = seq![
                        space.did@ + "#atproto_space_host"@,
                        space.did@ + "#atproto_pds"@,
                    ];
                    assert(accepted[0] == claims@.aud);
                    assert(accepted.contains(claims@.aud));
                }
            }
            Ok((token, crate::ambient::format_expiry(exp)))
        },
        Err(error) => Err(error),
    }
}

/// The space that a delegation token names, or nothing where it names none.
pub open spec fn named_space_did(sub: Seq<char>) -> Seq<char> {
    match uri::parsed_uri(sub) {
        Ok(address) => address.did,
        Err(_) => Seq::empty(),
    }
}

/// What becomes of a delegation token that is to be exchanged: it must be signed
/// by this instance, be for a space's host, and be the caller's own.
///
/// A credential is minted for the token's issuer. Were the caller another, then
/// whoever captures a member's short-lived token could mint a long-lived
/// credential in that member's name.
pub open spec fn grant_verdict(
    grant: Seq<char>,
    caller_did: Seq<char>,
    encryption_key: Option<Seq<u8>>,
    now: u64,
) -> Result<DelegationView, ErrorView> {
    match delegation_key_of(encryption_key) {
        Err(error) => Err(error),
        Ok(secret) => match credential::delegation_sub(grant) {
            None => Err(ErrorView::Auth("invalid delegation token"@)),
            Some(sub) => {
                let space_did = named_space_did(sub);
                match credential::delegation_verdict(
                    grant,
                    crypto::k256_public_of(secret)->0,
                    seq![space_did + "#atproto_space_host"@, space_did + "#atproto_pds"@],
                    now,
                ) {
                    Err(error) => Err(error),
                    Ok(claims) => if claims.iss != caller_did {
                        Err(
                            ErrorView::Forbidden(
                                "delegation token was issued to a different account"@,
                            ),
                        )
                    } else {
                        Ok(claims)
                    },
                }
            },
        },
    }
}

/// Verifies a delegation token that is to be exchanged at a time.
///
/// An authority that publishes no `#atproto_space_host` is reached at its
/// `#atproto_pds` endpoint, so a token may name either.
pub fn accept_grant_at(
    grant: &str,
    caller_did: &str,
    encryption_key: Option<&[u8; 32]>,
    now: u64,
) -> (result: Result<DelegationTokenClaims, AppError>)
    ensures
        crate::error::outcome(result) == grant_verdict(
            grant@,
            caller_did@,
            opt_array(encryption_key),
            now,
        ),
{
    let key = match delegation_key(encryption_key) {
        Ok(key) => key,
        Err(error) => {
            return Err(error);
        },
    };
    let sub = match credential::peek_delegation_sub(grant) {
        Some(sub) => sub,
        None => {
            return Err(AppError::Auth("invalid delegation token".to_owned()));
        },
    };
    let space_did = match SpaceUri::parse(sub.as_str()) {
        Ok(address) => address.did,
        Err(_) => String::new(),
    };
    let host = text::cat2(space_did.as_str(), "#atproto_space_host");
    let pds = text::cat2(space_did.as_str(), "#atproto_pds");
    let point = key.public_key();
    let accepted: [&str; 2] = [host.as_str(), pds.as_str()];
    proof {
        assert(credential::str_views(accepted@) =~= seq![host@, pds@]);
    }
    match credential::verify_delegation_token_at(grant, point.as_slice(), &accepted, now) {
        Err(error) => Err(error),
        Ok(claims) => if !text::same_text(caller_did, claims.iss.as_str()) {
            Err(
                AppError::Forbidden("delegation token was issued to a different account".to_owned()),
            )
        } else {
            Ok(claims)
        },
    }
}

/// A delegation token is exchanged only by the account it was issued to, only
/// while it lasts, and only at the host of the space that it names.
pub proof fn law_grants_are_exchanged_by_their_holder(
    grant: Seq<char>,
    caller_did: Seq<char>,
    encryption_key: Option<Seq<u8>>,
    now: u64,
)
    ensures
        grant_verdict(grant, caller_did, encryption_key, now) matches Ok(claims) ==> claims.iss
            == caller_did && now < claims.exp && (claims.aud == named_space_did(claims.sub)
            + "#atproto_space_host"@ || claims.aud == named_space_did(claims.sub) + "#atproto_pds"@),
{
    if let Ok(claims) = grant_verdict(grant, caller_did, encryption_key, now) {
        let secret = delegation_key_of(encryption_key)->Ok_0;
        let sub = credential::delegation_sub(grant)->0;
        let accepted = seq![
            named_space_did(sub) + "#atproto_space_host"@,
            named_space_did(sub) + "#atproto_pds"@,
        ];
        credential::law_accepted_delegation_is_fresh_and_addressed(
            grant,
            crypto::k256_public_of(secret)->0,
            accepted,
            now,
        );
        let i = choose|i: int| 0 <= i < accepted.len() && accepted[i] == claims.aud;
        assert(i == 0 || i == 1);
    }
}

/// A delegation token that is exchanged for a credential.
pub struct CredentialExchange {
    subject_did: String,
    space_ref: String,
}

/// An exchange whose space is known.
pub struct SpaceExchange {
    subject_did: String,
    space: Space,
}

/// An exchange of someone who is still a member of the space.
pub struct MemberExchange {
    subject_did: String,
    space: Space,
}

/// Takes a delegation token, at a time, that a caller wants to exchange.
pub fn get_space_credential_at(
    claims: &XrpcClaims,
    grant: &str,
    encryption_key: Option<&[u8; 32]>,
    now: u64,
) -> (exchange: Result<CredentialExchange, AppError>)
    ensures
        match claims.identity {
            None => exchange matches Err(error) && error@ == ErrorView::Auth(
                "This endpoint requires authentication"@,
            ),
            Some(identity) => match grant_verdict(
                grant@,
                identity.did@,
                opt_array(encryption_key),
                now,
            ) {
                Ok(granted) => exchange matches Ok(exchange) && exchange.subject_did() == granted.iss
                    && exchange.space_ref() == granted.sub,
                Err(error) => exchange matches Err(e) && e@ == error,
            },
        },
{
    let identity = match require_auth(claims) {
        Ok(identity) => identity,
        Err(error) => {
            return Err(error);
        },
    };
    match accept_grant_at(grant, identity.did(), encryption_key, now) {
        Ok(granted) => Ok(CredentialExchange { subject_did: granted.iss, space_ref: granted.sub }),
        Err(error) => Err(error),
    }
}

impl CredentialExchange {
    /// Whom the credential is for.
    pub closed spec fn subject_did(self) -> Seq<char> {
        self.subject_did@
    }

    /// The address of the space.
    pub closed spec fn space_ref(self) -> Seq<char> {
        self.space_ref@
    }

    /// The address of the space to look up.
    pub fn space(&self) -> (address: &str)
        ensures
            address@ == self.space_ref(),
    {
        self.space_ref.as_str()
    }

    /// Goes on with the space, if it was found.
    pub fn on_space(self, found: Option<Space>) -> (exchange: Result<SpaceExchange, AppError>)
        ensures
            match exchange {
                Ok(exchange) => found == Some(exchange.in_space()) && exchange.subject_did()
                    == self.subject_did(),
                Err(error) => found is None && error@ == service::no_space(),
            },
    {
        match service::resolve_space(found) {
            Ok(space) => Ok(SpaceExchange { subject_did: self.subject_did, space }),
            Err(error) => Err(error),
        }
    }
}

impl SpaceExchange {
    /// Whom the credential is for.
    pub closed spec fn subject_did(self) -> Seq<char> {
        self.subject_did@
    }

    /// The space.
    pub closed spec fn in_space(self) -> Space {
        self.space
    }

    /// Whose membership to look up, and where.
    pub fn question(&self) -> (question: (&str, &Space))
        ensures
            question.0@ == self.subject_did(),
            *question.1 == self.in_space(),
    {
        (self.subject_did.as_str(), &self.space)
    }

    /// Goes on with what the member list grants now. A member who was removed
    /// while the token lasted gets no credential.
    pub fn on_membership(self, listed: Option<MemberAccess>) -> (exchange: Result<
        MemberExchange,
        AppError,
    >)
        ensures
            match exchange {
                Ok(exchange) => listed is Some && exchange.in_space() == self.in_space()
                    && exchange.subject_did() == self.subject_did(),
                Err(error) => listed is None && error@ == ErrorView::Forbidden(
                    "You are not a member of this space"@,
                ),
            },
    {
        match service::require_membership(&self.space, None, false, listed, false) {
            Ok(_) => Ok(MemberExchange { subject_did: self.subject_did, space: self.space }),
            Err(error) => Err(error),
        }
    }
}

impl MemberExchange {
    /// Whom the credential is for.
    pub closed spec fn subject_did(self) -> Seq<char> {
        self.subject_did@
    }

    /// The space.
    pub closed spec fn in_space(self) -> Space {
        self.space
    }

    /// Asks for the credential, through an application.
    pub fn issue(&self, client_id: Option<&str>) -> (step: Result<IssueStep<'_>, AppError>)
        ensures
            auth::issued_as(self.in_space(), self.subject_did(), text::opt_str(client_id), step),
    {
        auth::issue_credential(&self.space, self.subject_did.as_str(), client_id)
    }
}

/// An endpoint that makes, changes or takes away something is a procedure, as is
/// the one that hands out credentials, and every other endpoint is a query. No query
/// is answered as if something had been made.
pub proof fn law_what_changes_something_is_a_procedure(endpoint: Endpoint)
    ensures
        !endpoint.queries() <==> {
            ||| endpoint == Endpoint::CreateRecord
            ||| endpoint == Endpoint::PutRecord
            ||| endpoint == Endpoint::DeleteRecord
            ||| endpoint == Endpoint::ApplyWrites
            ||| endpoint == Endpoint::CreateInvite
            ||| endpoint == Endpoint::AcceptInvite
            ||| endpoint == Endpoint::RevokeInvite
            ||| endpoint == Endpoint::CreateSpace
            ||| endpoint == Endpoint::UpdateSpace
            ||| endpoint == Endpoint::DeleteSpace
            ||| endpoint == Endpoint::PutMember
            ||| endpoint == Endpoint::RemoveMember
            ||| endpoint == Endpoint::RegisterNotify
            ||| endpoint == Endpoint::UnregisterNotify
            ||| endpoint == Endpoint::NotifyWrite
            ||| endpoint == Endpoint::NotifySpaceDeleted
            ||| endpoint == Endpoint::GetSpaceCredential
        },
        endpoint.queries() ==> endpoint.success_status() == 200,
        endpoint.success_status() == 200 || endpoint.success_status() == 201,
        endpoint.success_status() == 201 ==> endpoint != Endpoint::DeleteRecord && endpoint
            != Endpoint::ApplyWrites && endpoint != Endpoint::RevokeInvite && endpoint
            != Endpoint::UpdateSpace && endpoint != Endpoint::DeleteSpace && endpoint
            != Endpoint::RemoveMember && endpoint != Endpoint::RegisterNotify && endpoint
            != Endpoint::UnregisterNotify && endpoint != Endpoint::NotifyWrite && endpoint
            != Endpoint::NotifySpaceDeleted && endpoint != Endpoint::GetSpaceCredential,
        endpoint == Endpoint::CreateRecord || endpoint == Endpoint::PutRecord || endpoint
            == Endpoint::CreateInvite || endpoint == Endpoint::AcceptInvite || endpoint
            == Endpoint::CreateSpace || endpoint == Endpoint::PutMember ==> endpoint.success_status() == 201,
{
}

/// Each method has one route, in its place: its name behind `/xrpc/`, to the
/// endpoint that it names.
pub proof fn law_routes_lead_to_their_methods(methods: Seq<(Seq<char>, Endpoint)>)
    ensures
        routes_of(methods).len() == methods.len(),
        forall|i: int|
            0 <= i < methods.len() ==> (#[trigger] routes_of(methods)[i]).0 == "/xrpc/"@ + methods[i].0
                && routes_of(methods)[i].1 == methods[i].1,
{
}

/// A notification is fired by the session's user, or without a session by the
/// service that authenticated itself; without either, nobody fires one, whatever
/// space credential the request carries.
pub proof fn law_who_fires_notifications(claims: XrpcClaims)
    ensures
        claims.identity matches Some(identity) ==> notify_caller(claims) == Ok::<Seq<char>, ErrorView>(
            identity.did@,
        ),
        claims.identity is None ==> (claims.service_auth matches Some(service) ==> notify_caller(claims) == Ok::<
            Seq<char>,
            ErrorView,
        >(service.did@)),
        claims.identity is None && claims.service_auth is None ==> notify_caller(claims) matches Err(
            ErrorView::Auth(_),
        ),
{
}

/// The bearer of a space credential reads any repo. Without a credential the
/// membership decides, and for a session its scope as well; whoever has no session
/// is not asked for a scope. A refusal forbids.
pub proof fn law_what_a_read_must_pass(
    caller: Seq<char>,
    target: Seq<char>,
    space: Space,
    membership: MemberAccess,
    has_credential: bool,
    has_identity: bool,
    covered: Option<bool>,
)
    ensures
        read_authorization(caller, target, space, membership, has_credential, has_identity, covered) is Ok
            <==> {
            ||| has_credential
            ||| membership.read && (membership.read_self ==> caller == target) && (has_identity ==> covered
                != Some(false))
        },
        read_authorization(
            caller,
            target,
            space,
            membership,
            has_credential,
            has_identity,
            covered,
        ) matches Err(error) ==> error is Forbidden,
{
}

/// A space with public membership is shown to everyone, and any other to its
/// authority and its members. Who is not known must say who they are, and to a
/// stranger it is as if there was no such space.
pub proof fn law_to_whom_a_space_is_shown(space: Space, caller: Option<Seq<char>>, is_member: bool)
    ensures
        visibility(space, caller, is_member) is Ok <==> {
            ||| space.config.membership_public
            ||| caller == Some(space.authority_did@)
            ||| caller is Some && is_member
        },
        visibility(space, caller, is_member) matches Err(error) ==> (if caller is None {
            error is Auth
        } else {
            error is NotFound
        }),
{
}

/// A number within bounds stays as it is, and any other becomes the bound that it
/// passes. A page of blobs holds as many as are asked for, from 1 to 1000, and 500
/// where nothing is asked.
pub proof fn law_pages_keep_within_bounds(n: i64, low: i64, high: i64, limit: Option<i64>)
    requires
        low <= high,
    ensures
        low <= clamped(n, low, high) <= high,
        low <= n <= high ==> clamped(n, low, high) == n,
        n < low ==> clamped(n, low, high) == low,
        n > high ==> clamped(n, low, high) == high,
        1 <= blob_limit(limit) <= 1000,
        limit matches Some(asked) ==> (1 <= asked <= 1000 ==> blob_limit(limit) == asked) && (asked > 1000
            ==> blob_limit(limit) == 1000) && (asked < 1 ==> blob_limit(limit) == 1),
        limit is None ==> blob_limit(limit) == 500,
{
}

/// Who may read more than their own records is listed the repo that they ask for.
/// Asking for none lists their own, and everyone's to the bearer of a credential.
pub proof fn law_whose_records_are_listed(
    did: Seq<char>,
    asked: Option<Seq<char>>,
    membership: MemberAccess,
    has_credential: bool,
)
    requires
        has_credential || !membership.read_self,
    ensures
        asked is Some ==> listed_repo_of(did, asked, membership, has_credential) == asked,
        asked is None && has_credential ==> listed_repo_of(did, asked, membership, has_credential) is None,
        asked is None && !has_credential ==> listed_repo_of(did, asked, membership, has_credential) == Some(
            did,
        ),
{
}

/// A repo's state holds a commit just if it has every part of one, of the right
/// size, and the commit is made of those parts. A state without a hash has no
/// commit; one that lacks another part is corrupt.
pub proof fn law_states_hold_whole_commits(state: RepoState)
    ensures
        commit_of_state(state) is Ok <==> {
            &&& state.hash matches Some(hash)
            &&& hash@.len() == 32
            &&& state.ikm matches Some(ikm)
            &&& ikm@.len() == 32
            &&& state.mac matches Some(mac)
            &&& mac@.len() == 32
            &&& state.rev is Some
            &&& state.sig is Some
        },
        commit_of_state(state) matches Ok(held) ==> {
            &&& held.ver == 1
            &&& held.hash == state.hash->0@
            &&& held.ikm == state.ikm->0@
            &&& held.mac == state.mac->0@
            &&& held.sig == state.sig->0@
            &&& held.rev == state.rev->0@
        },
        commit_of_state(state) matches Err(error) ==> (if state.hash is None {
            error is NotFound
        } else {
            error is Internal
        }),
{
}

/// A commit is shown just if the state has one, and each part stands under its
/// name. Without a hash there is nothing to show, and a state that lacks another
/// part is corrupt. The answer shows the revision beside the commit.
pub proof fn law_commits_are_shown_part_by_part(state: RepoState, rev: Option<Seq<char>>, shown: JsonView)
    ensures
        state.hash is None ==> state_commit_json(state) == Ok::<Option<JsonView>, ErrorView>(None),
        state.hash is Some ==> (state_commit_json(state) is Err <==> state.ikm is None || state.mac is None
            || state.sig is None),
        state_commit_json(state) matches Err(error) ==> error is Internal,
        state.hash is Some ==> (state_commit_json(state) matches Ok(commit) ==> commit is Some),
        state_commit_json(state) matches Ok(Some(commit)) ==> {
            &&& commit.get("ver"@) == Some(JsonView::Unsigned(1))
            &&& commit.get("hash"@) == Some(commit::lex_value(state.hash->0@))
            &&& commit.get("ikm"@) == Some(commit::lex_value(state.ikm->0@))
            &&& commit.get("sig"@) == Some(commit::lex_value(state.sig->0@))
            &&& commit.get("mac"@) == Some(commit::lex_value(state.mac->0@))
            &&& match state.rev {
                Some(rev) => commit.get("rev"@) == Some(JsonView::Text(rev@)),
                None => commit.get("rev"@) == Some(JsonView::Null),
            }
        },
        latest_commit_of(rev, shown).get("commit"@) == Some(shown),
        match rev {
            Some(r) => latest_commit_of(rev, shown).get("rev"@) == Some(JsonView::Text(r)),
            None => latest_commit_of(rev, shown).get("rev"@) == Some(JsonView::Null),
        },
{
    lemma_commit_keys();
    reveal_strlit("commit");
    reveal_strlit("rev");
    assert("commit"@.len() == 6 && "rev"@.len() == 3);
    reveal_with_fuel(crate::json::lookup, 7);
    let l = latest_commit_of(rev, shown)->Object_0;
    assert(l.drop_last() =~= l.take(1));
    assert(l.take(1).drop_last() =~= l.take(0));
    if let Ok(Some(commit)) = state_commit_json(state) {
        let m = commit->Object_0;
        assert(m.drop_last() =~= m.take(5));
        assert(m.take(5).drop_last() =~= m.take(4));
        assert(m.take(4).drop_last() =~= m.take(3));
        assert(m.take(3).drop_last() =~= m.take(2));
        assert(m.take(2).drop_last() =~= m.take(1));
        assert(m.take(1).drop_last() =~= m.take(0));
    }
}

/// A registration is withdrawn by the service it is for, by the space's authority
/// and by a super user, and by nobody else.
pub proof fn law_who_withdraws_a_registration(
    space: Space,
    did: Seq<char>,
    service_did: Seq<char>,
    is_super: Option<i32>,
)
    ensures
        unregister_verdict(space, did, service_did, is_super) is Ok <==> {
            ||| did == service_did
            ||| did == space.authority_did@
            ||| is_super matches Some(n) && n != 0
        },
        unregister_verdict(space, did, service_did, is_super) matches Err(error) ==> error is Forbidden,
{
}

/// Delegation tokens are signed with the instance's encryption key itself, if it
/// has one and that is a secret of the curve.
pub proof fn law_delegations_are_signed_with_the_instance_key(encryption_key: Option<Seq<u8>>, secret: Seq<u8>)
    ensures
        delegation_key_of(encryption_key) == Ok::<Seq<u8>, ErrorView>(secret) <==> encryption_key == Some(
            secret,
        ) && crypto::k256_public_of(secret) is Some,
        delegation_key_of(encryption_key) matches Err(error) ==> error is Internal,
{
}

/// A delegation token is the member's own, about the space, for the space's host,
/// and lasts a minute from the time it is issued. Its subject is read as the address
/// of the space.
pub proof fn law_delegations_last_a_minute(space: Space, did: Seq<char>, now: u64, jti: Seq<char>)
    requires
        now + 60 <= u64::MAX,
    ensures
        delegated_claims(space, did, now, jti).iss == did,
        delegated_claims(space, did, now, jti).aud == space.did@ + "#atproto_space_host"@,
        delegated_claims(space, did, now, jti).iat == now,
        delegated_claims(space, did, now, jti).exp == now + 60,
        delegated_claims(space, did, now, jti).jti == jti,
        has_address(space) ==> (uri::parsed_uri(delegated_claims(space, did, now, jti).sub) matches Ok(address)
            && address.did == space.did@ && address.type_nsid == space.type_nsid@ && address.skey
            == space.skey@ && address.user_did is None),
        has_address(space) ==> named_space_did(delegated_claims(space, did, now, jti).sub) == space.did@,
{
    if has_address(space) {
        let address = uri::SpaceUriView {
            did: space.did@,
            type_nsid: space.type_nsid@,
            skey: space.skey@,
            user_did: None,
            collection: None,
            rkey: None,
        };
        uri::law_parse_of_text(address);
    }
}

/// A delegation token is handed out just to a listed member who reads the whole
/// space, through an application whose scope does not leave that out.
pub proof fn law_who_is_handed_a_delegation(
    space: Space,
    listed: Option<MemberAccess>,
    covered: Option<bool>,
)
    ensures
        delegation_verdict(
            space,
            service::membership_of(space, None, false, listed, false),
            covered,
        ) is Ok <==> (listed matches Some(access) && access.read && !access.read_self) && covered != Some(
            false,
        ),
{
}

/// A delegation token is exchanged just if the instance's key verifies it, for the
/// host or the PDS of the space that it names, and its issuer is the caller. Another
/// account's token is forbidden, and without a usable key none is exchanged.
pub proof fn law_when_grants_are_exchanged(
    grant: Seq<char>,
    caller_did: Seq<char>,
    key: Seq<u8>,
    now: u64,
    sub: Seq<char>,
    claims: DelegationView,
)
    requires
        credential::delegation_sub(grant) == Some(sub),
        crypto::k256_public_of(key) is Some,
    ensures
        grant_verdict(grant, caller_did, Some(key), now) == Ok::<DelegationView, ErrorView>(claims) <==> {
            &&& claims.iss == caller_did
            &&& credential::delegation_verdict(
                grant,
                crypto::k256_public_of(key)->0,
                seq![
                    named_space_did(sub) + "#atproto_space_host"@,
                    named_space_did(sub) + "#atproto_pds"@,
                ],
                now,
            ) == Ok::<DelegationView, ErrorView>(claims)
        },
        grant_verdict(grant, caller_did, None, now) matches Err(ErrorView::Internal(_)),
        forall|other: Seq<char>|
            grant_verdict(grant, caller_did, Some(key), now) is Ok && other != caller_did
                ==> #[trigger] grant_verdict(grant, other, Some(key), now) matches Err(
                ErrorView::Forbidden(_),
            ),
{
}

/// The name of an endpoint of the protocol.
pub open spec fn protocol_name(endpoint: Endpoint) -> Option<Seq<char>> {
    match endpoint {
        Endpoint::ListSpaces => Some("listSpaces"@),
        Endpoint::GetRecord => Some("getRecord"@),
        Endpoint::ListRecords => Some("listRecords"@),
        Endpoint::GetLatestCommit => Some("getLatestCommit"@),
        Endpoint::GetRepo => Some("getRepo"@),
        Endpoint::ListRepoOps => Some("listRepoOps"@),
        Endpoint::ListRepos => Some("listRepos"@),
        Endpoint::GetDelegationToken => Some("getDelegationToken"@),
        Endpoint::GetSpaceCredential => Some("getSpaceCredential"@),
        Endpoint::CreateRecord => Some("createRecord"@),
        Endpoint::PutRecord => Some("putRecord"@),
        Endpoint::DeleteRecord => Some("deleteRecord"@),
        Endpoint::ApplyWrites => Some("applyWrites"@),
        Endpoint::RegisterNotify => Some("registerNotify"@),
        Endpoint::UnregisterNotify => Some("unregisterNotify"@),
        Endpoint::ListBlobs => Some("listBlobs"@),
        Endpoint::NotifyWrite => Some("notifyWrite"@),
        Endpoint::NotifySpaceDeleted => Some("notifySpaceDeleted"@),
        Endpoint::GetBlob => Some("getBlob"@),
        _ => None,
    }
}

/// Every endpoint of the protocol is served under its name in the protocol's
/// namespace, and nothing else is, but for the older name of the latest commit.
pub proof fn law_the_protocol_is_served_under_its_names(endpoint: Endpoint, i: int)
    ensures
        protocol_name(endpoint) matches Some(name) ==> protocol_methods().contains(
            ("com.atproto.space."@ + name, endpoint),
        ),
        protocol_methods().contains(("com.atproto.space.getRepoState"@, Endpoint::GetLatestCommit)),
        0 <= i < protocol_methods().len() ==> (protocol_name(protocol_methods()[i].1) matches Some(name) && (
        protocol_methods()[i].0 == "com.atproto.space."@ + name || protocol_methods()[i] == (
            "com.atproto.space.getRepoState"@,
            Endpoint::GetLatestCommit,
        ))),
{
    reveal_strlit("com.atproto.space.");
    reveal_strlit("listSpaces");
    reveal_strlit("com.atproto.space.listSpaces");
    assert("com.atproto.space.listSpaces"@ =~= "com.atproto.space."@ + "listSpaces"@);
    reveal_strlit("getRecord");
    reveal_strlit("com.atproto.space.getRecord");
    assert("com.atproto.space.getRecord"@ =~= "com.atproto.space."@ + "getRecord"@);
    reveal_strlit("listRecords");
    reveal_strlit("com.atproto.space.listRecords");
    assert("com.atproto.space.listRecords"@ =~= "com.atproto.space."@ + "listRecords"@);
    reveal_strlit("getLatestCommit");
    reveal_strlit("com.atproto.space.getLatestCommit");
    assert("com.atproto.space.getLatestCommit"@ =~= "com.atproto.space."@ + "getLatestCommit"@);
    reveal_strlit("getRepo");
    reveal_strlit("com.atproto.space.getRepo");
    assert("com.atproto.space.getRepo"@ =~= "com.atproto.space."@ + "getRepo"@);
    reveal_strlit("listRepoOps");
    reveal_strlit("com.atproto.space.listRepoOps");
    assert("com.atproto.space.listRepoOps"@ =~= "com.atproto.space."@ + "listRepoOps"@);
    reveal_strlit("listRepos");
    reveal_strlit("com.atproto.space.listRepos");
    assert("com.atproto.space.listRepos"@ =~= "com.atproto.space."@ + "listRepos"@);
    reveal_strlit("getDelegationToken");
    reveal_strlit("com.atproto.space.getDelegationToken");
    assert("com.atproto.space.getDelegationToken"@ =~= "com.atproto.space."@ + "getDelegationToken"@);
    reveal_strlit("getSpaceCredential");
    reveal_strlit("com.atproto.space.getSpaceCredential");
    assert("com.atproto.space.getSpaceCredential"@ =~= "com.atproto.space."@ + "getSpaceCredential"@);
    reveal_strlit("createRecord");
    reveal_strlit("com.atproto.space.createRecord");
    assert("com.atproto.space.createRecord"@ =~= "com.atproto.space."@ + "createRecord"@);
    reveal_strlit("putRecord");
    reveal_strlit("com.atproto.space.putRecord");
    assert("com.atproto.space.putRecord"@ =~= "com.atproto.space."@ + "putRecord"@);
    reveal_strlit("deleteRecord");
    reveal_strlit("com.atproto.space.deleteRecord");
    assert("com.atproto.space.deleteRecord"@ =~= "com.atproto.space."@ + "deleteRecord"@);
    reveal_strlit("applyWrites");
    reveal_strlit("com.atproto.space.applyWrites");
    assert("com.atproto.space.applyWrites"@ =~= "com.atproto.space."@ + "applyWrites"@);
    reveal_strlit("registerNotify");
    reveal_strlit("com.atproto.space.registerNotify");
    assert("com.atproto.space.registerNotify"@ =~= "com.atproto.space."@ + "registerNotify"@);
    reveal_strlit("unregisterNotify");
    reveal_strlit("com.atproto.space.unregisterNotify");
    assert("com.atproto.space.unregisterNotify"@ =~= "com.atproto.space."@ + "unregisterNotify"@);
    reveal_strlit("listBlobs");
    reveal_strlit("com.atproto.space.listBlobs");
    assert("com.atproto.space.listBlobs"@ =~= "com.atproto.space."@ + "listBlobs"@);
    reveal_strlit("notifyWrite");
    reveal_strlit("com.atproto.space.notifyWrite");
    assert("com.atproto.space.notifyWrite"@ =~= "com.atproto.space."@ + "notifyWrite"@);
    reveal_strlit("notifySpaceDeleted");
    reveal_strlit("com.atproto.space.notifySpaceDeleted");
    assert("com.atproto.space.notifySpaceDeleted"@ =~= "com.atproto.space."@ + "notifySpaceDeleted"@);
    reveal_strlit("getBlob");
    reveal_strlit("com.atproto.space.getBlob");
    assert("com.atproto.space.getBlob"@ =~= "com.atproto.space."@ + "getBlob"@);
    assert(protocol_methods()[0] == ("com.atproto.space.listSpaces"@, Endpoint::ListSpaces));
    assert(protocol_methods()[1] == ("com.atproto.space.getRecord"@, Endpoint::GetRecord));
    assert(protocol_methods()[2] == ("com.atproto.space.listRecords"@, Endpoint::ListRecords));
    assert(protocol_methods()[3] == ("com.atproto.space.getLatestCommit"@, Endpoint::GetLatestCommit));
    assert(protocol_methods()[4] == ("com.atproto.space.getRepoState"@, Endpoint::GetLatestCommit));
    assert(protocol_methods()[5] == ("com.atproto.space.getRepo"@, Endpoint::GetRepo));
    assert(protocol_methods()[6] == ("com.atproto.space.listRepoOps"@, Endpoint::ListRepoOps));
    assert(protocol_methods()[7] == ("com.atproto.space.listRepos"@, Endpoint::ListRepos));
    assert(protocol_methods()[8] == ("com.atproto.space.getDelegationToken"@, Endpoint::GetDelegationToken));
    assert(protocol_methods()[9] == ("com.atproto.space.getSpaceCredential"@, Endpoint::GetSpaceCredential));
    assert(protocol_methods()[10] == ("com.atproto.space.createRecord"@, Endpoint::CreateRecord));
    assert(protocol_methods()[11] == ("com.atproto.space.putRecord"@, Endpoint::PutRecord));
    assert(protocol_methods()[12] == ("com.atproto.space.deleteRecord"@, Endpoint::DeleteRecord));
    assert(protocol_methods()[13] == ("com.atproto.space.applyWrites"@, Endpoint::ApplyWrites));
    assert(protocol_methods()[14] == ("com.atproto.space.registerNotify"@, Endpoint::RegisterNotify));
    assert(protocol_methods()[15] == ("com.atproto.space.unregisterNotify"@, Endpoint::UnregisterNotify));
    assert(protocol_methods()[16] == ("com.atproto.space.listBlobs"@, Endpoint::ListBlobs));
    assert(protocol_methods()[17] == ("com.atproto.space.notifyWrite"@, Endpoint::NotifyWrite));
    assert(protocol_methods()[18] == ("com.atproto.space.notifySpaceDeleted"@, Endpoint::NotifySpaceDeleted));
    assert(protocol_methods()[19] == ("com.atproto.space.getBlob"@, Endpoint::GetBlob));
}

/// The name that older clients call an endpoint by.
pub open spec fn legacy_name(endpoint: Endpoint) -> Option<Seq<char>> {
    match endpoint {
        Endpoint::CreateInvite => Some("createInvite"@),
        Endpoint::AcceptInvite => Some("acceptInvite"@),
        Endpoint::RevokeInvite => Some("revokeInvite"@),
        Endpoint::ListInvites => Some("listInvites"@),
        Endpoint::GetSpace => Some("getSpace"@),
        Endpoint::ListSpaces => Some("listSpaces"@),
        Endpoint::GetRecord => Some("getRecord"@),
        Endpoint::ListRecords => Some("listRecords"@),
        Endpoint::GetDelegationToken => Some("getMemberGrant"@),
        Endpoint::GetSpaceCredential => Some("getSpaceCredential"@),
        Endpoint::CreateRecord => Some("createRecord"@),
        Endpoint::PutRecord => Some("putRecord"@),
        Endpoint::DeleteRecord => Some("deleteRecord"@),
        Endpoint::ApplyWrites => Some("applyWrites"@),
        Endpoint::GetBlob => Some("getBlob"@),
        _ => None,
    }
}

/// Invites and what older clients call are served under their names beside the
/// protocol, and nothing else is.
pub proof fn law_aliases_are_served_under_their_names(endpoint: Endpoint, i: int)
    ensures
        legacy_name(endpoint) matches Some(name) ==> legacy_methods().contains(
            ("dev.happyview.space."@ + name, endpoint),
        ),
        0 <= i < legacy_methods().len() ==> (legacy_name(legacy_methods()[i].1) matches Some(name)
            && legacy_methods()[i].0 == "dev.happyview.space."@ + name),
{
    reveal_strlit("dev.happyview.space.");
    reveal_strlit("createInvite");
    reveal_strlit("dev.happyview.space.createInvite");
    assert("dev.happyview.space.createInvite"@ =~= "dev.happyview.space."@ + "createInvite"@);
    reveal_strlit("acceptInvite");
    reveal_strlit("dev.happyview.space.acceptInvite");
    assert("dev.happyview.space.acceptInvite"@ =~= "dev.happyview.space."@ + "acceptInvite"@);
    reveal_strlit("revokeInvite");
    reveal_strlit("dev.happyview.space.revokeInvite");
    assert("dev.happyview.space.revokeInvite"@ =~= "dev.happyview.space."@ + "revokeInvite"@);
    reveal_strlit("listInvites");
    reveal_strlit("dev.happyview.space.listInvites");
    assert("dev.happyview.space.listInvites"@ =~= "dev.happyview.space."@ + "listInvites"@);
    reveal_strlit("getSpace");
    reveal_strlit("dev.happyview.space.getSpace");
    assert("dev.happyview.space.getSpace"@ =~= "dev.happyview.space."@ + "getSpace"@);
    reveal_strlit("listSpaces");
    reveal_strlit("dev.happyview.space.listSpaces");
    assert("dev.happyview.space.listSpaces"@ =~= "dev.happyview.space."@ + "listSpaces"@);
    reveal_strlit("getRecord");
    reveal_strlit("dev.happyview.space.getRecord");
    assert("dev.happyview.space.getRecord"@ =~= "dev.happyview.space."@ + "getRecord"@);
    reveal_strlit("listRecords");
    reveal_strlit("dev.happyview.space.listRecords");
    assert("dev.happyview.space.listRecords"@ =~= "dev.happyview.space."@ + "listRecords"@);
    reveal_strlit("getMemberGrant");
    reveal_strlit("dev.happyview.space.getMemberGrant");
    assert("dev.happyview.space.getMemberGrant"@ =~= "dev.happyview.space."@ + "getMemberGrant"@);
    reveal_strlit("getSpaceCredential");
    reveal_strlit("dev.happyview.space.getSpaceCredential");
    assert("dev.happyview.space.getSpaceCredential"@ =~= "dev.happyview.space."@ + "getSpaceCredential"@);
    reveal_strlit("createRecord");
    reveal_strlit("dev.happyview.space.createRecord");
    assert("dev.happyview.space.createRecord"@ =~= "dev.happyview.space."@ + "createRecord"@);
    reveal_strlit("putRecord");
    reveal_strlit("dev.happyview.space.putRecord");
    assert("dev.happyview.space.putRecord"@ =~= "dev.happyview.space."@ + "putRecord"@);
    reveal_strlit("deleteRecord");
    reveal_strlit("dev.happyview.space.deleteRecord");
    assert("dev.happyview.space.deleteRecord"@ =~= "dev.happyview.space."@ + "deleteRecord"@);
    reveal_strlit("applyWrites");
    reveal_strlit("dev.happyview.space.applyWrites");
    assert("dev.happyview.space.applyWrites"@ =~= "dev.happyview.space."@ + "applyWrites"@);
    reveal_strlit("getBlob");
    reveal_strlit("dev.happyview.space.getBlob");
    assert("dev.happyview.space.getBlob"@ =~= "dev.happyview.space."@ + "getBlob"@);
    assert(legacy_methods()[0] == ("dev.happyview.space.createInvite"@, Endpoint::CreateInvite));
    assert(legacy_methods()[1] == ("dev.happyview.space.acceptInvite"@, Endpoint::AcceptInvite));
    assert(legacy_methods()[2] == ("dev.happyview.space.revokeInvite"@, Endpoint::RevokeInvite));
    assert(legacy_methods()[3] == ("dev.happyview.space.listInvites"@, Endpoint::ListInvites));
    assert(legacy_methods()[4] == ("dev.happyview.space.getSpace"@, Endpoint::GetSpace));
    assert(legacy_methods()[5] == ("dev.happyview.space.listSpaces"@, Endpoint::ListSpaces));
    assert(legacy_methods()[6] == ("dev.happyview.space.getRecord"@, Endpoint::GetRecord));
    assert(legacy_methods()[7] == ("dev.happyview.space.listRecords"@, Endpoint::ListRecords));
    assert(legacy_methods()[8] == ("dev.happyview.space.getMemberGrant"@, Endpoint::GetDelegationToken));
    assert(legacy_methods()[9] == ("dev.happyview.space.getSpaceCredential"@, Endpoint::GetSpaceCredential));
    assert(legacy_methods()[10] == ("dev.happyview.space.createRecord"@, Endpoint::CreateRecord));
    assert(legacy_methods()[11] == ("dev.happyview.space.putRecord"@, Endpoint::PutRecord));
    assert(legacy_methods()[12] == ("dev.happyview.space.deleteRecord"@, Endpoint::DeleteRecord));
    assert(legacy_methods()[13] == ("dev.happyview.space.applyWrites"@, Endpoint::ApplyWrites));
    assert(legacy_methods()[14] == ("dev.happyview.space.getBlob"@, Endpoint::GetBlob));
}

/// A state that a write commits to holds a commit over the hash, at the revision,
/// that verifies for the space and the author under the public key of the signing
/// key; and it is the same repo's as before.
pub proof fn law_what_is_committed_verifies(
    before: RepoState,
    after: RepoState,
    space: Space,
    author_did: Seq<char>,
    rev: Seq<char>,
    set_hash: Seq<u8>,
    hash: Seq<u8>,
    signing_key: Seq<u8>,
)
    requires
        service::committed(before, after, space, author_did, rev, set_hash, hash, signing_key),
    ensures
        crypto::p256_public_of(signing_key) matches Some(point) && (commit_of_state(after) matches Ok(held)
            && held.hash == hash && held.rev == rev && commit::commit_verdict(
            held,
            native_sync::space_address(space),
            author_did,
            commit::SpaceKeyView::P256(point),
        ) == Ok::<(), ErrorView>(())),
        after.space_id == before.space_id,
        after.author_did == before.author_did,
{
    let signed = choose|c: SignedCommit| #[trigger]
        service::sealed(before, after, c, set_hash) && c@ == commit::commit_of(
            hash,
            native_sync::space_address(space),
            author_did,
            rev,
            signing_key,
            c.ikm@,
        ) && commit::commit_verdict(
            c@,
            native_sync::space_address(space),
            author_did,
            commit::SpaceKeyView::P256(crypto::p256_public_of(signing_key)->0),
        ) == Ok::<(), ErrorView>(());
    law_sealed_state_holds_its_commit(before, after, signed, set_hash);
}

} // verus!
