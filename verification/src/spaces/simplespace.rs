//! Managing spaces: the methods of the management namespace.
use vstd::prelude::*;

use crate::auth::{Claims, XrpcClaims};
use crate::error::{AppError, ErrorView};
use crate::json::Json;
use crate::json::JsonView;
use crate::spaces::routes;
use crate::spaces::routes::Endpoint;
use crate::spaces::types;
use crate::spaces::types::{AppAccess, AppAccessView, MemberAccess, Policy, PolicyView, Space};
use crate::text;

verus! {

/// The management methods that this build serves.
pub open spec fn management_methods() -> Seq<(Seq<char>, Endpoint)> {
    seq![
        ("com.atproto.simplespace.createSpace"@, Endpoint::CreateSpace),
        ("com.atproto.simplespace.updateSpace"@, Endpoint::UpdateSpace),
        ("com.atproto.simplespace.deleteSpace"@, Endpoint::DeleteSpace),
        ("com.atproto.simplespace.getSpace"@, Endpoint::GetSpace),
        ("com.atproto.simplespace.putMember"@, Endpoint::PutMember),
        ("com.atproto.simplespace.removeMember"@, Endpoint::RemoveMember),
        ("com.atproto.simplespace.listMembers"@, Endpoint::ListMembers),
    ]
}

/// The management methods that this build serves.
pub fn management_method_table() -> (table: Vec<(String, Endpoint)>)
    ensures
        routes::method_views(table@) == management_methods(),
{
    let table = vec![
        ("com.atproto.simplespace.createSpace".to_owned(), Endpoint::CreateSpace),
        ("com.atproto.simplespace.updateSpace".to_owned(), Endpoint::UpdateSpace),
        ("com.atproto.simplespace.deleteSpace".to_owned(), Endpoint::DeleteSpace),
        ("com.atproto.simplespace.getSpace".to_owned(), Endpoint::GetSpace),
        ("com.atproto.simplespace.putMember".to_owned(), Endpoint::PutMember),
        ("com.atproto.simplespace.removeMember".to_owned(), Endpoint::RemoveMember),
        ("com.atproto.simplespace.listMembers".to_owned(), Endpoint::ListMembers),
    ];
    assert(routes::method_views(table@) =~= management_methods());
    table
}

/// The aliases of management methods that older clients call.
pub open spec fn legacy_management_methods() -> Seq<(Seq<char>, Endpoint)> {
    seq![
        ("dev.happyview.space.createSpace"@, Endpoint::CreateSpace),
        ("dev.happyview.space.updateSpace"@, Endpoint::UpdateSpace),
        ("dev.happyview.space.deleteSpace"@, Endpoint::DeleteSpace),
        ("dev.happyview.space.putMember"@, Endpoint::PutMember),
        ("dev.happyview.space.removeMember"@, Endpoint::RemoveMember),
        ("dev.happyview.space.listMembers"@, Endpoint::ListMembers),
    ]
}

/// The routes of the management methods and of their aliases.
pub fn simplespace_routes() -> (table: Vec<(String, Endpoint)>)
    ensures
        routes::method_views(table@) == routes::routes_of(
            management_methods() + legacy_management_methods(),
        ),
{
    let mut table = management_method_table();
    let ghost managed = table@;
    let mut legacy = vec![
        ("dev.happyview.space.createSpace".to_owned(), Endpoint::CreateSpace),
        ("dev.happyview.space.updateSpace".to_owned(), Endpoint::UpdateSpace),
        ("dev.happyview.space.deleteSpace".to_owned(), Endpoint::DeleteSpace),
        ("dev.happyview.space.putMember".to_owned(), Endpoint::PutMember),
        ("dev.happyview.space.removeMember".to_owned(), Endpoint::RemoveMember),
        ("dev.happyview.space.listMembers".to_owned(), Endpoint::ListMembers),
    ];
    let ghost aliases = legacy@;
    assert(routes::method_views(aliases) =~= legacy_management_methods());
    table.append(&mut legacy);
    assert(routes::method_views(table@) =~= routes::method_views(managed) + routes::method_views(
        aliases,
    ));
    routes::xrpc_routes(&table)
}

/// Who a request is from.
pub fn require_auth(claims: &XrpcClaims) -> (result: Result<&Claims, AppError>)
    ensures
        match result {
            Ok(identity) => claims.identity == Some(*identity),
            Err(error) => claims.identity is None && error@ == ErrorView::Auth(
                "This endpoint requires authentication"@,
            ),
        },
{
    routes::require_auth(claims)
}

/// What an optional value is.
pub open spec fn opt_json_view(raw: Option<&Json>) -> Option<JsonView> {
    match raw {
        Some(value) => Some(value@),
        None => None,
    }
}

/// The policy that a request gives, if any.
///
/// A host must reject a policy that it does not implement rather than store one
/// that it cannot enforce, and says so with a code of its own, so that a client
/// can tell it from a malformed request.
pub open spec fn given_policy(raw: Option<JsonView>, field: Seq<char>) -> Result<
    Option<PolicyView>,
    ErrorView,
> {
    match raw {
        None => Ok(None),
        Some(value) => match types::policy_of_json(value) {
            Some(policy) => Ok(Some(policy)),
            None => Err(
                ErrorView::XrpcError {
                    status: 400,
                    code: "UnsupportedPolicy"@,
                    message: field + " names a policy this host does not implement"@,
                },
            ),
        },
    }
}

/// Reads the policy that a request gives, if any.
pub fn parse_policy(raw: Option<&Json>, field: &str) -> (policy: Result<Option<Policy>, AppError>)
    ensures
        match policy {
            Ok(Some(p)) => given_policy(opt_json_view(raw), field@) == Ok::<
                Option<PolicyView>,
                ErrorView,
            >(Some(p@)),
            Ok(None) => given_policy(opt_json_view(raw), field@) == Ok::<Option<PolicyView>, ErrorView>(
                None,
            ),
            Err(error) => given_policy(opt_json_view(raw), field@) == Err::<
                Option<PolicyView>,
                ErrorView,
            >(error@),
        },
{
    match raw {
        None => Ok(None),
        Some(value) => match Policy::from_json(value) {
            Some(policy) => Ok(Some(policy)),
            None => Err(
                AppError::XrpcError {
                    status: 400,
                    code: "UnsupportedPolicy".to_owned(),
                    message: text::cat2(field, " names a policy this host does not implement"),
                },
            ),
        },
    }
}

/// The access rule that a request gives, if any.
pub open spec fn given_app_access(raw: Option<JsonView>) -> Result<Option<AppAccessView>, ErrorView> {
    match raw {
        None => Ok(None),
        Some(value) => match types::app_access_of_json(value) {
            Some(access) => Ok(Some(access)),
            None => Err(
                ErrorView::XrpcError {
                    status: 400,
                    code: "UnsupportedAppAccess"@,
                    message: "appAccess names a variant this host does not implement"@,
                },
            ),
        },
    }
}

/// Reads the access rule that a request gives, if any.
pub fn parse_app_access(raw: Option<&Json>) -> (access: Result<Option<AppAccess>, AppError>)
    ensures
        match access {
            Ok(Some(a)) => given_app_access(opt_json_view(raw)) == Ok::<
                Option<AppAccessView>,
                ErrorView,
            >(Some(a@)),
            Ok(None) => given_app_access(opt_json_view(raw)) == Ok::<Option<AppAccessView>, ErrorView>(
                None,
            ),
            Err(error) => given_app_access(opt_json_view(raw)) == Err::<
                Option<AppAccessView>,
                ErrorView,
            >(error@),
        },
{
    match raw {
        None => Ok(None),
        Some(value) => match AppAccess::from_json(value) {
            Some(access) => Ok(Some(access)),
            None => Err(
                AppError::XrpcError {
                    status: 400,
                    code: "UnsupportedAppAccess".to_owned(),
                    message: "appAccess names a variant this host does not implement".to_owned(),
                },
            ),
        },
    }
}

/// Whether a space's members may be listed to a caller: to anyone if its
/// membership is public, and else to its members.
pub open spec fn member_list_verdict(space: Space, caller: Option<Seq<char>>, is_member: bool) -> Result<
    (),
    ErrorView,
> {
    if space.config.membership_public {
        Ok(())
    } else {
        match caller {
            None => Err(ErrorView::Auth("This endpoint requires authentication"@)),
            Some(_) => if is_member {
                Ok(())
            } else {
                Err(ErrorView::Forbidden("You are not a member of this space"@))
            },
        }
    }
}

/// Refuses to list a space's members to whom it may not.
pub fn check_member_list(space: &Space, claims: &XrpcClaims, is_member: bool) -> (result: Result<
    (),
    AppError,
>)
    ensures
        crate::error::unit_outcome(result) == member_list_verdict(
            *space,
            match claims.identity {
                Some(identity) => Some(identity.did@),
                None => None,
            },
            is_member,
        ),
{
    if space.config.membership_public {
        return Ok(());
    }
    match require_auth(claims) {
        Err(error) => Err(error),
        Ok(_) => if is_member {
            Ok(())
        } else {
            Err(AppError::Forbidden("You are not a member of this space".to_owned()))
        },
    }
}

/// The grant that a request to put a member asks for. The limit to own records
/// cannot be set over the wire: the protocol's member list has no such thing.
pub fn requested_access(read: bool, write: bool) -> (access: MemberAccess)
    ensures
        access == (MemberAccess { read, write, read_self: false }),
{
    MemberAccess { read, write, read_self: false }
}

/// A policy that is not given stays open, one that is given is what its object
/// says, and one that this host does not know is refused as unsupported.
pub proof fn law_given_policies_are_known_ones(
    raw: Option<JsonView>,
    field: Seq<char>,
    policy: Option<PolicyView>,
)
    ensures
        given_policy(raw, field) == Ok::<Option<PolicyView>, ErrorView>(policy) <==> match raw {
            None => policy is None,
            Some(value) => policy is Some && types::policy_of_json(value) == policy,
        },
        given_policy(raw, field) matches Err(error) ==> (error matches ErrorView::XrpcError {
            status,
            code,
            message,
        } && status == 400 && code == "UnsupportedPolicy"@ && text::has_prefix(message, field)),
{
    let message = field + " names a policy this host does not implement"@;
    assert(message.take(field.len() as int) =~= field);
}

/// What applications a space admits is what its object says, if one is given, and
/// one that this host does not know is refused as unsupported.
pub proof fn law_given_app_access_is_known(raw: Option<JsonView>, access: Option<AppAccessView>)
    ensures
        given_app_access(raw) == Ok::<Option<AppAccessView>, ErrorView>(access) <==> match raw {
            None => access is None,
            Some(value) => access is Some && types::app_access_of_json(value) == access,
        },
        given_app_access(raw) matches Err(error) ==> (error matches ErrorView::XrpcError {
            status,
            code,
            message,
        } && status == 400 && code == "UnsupportedAppAccess"@),
{
}

/// The member list is shown to everyone if membership is public, and else just to
/// members: who is not known must say who they are, and others are forbidden.
pub proof fn law_who_sees_the_member_list(space: Space, caller: Option<Seq<char>>, is_member: bool)
    ensures
        member_list_verdict(space, caller, is_member) is Ok <==> space.config.membership_public || (caller
            is Some && is_member),
        member_list_verdict(space, caller, is_member) matches Err(error) ==> (if caller is None {
            error is Auth
        } else {
            error is Forbidden
        }),
{
}

/// The name of an endpoint that manages spaces or their members.
pub open spec fn management_name(endpoint: Endpoint) -> Option<Seq<char>> {
    match endpoint {
        Endpoint::CreateSpace => Some("createSpace"@),
        Endpoint::UpdateSpace => Some("updateSpace"@),
        Endpoint::DeleteSpace => Some("deleteSpace"@),
        Endpoint::GetSpace => Some("getSpace"@),
        Endpoint::PutMember => Some("putMember"@),
        Endpoint::RemoveMember => Some("removeMember"@),
        Endpoint::ListMembers => Some("listMembers"@),
        _ => None,
    }
}

/// Every endpoint that manages spaces is served under its name in the management
/// namespace, and nothing else is.
pub proof fn law_management_is_served_under_its_names(endpoint: Endpoint, i: int)
    ensures
        management_name(endpoint) matches Some(name) ==> management_methods().contains(
            ("com.atproto.simplespace."@ + name, endpoint),
        ),
        0 <= i < management_methods().len() ==> (management_name(management_methods()[i].1) matches Some(name)
            && management_methods()[i].0 == "com.atproto.simplespace."@ + name),
        0 <= i < legacy_management_methods().len() ==> (management_name(
            legacy_management_methods()[i].1,
        ) matches Some(name) && legacy_management_methods()[i].0 == "dev.happyview.space."@ + name),
        management_name(endpoint) is Some && endpoint != Endpoint::GetSpace ==> exists|j: int|
            0 <= j < legacy_management_methods().len() && (#[trigger] legacy_management_methods()[j]).1
                == endpoint,
{
    reveal_strlit("com.atproto.simplespace.");
    reveal_strlit("dev.happyview.space.");
    reveal_strlit("createSpace");
    reveal_strlit("com.atproto.simplespace.createSpace");
    reveal_strlit("updateSpace");
    reveal_strlit("com.atproto.simplespace.updateSpace");
    reveal_strlit("deleteSpace");
    reveal_strlit("com.atproto.simplespace.deleteSpace");
    reveal_strlit("getSpace");
    reveal_strlit("com.atproto.simplespace.getSpace");
    reveal_strlit("putMember");
    reveal_strlit("com.atproto.simplespace.putMember");
    reveal_strlit("removeMember");
    reveal_strlit("com.atproto.simplespace.removeMember");
    reveal_strlit("listMembers");
    reveal_strlit("com.atproto.simplespace.listMembers");
    reveal_strlit("dev.happyview.space.createSpace");
    reveal_strlit("dev.happyview.space.updateSpace");
    reveal_strlit("dev.happyview.space.deleteSpace");
    reveal_strlit("dev.happyview.space.putMember");
    reveal_strlit("dev.happyview.space.removeMember");
    reveal_strlit("dev.happyview.space.listMembers");
    assert("com.atproto.simplespace.createSpace"@ =~= "com.atproto.simplespace."@ + "createSpace"@);
    assert("com.atproto.simplespace.updateSpace"@ =~= "com.atproto.simplespace."@ + "updateSpace"@);
    assert("com.atproto.simplespace.deleteSpace"@ =~= "com.atproto.simplespace."@ + "deleteSpace"@);
    assert("com.atproto.simplespace.getSpace"@ =~= "com.atproto.simplespace."@ + "getSpace"@);
    assert("com.atproto.simplespace.putMember"@ =~= "com.atproto.simplespace."@ + "putMember"@);
    assert("com.atproto.simplespace.removeMember"@ =~= "com.atproto.simplespace."@ + "removeMember"@);
    assert("com.atproto.simplespace.listMembers"@ =~= "com.atproto.simplespace."@ + "listMembers"@);
    assert("dev.happyview.space.createSpace"@ =~= "dev.happyview.space."@ + "createSpace"@);
    assert("dev.happyview.space.updateSpace"@ =~= "dev.happyview.space."@ + "updateSpace"@);
    assert("dev.happyview.space.deleteSpace"@ =~= "dev.happyview.space."@ + "deleteSpace"@);
    assert("dev.happyview.space.putMember"@ =~= "dev.happyview.space."@ + "putMember"@);
    assert("dev.happyview.space.removeMember"@ =~= "dev.happyview.space."@ + "removeMember"@);
    assert("dev.happyview.space.listMembers"@ =~= "dev.happyview.space."@ + "listMembers"@);
    assert(management_methods()[0].1 == Endpoint::CreateSpace);
    assert(management_methods()[1].1 == Endpoint::UpdateSpace);
    assert(management_methods()[2].1 == Endpoint::DeleteSpace);
    assert(management_methods()[3].1 == Endpoint::GetSpace);
    assert(management_methods()[4].1 == Endpoint::PutMember);
    assert(management_methods()[5].1 == Endpoint::RemoveMember);
    assert(management_methods()[6].1 == Endpoint::ListMembers);
    assert(legacy_management_methods()[0].1 == Endpoint::CreateSpace);
    assert(legacy_management_methods()[1].1 == Endpoint::UpdateSpace);
    assert(legacy_management_methods()[2].1 == Endpoint::DeleteSpace);
    assert(legacy_management_methods()[3].1 == Endpoint::PutMember);
    assert(legacy_management_methods()[4].1 == Endpoint::RemoveMember);
    assert(legacy_management_methods()[5].1 == Endpoint::ListMembers);
}

} // verus!
