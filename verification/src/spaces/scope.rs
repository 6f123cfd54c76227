//! What membership, and what a session's scope, permits.
use vstd::prelude::*;

use crate::auth::Claims;
use crate::error::{AppError, ErrorView};
use crate::spaces::types::{MemberAccess, Space};
use crate::text;

verus! {

/// Whether a caller may read a target repo.
///
/// Space credentials always grant full read: they were authorized when they were
/// issued. Other callers are limited by their membership.
pub open spec fn read_verdict(
    caller_did: Seq<char>,
    target_repo_did: Seq<char>,
    access: MemberAccess,
    has_space_credential: bool,
) -> Result<(), ErrorView> {
    if has_space_credential {
        Ok(())
    } else if !access.read {
        Err(ErrorView::Forbidden("you do not have read access to this space"@))
    } else if access.read_self && caller_did != target_repo_did {
        Err(ErrorView::Forbidden("read_self access only permits reading your own repo"@))
    } else {
        Ok(())
    }
}

/// Checks whether the caller may read a specific target repo.
pub fn check_read_access(
    caller_did: &str,
    target_repo_did: &str,
    access: MemberAccess,
    has_space_credential: bool,
) -> (result: Result<(), AppError>)
    ensures
        crate::error::unit_outcome(result) == read_verdict(
            caller_did@,
            target_repo_did@,
            access,
            has_space_credential,
        ),
{
    if has_space_credential {
        return Ok(());
    }
    if !access.can_read() {
        return Err(AppError::Forbidden("you do not have read access to this space".to_owned()));
    }
    if access.restricted_to_own_records() && !text::same_text(caller_did, target_repo_did) {
        return Err(
            AppError::Forbidden("read_self access only permits reading your own repo".to_owned()),
        );
    }
    Ok(())
}

/// Whether a caller may obtain a delegation token: only with full read access.
pub open spec fn delegation_token_verdict(access: MemberAccess, has_space_credential: bool) -> Result<
    (),
    ErrorView,
> {
    if has_space_credential {
        Ok(())
    } else if !access.read {
        Err(ErrorView::Forbidden("you do not have read access to this space"@))
    } else if access.read_self {
        Err(ErrorView::Forbidden("read_self access does not permit obtaining delegation tokens"@))
    } else {
        Ok(())
    }
}

/// Checks whether the caller may obtain a delegation token.
///
/// Requires full `read` access: `read_self` members cannot obtain delegation
/// tokens.
pub fn check_delegation_token_access(access: MemberAccess, has_space_credential: bool) -> (result:
    Result<(), AppError>)
    ensures
        crate::error::unit_outcome(result) == delegation_token_verdict(access, has_space_credential),
{
    if has_space_credential {
        return Ok(());
    }
    if !access.can_read() {
        return Err(AppError::Forbidden("you do not have read access to this space".to_owned()));
    }
    if access.restricted_to_own_records() {
        return Err(
            AppError::Forbidden(
                "read_self access does not permit obtaining delegation tokens".to_owned(),
            ),
        );
    }
    Ok(())
}

/// Whoever may obtain a delegation token may read every repo: the token opens
/// nothing that its holder could not read directly.
pub proof fn law_delegation_needs_full_read(
    access: MemberAccess,
    has_space_credential: bool,
    caller: Seq<char>,
    target: Seq<char>,
)
    ensures
        delegation_token_verdict(access, has_space_credential) is Ok ==> read_verdict(
            caller,
            target,
            access,
            has_space_credential,
        ) is Ok,
        (forall|t: Seq<char>| #[trigger] read_verdict(caller, t, access, has_space_credential) is Ok)
            ==> delegation_token_verdict(access, has_space_credential) is Ok,
{
    if forall|t: Seq<char>| #[trigger] read_verdict(caller, t, access, has_space_credential) is Ok {
        let other = caller.push('x');
        assert(other.len() != caller.len());
        assert(read_verdict(caller, other, access, has_space_credential) is Ok);
    }
}

/// More access never denies a read that less access permits.
pub proof fn law_read_is_monotone(
    more: MemberAccess,
    less: MemberAccess,
    caller: Seq<char>,
    target: Seq<char>,
)
    requires
        more.covers(less),
    ensures
        read_verdict(caller, target, less, false) is Ok ==> read_verdict(caller, target, more, false) is Ok,
{
}

/// What must be known before a session's scope can be checked: which client and
/// key the session is bound to. A first-party session is bound to none, and has
/// no delegated grant to check.
pub fn scope_session(claims: &Claims) -> (session: Option<(String, String)>)
    ensures
        match session {
            Some((client_key, dpop_key_id)) => text::opt_text(claims.client_key) == Some(client_key@)
                && text::opt_text(claims.dpop_key_id) == Some(dpop_key_id@),
            None => claims.client_key is None || claims.dpop_key_id is None,
        },
{
    match (&claims.client_key, &claims.dpop_key_id) {
        (Some(client_key), Some(dpop_key_id)) => Some((client_key.clone(), dpop_key_id.clone())),
        _ => None,
    }
}

/// Whether a session may act on a space for its user, given what is known of
/// its scopes: nothing, or whether they cover what it wants to do.
///
/// Two independent gates guard a space, and both must pass: the member list says
/// what the user may do, and the scope says what the app may do on their behalf.
/// A session is let through without a grant only if it carries no scope at all.
pub open spec fn scope_verdict(space: Space, covered: Option<bool>) -> Result<(), ErrorView> {
    match covered {
        None => Ok(()),
        Some(true) => Ok(()),
        Some(false) => Err(
            ErrorView::Forbidden(
                "this session is not authorized for this space: it needs a space: grant covering "@
                    + space.type_nsid@ + "?authority="@ + space.authority_did@ + "&skey="@
                    + space.skey@
                    + ". Scopes are fixed when a session is created, so this needs a new authorization."@,
            ),
        ),
    }
}

/// Refuses a request unless the caller's session holds a covering grant.
pub fn require_space_scope(space: &Space, covered: Option<bool>) -> (result: Result<(), AppError>)
    ensures
        crate::error::unit_outcome(result) == scope_verdict(*space, covered),
{
    match covered {
        None => Ok(()),
        Some(true) => Ok(()),
        Some(false) => {
            let mut message = text::cat4(
                "this session is not authorized for this space: it needs a space: grant covering ",
                space.type_nsid.as_str(),
                "?authority=",
                space.authority_did.as_str(),
            );
            message.append("&skey=");
            message.append(space.skey.as_str());
            message.append(
                ". Scopes are fixed when a session is created, so this needs a new authorization.",
            );
            Err(AppError::Forbidden(message))
        },
    }
}

/// Who may read a repo: whoever has a credential for the space, a member who reads
/// everything, and a member who reads only their own records if it is their own;
/// nobody else, who is forbidden it.
pub proof fn law_who_reads_a_repo(
    caller: Seq<char>,
    target: Seq<char>,
    access: MemberAccess,
    has_space_credential: bool,
)
    ensures
        has_space_credential ==> read_verdict(caller, target, access, true) is Ok,
        access.reads_everything() ==> read_verdict(caller, target, access, false) is Ok,
        access.read && access.read_self ==> (read_verdict(caller, target, access, false) is Ok <==> caller
            == target),
        !access.read ==> read_verdict(caller, target, access, false) is Err,
        read_verdict(caller, target, access, has_space_credential) matches Err(error) ==> error
            is Forbidden,
{
}

/// A delegation token is for those who read everything, and for holders of a
/// credential.
pub proof fn law_who_obtains_a_delegation_token(access: MemberAccess, has_space_credential: bool)
    ensures
        delegation_token_verdict(access, has_space_credential) is Ok <==> has_space_credential
            || access.reads_everything(),
        delegation_token_verdict(access, has_space_credential) matches Err(error) ==> error is Forbidden,
{
}

/// A session is let through if its scope covers what it wants, or if it carries
/// none; one whose scope does not cover it is forbidden it.
pub proof fn law_scopes_must_cover(space: Space, covered: Option<bool>)
    ensures
        covered is None ==> scope_verdict(space, covered) is Ok,
        covered == Some(true) ==> scope_verdict(space, covered) is Ok,
        covered == Some(false) ==> scope_verdict(space, covered) matches Err(ErrorView::Forbidden(_)),
{
}

/// Who lacks a grant is told the one that the space asks for: its type, its
/// authority and its key.
pub proof fn law_the_missing_grant_is_named(space: Space, message: Seq<char>)
    requires
        scope_verdict(space, Some(false)) == Err::<(), ErrorView>(ErrorView::Forbidden(message)),
    ensures
        exists|before: Seq<char>, after: Seq<char>|
            message == #[trigger] (before + (space.type_nsid@ + "?authority="@ + space.authority_did@ + "&skey="@
                + space.skey@) + after),
{
    let before = "this session is not authorized for this space: it needs a space: grant covering "@;
    let after = ". Scopes are fixed when a session is created, so this needs a new authorization."@;
    let grant = space.type_nsid@ + "?authority="@ + space.authority_did@ + "&skey="@ + space.skey@;
    assert(message =~= before + grant + after);
}

} // verus!
