//! Reads of a space, from the request to what may be shown.
//!
//! Every read goes the same way: who calls is found out, then the space, then
//! what the caller may do there, and then whether the repo that is asked for is
//! within that and within the application's scope. Each step takes what the one
//! before it established, so none can be left out.
use vstd::prelude::*;

use crate::auth::XrpcClaims;
use crate::error::{AppError, ErrorView};
use crate::spaces::car;
use crate::spaces::credential::SpaceCredentialClaims;
use crate::spaces::native_sync;
use crate::spaces::routes;
use crate::spaces::routes::{CallerSource, ReadTarget};
use crate::spaces::service;
use crate::spaces::types::{MemberAccess, RepoState, Space, SpaceRecord};
use crate::text;

verus! {

/// What a read finds out on its way: whom the caller's credential stands for, if
/// it is looked at; the space; for whom the credential is in the space; what the
/// member list grants; and whether the session's scope covers the read.
#[verifier::ext_equal]
pub struct ReadWorld {
    pub bearer: Result<Seq<char>, ErrorView>,
    pub bearer_revoked: bool,
    pub space: Option<Space>,
    pub credential_sub: Option<Seq<char>>,
    pub credential_revoked: bool,
    pub listed: Option<MemberAccess>,
    pub covered: Option<bool>,
}

/// Who a read is from.
pub open spec fn reader_of(claims: XrpcClaims, world: ReadWorld) -> Result<Seq<char>, ErrorView> {
    match claims.identity {
        Some(identity) => Ok(identity.did@),
        None => if claims.space_credential is None {
            Err(ErrorView::Auth("This endpoint requires authentication"@))
        } else {
            match world.bearer {
                Err(error) => Err(error),
                Ok(sub) => if world.bearer_revoked {
                    Err(ErrorView::Auth("space credential has been revoked"@))
                } else {
                    Ok(sub)
                },
            }
        },
    }
}

/// What a caller may do in the space that a read is about.
pub open spec fn reader_access_of(claims: XrpcClaims, world: ReadWorld) -> Result<MemberAccess, ErrorView> {
    match reader_of(claims, world) {
        Err(error) => Err(error),
        Ok(_) => match world.space {
            None => Err(service::no_space()),
            Some(space) => service::membership_of(
                space,
                world.credential_sub,
                world.credential_revoked,
                world.listed,
                false,
            ),
        },
    }
}

/// Whether a read of a repo is permitted.
pub open spec fn read_outcome(claims: XrpcClaims, target: Seq<char>, world: ReadWorld) -> Result<
    (),
    ErrorView,
> {
    match reader_access_of(claims, world) {
        Err(error) => Err(error),
        Ok(access) => routes::read_authorization(
            reader_of(claims, world)->Ok_0,
            target,
            world.space->0,
            access,
            claims.space_credential is Some,
            claims.identity is Some,
            world.covered,
        ),
    }
}

/// A read whose caller is known by a credential that is not verified yet.
pub struct UnverifiedReader {
    claims: XrpcClaims,
    token: String,
}

/// A read whose caller is known.
pub struct Reader {
    claims: XrpcClaims,
    did: String,
}

/// A read whose caller and space are known.
pub struct SpaceReader {
    claims: XrpcClaims,
    did: String,
    space: Space,
}

/// A read whose caller may read in the space, though perhaps not everything.
pub struct MemberReader {
    claims: XrpcClaims,
    did: String,
    space: Space,
    access: MemberAccess,
}

/// A read of a repo that is permitted.
pub struct PermittedRead {
    space: Space,
    target: String,
}

/// How a read begins.
pub enum ReadStart {
    Verify(UnverifiedReader),
    Known(Reader),
}

/// Begins a read. A credential is looked at for the caller only without a
/// session.
pub fn begin_read(claims: XrpcClaims) -> (start: Result<ReadStart, AppError>)
    ensures
        match start {
            Err(error) => forall|world: ReadWorld| #[trigger]
                reader_of(claims, world) == Err::<Seq<char>, ErrorView>(error@),
            Ok(ReadStart::Known(reader)) => reader.claims() == claims && forall|world: ReadWorld|
             #[trigger]
                reader_of(claims, world) == Ok::<Seq<char>, ErrorView>(reader.did()),
            Ok(ReadStart::Verify(unverified)) => unverified.claims() == claims && claims.identity is None
                && text::opt_text(claims.space_credential) == Some(unverified.token()),
        },
{
    match routes::auth_or_credential(&claims) {
        Err(error) => Err(error),
        Ok(CallerSource::Known(did)) => Ok(ReadStart::Known(Reader { claims, did })),
        Ok(CallerSource::Credential(token)) => Ok(
            ReadStart::Verify(UnverifiedReader { claims, token }),
        ),
    }
}

impl UnverifiedReader {
    /// What the request authenticates with.
    pub closed spec fn claims(self) -> XrpcClaims {
        self.claims
    }

    /// The credential.
    pub closed spec fn token(self) -> Seq<char> {
        self.token@
    }

    #[verifier::type_invariant]
    spec fn inv(self) -> bool {
        self.claims.identity is None && self.claims.space_credential is Some
    }

    /// The credential to verify.
    pub fn credential(&self) -> (token: &str)
        ensures
            token@ == self.token(),
    {
        self.token.as_str()
    }

    /// Goes on with what verifying the credential gave.
    pub fn on_verified(self, verified: Result<SpaceCredentialClaims, AppError>, revoked: bool) -> (reader:
        Result<Reader, AppError>)
        ensures
            forall|world: ReadWorld|
                world.bearer_revoked == revoked && world.bearer == (match verified {
                    Ok(credential) => Ok::<Seq<char>, ErrorView>(credential.sub@),
                    Err(error) => Err(error@),
                }) ==> #[trigger] reader_of(self.claims(), world) == (match reader {
                    Ok(reader) => Ok(reader.did()),
                    Err(error) => Err(error@),
                }),
            reader matches Ok(reader) ==> reader.claims() == self.claims(),
    {
        proof {
            use_type_invariant(&self);
        }
        match verified {
            Err(error) => Err(error),
            Ok(credential) => match routes::credential_caller(credential, revoked) {
                Ok(did) => Ok(Reader { claims: self.claims, did }),
                Err(error) => Err(error),
            },
        }
    }
}

impl Reader {
    /// What the request authenticates with.
    pub closed spec fn claims(self) -> XrpcClaims {
        self.claims
    }

    /// The caller.
    pub closed spec fn did(self) -> Seq<char> {
        self.did@
    }

    /// Goes on with the space that the read is about, if it was found.
    pub fn on_space(self, found: Option<Space>) -> (reader: Result<SpaceReader, AppError>)
        ensures
            match reader {
                Ok(reader) => found == Some(reader.space()) && reader.did() == self.did()
                    && reader.claims() == self.claims(),
                Err(error) => found is None && error@ == service::no_space(),
            },
    {
        match service::resolve_space(found) {
            Ok(space) => Ok(SpaceReader { claims: self.claims, did: self.did, space }),
            Err(error) => Err(error),
        }
    }
}

impl SpaceReader {
    /// What the request authenticates with.
    pub closed spec fn claims(self) -> XrpcClaims {
        self.claims
    }

    /// The caller.
    pub closed spec fn did(self) -> Seq<char> {
        self.did@
    }

    /// The space.
    pub closed spec fn space(self) -> Space {
        self.space
    }

    /// Whose membership to look up, where, and the credential to verify for that.
    pub fn question(&self) -> (question: (&str, &Space, Option<&str>))
        ensures
            question.0@ == self.did(),
            *question.1 == self.space(),
            text::opt_str(question.2) == text::opt_text(self.claims().space_credential),
    {
        (self.did.as_str(), &self.space, text::opt_as_str(&self.claims.space_credential))
    }

    /// Goes on with what the credential, if it verified, and the member list say.
    pub fn on_membership(
        self,
        verified: Option<&SpaceCredentialClaims>,
        revoked: bool,
        listed: Option<MemberAccess>,
    ) -> (reader: Result<MemberReader, AppError>)
        ensures
            service::membership_of(
                self.space(),
                match verified {
                    Some(credential) => Some(credential.sub@),
                    None => None,
                },
                revoked,
                listed,
                false,
            ) == (match reader {
                Ok(reader) => Ok(reader.access()),
                Err(error) => Err(error@),
            }),
            reader matches Ok(reader) ==> reader.claims() == self.claims() && reader.did() == self.did()
                && reader.space() == self.space(),
    {
        match service::require_membership(&self.space, verified, revoked, listed, false) {
            Ok(access) => Ok(
                MemberReader { claims: self.claims, did: self.did, space: self.space, access },
            ),
            Err(error) => Err(error),
        }
    }
}

impl MemberReader {
    /// What the request authenticates with.
    pub closed spec fn claims(self) -> XrpcClaims {
        self.claims
    }

    /// The caller.
    pub closed spec fn did(self) -> Seq<char> {
        self.did@
    }

    /// The space.
    pub closed spec fn space(self) -> Space {
        self.space
    }

    /// What the caller may do in the space.
    pub closed spec fn access(self) -> MemberAccess {
        self.access
    }

    /// What the session's scope must cover to read a repo, if that is asked for.
    pub fn scope_for(&self, target: &str) -> (scope: Option<ReadTarget>)
        ensures
            scope == (if self.claims().space_credential is Some || self.claims().identity is None {
                None
            } else if self.did() == target@ {
                Some(ReadTarget::ReadSelf)
            } else {
                Some(ReadTarget::Read)
            }),
    {
        routes::read_scope(
            self.did.as_str(),
            target,
            self.claims.space_credential.is_some(),
            self.claims.identity.is_some(),
        )
    }

    /// Goes on with the repo that is asked for, and whether the session's scope
    /// covers reading it.
    pub fn authorize(self, target: String, covered: Option<bool>) -> (read: Result<PermittedRead, AppError>)
        ensures
            routes::read_authorization(
                self.did(),
                target@,
                self.space(),
                self.access(),
                self.claims().space_credential is Some,
                self.claims().identity is Some,
                covered,
            ) == (match read {
                Ok(_) => Ok(()),
                Err(error) => Err(error@),
            }),
            read matches Ok(read) ==> read.space() == self.space() && read.target() == target@,
    {
        match routes::authorize_space_read(
            self.did.as_str(),
            target.as_str(),
            &self.space,
            self.access,
            self.claims.space_credential.is_some(),
            self.claims.identity.is_some(),
            covered,
        ) {
            Ok(_) => Ok(PermittedRead { space: self.space, target }),
            Err(error) => Err(error),
        }
    }

    /// Whose records are listed, where a list is asked for.
    pub fn listed_repo(&self, asked: Option<String>) -> (repo: Option<String>)
        ensures
            text::opt_text(repo) == routes::listed_repo_of(
                self.did(),
                text::opt_text(asked),
                self.access(),
                self.claims().space_credential is Some,
            ),
    {
        routes::listed_repo(
            self.did.as_str(),
            asked,
            self.access,
            self.claims.space_credential.is_some(),
        )
    }
}

impl PermittedRead {
    /// The space.
    pub closed spec fn space(self) -> Space {
        self.space
    }

    /// The repo that may be read.
    pub closed spec fn target(self) -> Seq<char> {
        self.target@
    }

    /// The space and the repo to read.
    pub fn subject(&self) -> (subject: (&Space, &str))
        ensures
            *subject.0 == self.space(),
            subject.1@ == self.target(),
    {
        (&self.space, self.target.as_str())
    }

    /// The archive of the repo: the commit that its state holds, and its records.
    pub fn get_repo(&self, repo_state: RepoState, records: &Vec<SpaceRecord>) -> (bytes: Result<
        Vec<u8>,
        AppError,
    >)
        ensures
            crate::error::outcome(bytes) == repo_archive(repo_state, records@),
    {
        let commit = match routes::state_commit(repo_state) {
            Ok(commit) => commit,
            Err(error) => {
                return Err(error);
            },
        };
        car::serialize_repo(&commit, records)
    }
}

/// The archive of a repo.
pub open spec fn repo_archive(repo_state: RepoState, records: Seq<SpaceRecord>) -> Result<
    Seq<u8>,
    ErrorView,
> {
    match routes::commit_of_state(repo_state) {
        Err(error) => Err(error),
        Ok(commit) => car::car_of(commit, car::record_views(records)),
    }
}

/// A user reads a repo through an application just if they are a member of the
/// space who may read that repo, and the application's scope does not leave it
/// out.
pub proof fn law_users_read_as_members(claims: XrpcClaims, target: Seq<char>, world: ReadWorld)
    requires
        claims.space_credential is None,
        world.credential_sub is None,
    ensures
        read_outcome(claims, target, world) is Ok <==> {
            &&& claims.identity matches Some(identity)
            &&& world.space is Some
            &&& world.listed matches Some(access)
            &&& access.read
            &&& access.read_self ==> identity.did@ == target
            &&& world.covered != Some(false)
        },
{
}

/// The bearer of a credential for a space reads the whole space, and one of a
/// credential for another space, or of a revoked one, only as a member.
pub proof fn law_credentials_open_their_space(claims: XrpcClaims, target: Seq<char>, world: ReadWorld)
    requires
        claims.identity is None,
        claims.space_credential is Some,
        world.bearer is Ok,
        !world.bearer_revoked,
        world.space is Some,
    ensures
        world.credential_sub == Some(native_sync::space_address(world.space->0))
            && !world.credential_revoked ==> read_outcome(claims, target, world) is Ok,
        read_outcome(claims, target, world) is Ok ==> (world.credential_sub == Some(
            native_sync::space_address(world.space->0),
        ) && !world.credential_revoked) || world.listed is Some,
{
}

/// A read is from the session's user, whatever credential comes with it. Without a
/// session it is from whom the credential stands for, if it was verified and not
/// revoked; and from nobody without either.
pub proof fn law_who_a_read_is_from(claims: XrpcClaims, world: ReadWorld)
    ensures
        claims.identity matches Some(identity) ==> reader_of(claims, world) == Ok::<Seq<char>, ErrorView>(
            identity.did@,
        ),
        claims.identity is None && claims.space_credential is None ==> reader_of(claims, world) matches Err(
            ErrorView::Auth(_),
        ),
        claims.identity is None && claims.space_credential is Some ==> (reader_of(claims, world) is Ok
            <==> world.bearer is Ok && !world.bearer_revoked),
        claims.identity is None && reader_of(claims, world) is Ok ==> reader_of(claims, world) == world.bearer,
{
}

/// Who calls is found out before the space is: without a caller nothing is told of
/// it, and a caller learns that there is no such space. The archive of a repo is that
/// of the commit that its state holds, and there is none without one.
pub proof fn law_reads_find_out_who_calls_first(
    claims: XrpcClaims,
    world: ReadWorld,
    target: Seq<char>,
    repo_state: RepoState,
    records: Seq<SpaceRecord>,
)
    ensures
        reader_of(claims, world) matches Err(error) ==> read_outcome(claims, target, world) == Err::<
            (),
            ErrorView,
        >(error),
        reader_of(claims, world) is Ok && world.space is None ==> read_outcome(claims, target, world) matches Err(
            ErrorView::NotFound(_),
        ),
        repo_archive(repo_state, records) is Ok ==> routes::commit_of_state(repo_state) is Ok,
        routes::commit_of_state(repo_state) matches Ok(held) ==> repo_archive(repo_state, records)
            == car::car_of(held, car::record_views(records)),
{
}

} // verus!
