//! The OAuth endpoints: provisioning keys, registering sessions and minting
//! client assertions.
use vstd::prelude::*;

use crate::error::{AppError, ErrorView};
use crate::oauth::client_auth;
use crate::oauth::client_auth::{ClientRow, ClientRowView, ClientView, ResolvedClient};
use crate::oauth::client_keys;
use crate::oauth::client_keys::{ClientKey, KeyView};
use crate::text;

verus! {

/// The URL that a proof of possession is made for.
pub open spec fn htu_of(public_url: Seq<char>, host: Seq<char>, path: Seq<char>) -> Seq<char> {
    if text::has_prefix(public_url, "https"@) {
        "https"@ + "://"@ + host + path
    } else {
        "http"@ + "://"@ + host + path
    }
}

/// The URL that a proof of possession is validated against. The path is the one
/// that the client put on the wire, for that is what it signed.
pub fn dpop_htu(public_url: &str, host: &str, path: &str) -> (htu: String)
    ensures
        htu@ == htu_of(public_url@, host@, path@),
{
    let scheme = if text::starts_with(public_url, "https") {
        "https"
    } else {
        "http"
    };
    text::cat4(scheme, "://", host, path)
}

/// The headers that a session endpoint authenticates with.
#[derive(Debug)]
pub struct SessionAuthHeaders {
    pub client_key: String,
    pub client_secret: Option<String>,
    pub auth_header: Option<String>,
    pub dpop_proof: Option<String>,
    pub host: String,
}

impl SessionAuthHeaders {
    /// Takes the headers that a request has, as far as they are text. Without a
    /// key the client is nobody, and without a host it is the local one.
    pub fn from_values(
        client_key: Option<String>,
        client_secret: Option<String>,
        auth_header: Option<String>,
        dpop_proof: Option<String>,
        host: Option<String>,
    ) -> (headers: SessionAuthHeaders)
        ensures
            headers.client_key@ == (match client_key {
                Some(key) => key@,
                None => Seq::empty(),
            }),
            headers.client_secret == client_secret,
            headers.auth_header == auth_header,
            headers.dpop_proof == dpop_proof,
            headers.host@ == (match host {
                Some(h) => h@,
                None => "localhost"@,
            }),
    {
        SessionAuthHeaders {
            client_key: match client_key {
                Some(key) => key,
                None => String::new(),
            },
            client_secret,
            auth_header,
            dpop_proof,
            host: match host {
                Some(h) => h,
                None => "localhost".to_owned(),
            },
        }
    }
}

/// How a request authenticates its client.
pub enum ClientAuth {
    /// By the client's secret.
    Secret(String),
    /// By an access token and a proof of possession of the session's key.
    Dpop,
}

/// Decides how a request authenticates its client.
pub fn client_auth_of(headers: &SessionAuthHeaders) -> (auth: Result<ClientAuth, AppError>)
    ensures
        match auth {
            Ok(ClientAuth::Secret(secret)) => headers.client_key@.len() > 0 && text::opt_text(
                headers.client_secret,
            ) == Some(secret@),
            Ok(ClientAuth::Dpop) => headers.client_key@.len() > 0 && headers.client_secret is None,
            Err(error) => headers.client_key@.len() == 0 && error@ == ErrorView::Auth(
                "X-Client-Key header required"@,
            ),
        },
{
    proof {
        reveal_strlit("");
        assert(""@ =~= Seq::empty());
        assert(headers.client_key@.len() == 0 ==> headers.client_key@ =~= Seq::empty());
    }
    if text::same_text(headers.client_key.as_str(), "") {
        return Err(AppError::Auth("X-Client-Key header required".to_owned()));
    }
    match &headers.client_secret {
        Some(secret) => Ok(ClientAuth::Secret(secret.clone())),
        None => Ok(ClientAuth::Dpop),
    }
}

/// The access token and the proof that a request carries.
pub open spec fn dpop_credentials_of(auth_header: Option<Seq<char>>, proof_header: Option<Seq<char>>) -> Result<
    (Seq<char>, Seq<char>),
    ErrorView,
> {
    match auth_header {
        None => Err(ErrorView::Auth("DPoP auth requires Authorization: DPoP <token>"@)),
        Some(header) => match text::after_prefix(header, "DPoP "@) {
            None => Err(
                ErrorView::Auth("DPoP auth requires the DPoP authorization scheme"@),
            ),
            Some(token) => match proof_header {
                None => Err(ErrorView::Auth("DPoP auth requires a DPoP proof header"@)),
                Some(value) => Ok((token, value)),
            },
        },
    }
}

/// Reads the access token and the proof that a request carries.
pub fn dpop_credentials(headers: &SessionAuthHeaders) -> (result: Result<(String, String), AppError>)
    ensures
        match result {
            Ok((token, value)) => dpop_credentials_of(
                text::opt_text(headers.auth_header),
                text::opt_text(headers.dpop_proof),
            ) == Ok::<(Seq<char>, Seq<char>), ErrorView>((token@, value@)),
            Err(error) => dpop_credentials_of(
                text::opt_text(headers.auth_header),
                text::opt_text(headers.dpop_proof),
            ) == Err::<(Seq<char>, Seq<char>), ErrorView>(error@),
        },
{
    let header = match &headers.auth_header {
        Some(header) => header,
        None => {
            return Err(
                AppError::Auth("DPoP auth requires Authorization: DPoP <token>".to_owned()),
            );
        },
    };
    let token = match text::strip_prefix(header.as_str(), "DPoP ") {
        Some(token) => token,
        None => {
            return Err(
                AppError::Auth("DPoP auth requires the DPoP authorization scheme".to_owned()),
            );
        },
    };
    match &headers.dpop_proof {
        Some(value) => Ok((token.to_owned(), value.clone())),
        None => Err(AppError::Auth("DPoP auth requires a DPoP proof header".to_owned())),
    }
}

/// The client that a request authenticated as, and for a session the key that it
/// is bound to.
#[derive(Debug)]
pub struct AuthenticatedClient {
    pub resolved: ResolvedClient,
    pub dpop_key_id: Option<String>,
}

/// What a request has to authenticate its client with.
#[verifier::ext_equal]
pub enum RequestAuthView {
    /// The client's secret, which is the client's.
    Secret(ClientView),
    /// An access token and a proof, to be checked for the client.
    Proof { client: ClientView, token: Seq<char>, value: Seq<char> },
}

/// What a request has to authenticate its client with, given what is known of the
/// client, or why that is nothing.
pub open spec fn request_auth_of(headers: SessionAuthHeaders, row: Option<ClientRowView>) -> Result<
    RequestAuthView,
    ErrorView,
> {
    if headers.client_key@.len() == 0 {
        Err(ErrorView::Auth("X-Client-Key header required"@))
    } else {
        match headers.client_secret {
            Some(secret) => match client_auth::confidential_verdict(row, secret@) {
                Err(error) => Err(error),
                Ok(client) => Ok(RequestAuthView::Secret(client)),
            },
            None => match client_auth::known_client(row) {
                Err(error) => Err(error),
                Ok(client) => match dpop_credentials_of(
                    text::opt_text(headers.auth_header),
                    text::opt_text(headers.dpop_proof),
                ) {
                    Err(error) => Err(error),
                    Ok((token, value)) => Ok(RequestAuthView::Proof { client, token, value }),
                },
            },
        }
    }
}

/// A request that waits for its client.
pub struct RequestClient {
    headers: SessionAuthHeaders,
}

/// A request whose access token and proof are to be checked.
pub struct ProofCheck {
    client: ResolvedClient,
    token: String,
    value: String,
    host: String,
}

/// How the authentication of a request goes on.
pub enum RequestAuth {
    Authenticated(AuthenticatedClient),
    Check(ProofCheck),
}

/// Takes a request that is to authenticate its client.
pub fn authenticate_request_client(headers: SessionAuthHeaders) -> (request: Result<
    RequestClient,
    AppError,
>)
    ensures
        match request {
            Ok(request) => headers.client_key@.len() > 0 && request.headers() == headers,
            Err(error) => forall|row: Option<ClientRowView>| #[trigger]
                request_auth_of(headers, row) == Err::<RequestAuthView, ErrorView>(error@),
        },
{
    match client_auth_of(&headers) {
        Ok(_) => Ok(RequestClient { headers }),
        Err(error) => Err(error),
    }
}

impl RequestClient {
    /// What the request carries.
    pub closed spec fn headers(self) -> SessionAuthHeaders {
        self.headers
    }

    #[verifier::type_invariant]
    spec fn inv(self) -> bool {
        self.headers.client_key@.len() > 0
    }

    /// The client to look up.
    pub fn client(&self) -> (key: &str)
        ensures
            key@ == self.headers().client_key@,
    {
        self.headers.client_key.as_str()
    }

    /// Goes on with the client.
    pub fn on_client(self, row: Option<ClientRow>) -> (auth: Result<RequestAuth, AppError>)
        ensures
            request_auth_of(self.headers(), client_auth::row_view(row)) == (match auth {
                Ok(RequestAuth::Authenticated(client)) => Ok(RequestAuthView::Secret(client.resolved@)),
                Ok(RequestAuth::Check(check)) => Ok(
                    RequestAuthView::Proof {
                        client: check.client(),
                        token: check.token(),
                        value: check.value(),
                    },
                ),
                Err(error) => Err(error@),
            }),
            auth matches Ok(RequestAuth::Authenticated(client)) ==> client.dpop_key_id is None,
            auth matches Ok(RequestAuth::Check(check)) ==> check.host() == self.headers().host@,
    {
        proof {
            use_type_invariant(&self);
        }
        if let Some(secret) = &self.headers.client_secret {
            return match client_auth::authenticate_confidential(row, secret.as_str()) {
                Ok(resolved) => Ok(
                    RequestAuth::Authenticated(AuthenticatedClient { resolved, dpop_key_id: None }),
                ),
                Err(error) => Err(error),
            };
        }
        let client = match client_auth::resolve_client_by_key(row) {
            Ok(client) => client,
            Err(error) => {
                return Err(error);
            },
        };
        match dpop_credentials(&self.headers) {
            Ok((token, value)) => Ok(
                RequestAuth::Check(ProofCheck { client, token, value, host: self.headers.host }),
            ),
            Err(error) => Err(error),
        }
    }
}

impl ProofCheck {
    /// The client.
    pub closed spec fn client(self) -> ClientView {
        self.client@
    }

    /// The access token.
    pub closed spec fn token(self) -> Seq<char> {
        self.token@
    }

    /// The proof.
    pub closed spec fn value(self) -> Seq<char> {
        self.value@
    }

    /// The host that the request was sent to.
    pub closed spec fn host(self) -> Seq<char> {
        self.host@
    }

    /// What to check: the client whose keys to look in, the access token and the
    /// proof, and the URL that the proof must be for.
    pub fn question(&self, public_url: &str, path: &str) -> (question: (
        &ResolvedClient,
        &str,
        &str,
        String,
    ))
        ensures
            question.0@ == self.client(),
            question.1@ == self.token(),
            question.2@ == self.value(),
            question.3@ == htu_of(public_url@, self.host(), path@),
    {
        (
            &self.client,
            self.token.as_str(),
            self.value.as_str(),
            dpop_htu(public_url, self.host.as_str(), path),
        )
    }

    /// Goes on with the key that the proof was found to be made with.
    pub fn on_key(self, dpop_key_id: String) -> (client: AuthenticatedClient)
        ensures
            client.resolved@ == self.client(),
            text::opt_text(client.dpop_key_id) == Some(dpop_key_id@),
    {
        AuthenticatedClient { resolved: self.client, dpop_key_id: Some(dpop_key_id) }
    }
}

/// A request authenticates its client only if it names one that is known, and
/// carries that client's secret or, without a secret, a token with a proof.
pub proof fn law_requests_prove_their_client(headers: SessionAuthHeaders, row: Option<ClientRowView>)
    ensures
        request_auth_of(headers, row) matches Ok(auth) ==> headers.client_key@.len() > 0 && (row matches Some(
            known,
        ) && match auth {
            RequestAuthView::Secret(client) => client == known.resolved() && headers.client_secret is Some,
            RequestAuthView::Proof { client, .. } => client == known.resolved() && headers.client_secret
                is None && headers.dpop_proof is Some && headers.auth_header is Some,
        }),
{
}

/// Which sessions a request is about: all of a user with the client, or the one
/// that is bound to a key.
///
/// Possession of a session's key authorizes using the session, and so it does
/// ending it.
pub fn concerned_session(client: &AuthenticatedClient) -> (key: Option<String>)
    ensures
        text::opt_text(key) == text::opt_text(client.dpop_key_id),
{
    text::clone_opt(&client.dpop_key_id)
}

/// How a request for a client assertion authenticates.
pub enum MintPath {
    /// By a provision and the answer to its PKCE challenge: a browser client that
    /// is signing in has no secret and no session yet.
    Provision { provision_id: String, pkce_verifier: String },
    /// As any other request.
    Request,
}

/// Decides how a request for a client assertion authenticates.
pub fn mint_path(provision_id: Option<String>, pkce_verifier: Option<String>) -> (path: Result<
    MintPath,
    AppError,
>)
    ensures
        match path {
            Ok(MintPath::Provision { provision_id: id, pkce_verifier: verifier }) => provision_id
                == Some(id) && pkce_verifier == Some(verifier),
            Ok(MintPath::Request) => provision_id is None && pkce_verifier is None,
            Err(error) => (provision_id is None) != (pkce_verifier is None) && error@
                == ErrorView::BadRequest("provision_id and pkce_verifier must be sent together"@),
        },
{
    match (provision_id, pkce_verifier) {
        (Some(provision_id), Some(pkce_verifier)) => Ok(
            MintPath::Provision { provision_id, pkce_verifier },
        ),
        (None, None) => Ok(MintPath::Request),
        _ => Err(
            AppError::BadRequest("provision_id and pkce_verifier must be sent together".to_owned()),
        ),
    }
}

/// The failure for an instance without an encryption key.
pub fn require_encryption_key(configured: bool) -> (result: Result<(), AppError>)
    ensures
        crate::error::unit_outcome(result) == (if configured {
            Ok(())
        } else {
            Err(ErrorView::Internal("TOKEN_ENCRYPTION_KEY not configured"@))
        }),
{
    if configured {
        Ok(())
    } else {
        Err(AppError::Internal("TOKEN_ENCRYPTION_KEY not configured".to_owned()))
    }
}

/// A key that was provisioned.
#[derive(Debug)]
pub struct ProvisionedKey {
    pub dpop_key_id: String,
    pub client_id: String,
    pub pkce_challenge: Option<String>,
}

/// What a [`ProvisionedKey`] is.
#[verifier::ext_equal]
pub struct ProvisionView {
    pub dpop_key_id: Seq<char>,
    pub client_id: Seq<char>,
    pub pkce_challenge: Option<Seq<char>>,
}

impl View for ProvisionedKey {
    type V = ProvisionView;

    open spec fn view(&self) -> ProvisionView {
        ProvisionView {
            dpop_key_id: self.dpop_key_id@,
            client_id: self.client_id@,
            pkce_challenge: text::opt_text(self.pkce_challenge),
        }
    }
}

/// Whether a client holds a provision: the provision is its own, and it answers
/// the challenge.
pub open spec fn holds_provision(client_id: Seq<char>, provision: ProvisionView, verifier: Seq<char>) -> Result<
    (),
    ErrorView,
> {
    if provision.client_id != client_id {
        Err(ErrorView::Auth("provision_id does not belong to this client"@))
    } else {
        match provision.pkce_challenge {
            None => Err(ErrorView::BadRequest("no PKCE challenge found for this provision"@)),
            Some(challenge) => if client_auth::pkce_answers(challenge, verifier) {
                Ok(())
            } else {
                Err(ErrorView::Auth("PKCE verification failed"@))
            },
        }
    }
}

/// Checks that a client that asks for an assertion holds a provision.
pub fn check_provision(client: &ResolvedClient, provision: &ProvisionedKey, pkce_verifier: &str) -> (result:
    Result<(), AppError>)
    ensures
        crate::error::unit_outcome(result) == holds_provision(
            client@.id,
            provision@,
            pkce_verifier@,
        ),
{
    if !text::same_text(provision.client_id.as_str(), client.id.as_str()) {
        return Err(AppError::Auth("provision_id does not belong to this client".to_owned()));
    }
    match &provision.pkce_challenge {
        None => Err(AppError::BadRequest("no PKCE challenge found for this provision".to_owned())),
        Some(challenge) => if client_auth::verify_pkce(challenge.as_str(), pkce_verifier) {
            Ok(())
        } else {
            Err(AppError::Auth("PKCE verification failed".to_owned()))
        },
    }
}

/// The key that signs an assertion, or the failure.
pub open spec fn assertion_key_of(keys: Seq<KeyView>, kid: Option<Seq<char>>) -> Result<
    KeyView,
    ErrorView,
> {
    match client_keys::signing_key_of(keys, kid) {
        Some(key) => Ok(key),
        None => match kid {
            Some(name) => Err(
                ErrorView::BadRequest(
                    "no usable authentication key '"@ + name
                        + "' for this client; it may have been revoked, in which case any session established under it is gone and the app must run a fresh authorization rather than a refresh"@,
                ),
            ),
            None => Err(
                ErrorView::BadRequest(
                    "this client has no authentication key; provision one first"@,
                ),
            ),
        },
    }
}

/// Finds the key that signs an assertion: the one that is asked for, or the
/// current one.
pub fn assertion_key<'a>(keys: &'a Vec<ClientKey>, kid: Option<&str>) -> (key: Result<
    &'a ClientKey,
    AppError,
>)
    ensures
        match key {
            Ok(k) => assertion_key_of(client_keys::key_views(keys@), text::opt_str(kid)) == Ok::<
                KeyView,
                ErrorView,
            >(k@),
            Err(error) => assertion_key_of(client_keys::key_views(keys@), text::opt_str(kid))
                == Err::<KeyView, ErrorView>(error@),
        },
{
    match client_keys::find_by_kid(keys, kid) {
        Some(key) => Ok(key),
        None => match kid {
            Some(name) => Err(
                AppError::BadRequest(
                    text::cat3(
                        "no usable authentication key '",
                        name,
                        "' for this client; it may have been revoked, in which case any session established under it is gone and the app must run a fresh authorization rather than a refresh",
                    ),
                ),
            ),
            None => Err(
                AppError::BadRequest(
                    "this client has no authentication key; provision one first".to_owned(),
                ),
            ),
        },
    }
}

/// What a request for a client assertion finds out: the client by its key,
/// whether the instance has an encryption key, the key that was provisioned, whom
/// the request authenticates as, and the client's keys.
#[verifier::ext_equal]
pub struct AssertionWorld {
    pub client: Option<ClientRowView>,
    pub has_encryption_key: bool,
    pub provision: ProvisionView,
    pub authenticated: Result<ClientView, ErrorView>,
    pub keys: Seq<KeyView>,
}

/// A request for a client assertion.
#[derive(Debug)]
pub struct AssertionBody {
    pub kid: Option<String>,
    pub provision_id: Option<String>,
    pub pkce_verifier: Option<String>,
}

/// What becomes of a request for a client assertion: which client it is for, and
/// which of the client's keys signs it.
pub open spec fn assertion_of(body: AssertionBody, origin: Option<Seq<char>>, world: AssertionWorld) -> Result<
    (ClientView, KeyView),
    ErrorView,
> {
    match asserting_client(body, origin, world) {
        Err(error) => Err(error),
        Ok(client) => match assertion_key_of(world.keys, text::opt_text(body.kid)) {
            Err(error) => Err(error),
            Ok(key) => Ok((client, key)),
        },
    }
}

/// Which client a request for an assertion is from: one that holds a provision,
/// or the one that the request authenticates as.
pub open spec fn asserting_client(body: AssertionBody, origin: Option<Seq<char>>, world: AssertionWorld) -> Result<
    ClientView,
    ErrorView,
> {
    match (body.provision_id, body.pkce_verifier) {
        (Some(_), Some(verifier)) => match client_auth::public_verdict(world.client, origin) {
            Err(error) => Err(error),
            Ok(client) => if !world.has_encryption_key {
                Err(ErrorView::Internal("TOKEN_ENCRYPTION_KEY not configured"@))
            } else {
                match holds_provision(client.id, world.provision, verifier@) {
                    Err(error) => Err(error),
                    Ok(_) => Ok(client),
                }
            },
        },
        (None, None) => world.authenticated,
        _ => Err(ErrorView::BadRequest("provision_id and pkce_verifier must be sent together"@)),
    }
}

/// A request for an assertion that waits for the client by its key.
pub struct AssertionClient {
    kid: Option<String>,
    client_key: String,
    provision_id: String,
    pkce_verifier: String,
    origin: Option<String>,
}

/// A request for an assertion that waits for the key that was provisioned.
pub struct AssertionProvision {
    kid: Option<String>,
    provision_id: String,
    pkce_verifier: String,
    client: ResolvedClient,
}

/// A request for an assertion that waits to be authenticated as any other.
pub struct AssertionSession {
    kid: Option<String>,
}

/// A request for an assertion whose client is known.
pub struct AssertionKeys {
    kid: Option<String>,
    client: ResolvedClient,
}

/// How a request for an assertion goes on.
pub enum AssertionStep {
    Client(AssertionClient),
    Session(AssertionSession),
}

impl AssertionStep {
    /// What becomes of the request.
    pub open spec fn outcome(self, world: AssertionWorld) -> Result<(ClientView, KeyView), ErrorView> {
        match self {
            AssertionStep::Client(state) => state.outcome(world),
            AssertionStep::Session(state) => state.outcome(world),
        }
    }
}

/// Takes a request for a client assertion. One that names a provision is from the
/// client whose key it carries; any other is to authenticate itself.
pub fn mint_client_assertion(
    headers: &SessionAuthHeaders,
    body: AssertionBody,
    origin: Option<String>,
) -> (step: Result<AssertionStep, AppError>)
    ensures
        forall|world: AssertionWorld| #[trigger]
            assertion_of(body, text::opt_text(origin), world) == (match step {
                Ok(step) => step.outcome(world),
                Err(error) => Err(error@),
            }),
        step matches Ok(AssertionStep::Client(state)) ==> Some(state.provision_id()) == text::opt_text(
            body.provision_id,
        ) && state.client_key() == headers.client_key@,
{
    match mint_path(body.provision_id, body.pkce_verifier) {
        Err(error) => Err(error),
        Ok(MintPath::Provision { provision_id, pkce_verifier }) => Ok(
            AssertionStep::Client(
                AssertionClient {
                    kid: body.kid,
                    client_key: headers.client_key.clone(),
                    provision_id,
                    pkce_verifier,
                    origin,
                },
            ),
        ),
        Ok(MintPath::Request) => Ok(AssertionStep::Session(AssertionSession { kid: body.kid })),
    }
}

/// What becomes of a known client's request for an assertion.
spec fn signed_by(client: ClientView, kid: Option<String>, keys: Seq<KeyView>) -> Result<
    (ClientView, KeyView),
    ErrorView,
> {
    match assertion_key_of(keys, text::opt_text(kid)) {
        Err(error) => Err(error),
        Ok(key) => Ok((client, key)),
    }
}

impl AssertionClient {
    /// The key of the client that the request names.
    pub closed spec fn client_key(self) -> Seq<char> {
        self.client_key@
    }

    /// The client to look up.
    pub fn client(&self) -> (key: &str)
        ensures
            key@ == self.client_key(),
    {
        self.client_key.as_str()
    }

    /// The provision that the client names.
    pub closed spec fn provision_id(self) -> Seq<char> {
        self.provision_id@
    }

    /// What becomes of the request.
    pub closed spec fn outcome(self, world: AssertionWorld) -> Result<(ClientView, KeyView), ErrorView> {
        match client_auth::public_verdict(world.client, text::opt_text(self.origin)) {
            Err(error) => Err(error),
            Ok(client) => if !world.has_encryption_key {
                Err(ErrorView::Internal("TOKEN_ENCRYPTION_KEY not configured"@))
            } else {
                match holds_provision(client.id, world.provision, self.pkce_verifier@) {
                    Err(error) => Err(error),
                    Ok(_) => signed_by(client, self.kid, world.keys),
                }
            },
        }
    }

    /// Goes on with the client.
    pub fn on_client(self, row: Option<ClientRow>, has_encryption_key: bool) -> (next: Result<
        AssertionProvision,
        AppError,
    >)
        ensures
            forall|world: AssertionWorld|
                world.client == client_auth::row_view(row) && world.has_encryption_key
                    == has_encryption_key ==> #[trigger] self.outcome(world) == (match next {
                    Ok(state) => state.outcome(world),
                    Err(error) => Err(error@),
                }),
            next matches Ok(state) ==> state.provision_id() == self.provision_id(),
    {
        let client = match client_auth::authenticate_public(row, text::opt_as_str(&self.origin)) {
            Ok(client) => client,
            Err(error) => {
                return Err(error);
            },
        };
        match require_encryption_key(has_encryption_key) {
            Ok(_) => {},
            Err(error) => {
                return Err(error);
            },
        }
        Ok(
            AssertionProvision {
                kid: self.kid,
                provision_id: self.provision_id,
                pkce_verifier: self.pkce_verifier,
                client,
            },
        )
    }
}

impl AssertionProvision {
    /// The provision that the client names.
    pub closed spec fn provision_id(self) -> Seq<char> {
        self.provision_id@
    }

    /// What becomes of the request.
    pub closed spec fn outcome(self, world: AssertionWorld) -> Result<(ClientView, KeyView), ErrorView> {
        match holds_provision(self.client@.id, world.provision, self.pkce_verifier@) {
            Err(error) => Err(error),
            Ok(_) => signed_by(self.client@, self.kid, world.keys),
        }
    }

    /// The provision to look up.
    pub fn provision(&self) -> (id: &str)
        ensures
            id@ == self.provision_id(),
    {
        self.provision_id.as_str()
    }

    /// Goes on with the key that was provisioned.
    pub fn on_provision(self, provision: &ProvisionedKey) -> (next: Result<AssertionKeys, AppError>)
        ensures
            forall|world: AssertionWorld|
                world.provision == provision@ ==> #[trigger] self.outcome(world) == (match next {
                    Ok(state) => state.outcome(world),
                    Err(error) => Err(error@),
                }),
    {
        match check_provision(&self.client, provision, self.pkce_verifier.as_str()) {
            Ok(_) => Ok(AssertionKeys { kid: self.kid, client: self.client }),
            Err(error) => Err(error),
        }
    }
}

impl AssertionSession {
    /// What becomes of the request.
    pub closed spec fn outcome(self, world: AssertionWorld) -> Result<(ClientView, KeyView), ErrorView> {
        match world.authenticated {
            Err(error) => Err(error),
            Ok(client) => signed_by(client, self.kid, world.keys),
        }
    }

    /// Goes on with whom the request authenticates as.
    pub fn on_client(self, client: ResolvedClient) -> (next: AssertionKeys)
        ensures
            forall|world: AssertionWorld|
                world.authenticated == Ok::<ClientView, ErrorView>(client@) ==> #[trigger] self.outcome(
                    world,
                ) == next.outcome(world),
    {
        AssertionKeys { kid: self.kid, client }
    }
}

impl AssertionKeys {
    /// What becomes of the request.
    pub closed spec fn outcome(self, world: AssertionWorld) -> Result<(ClientView, KeyView), ErrorView> {
        signed_by(self.client@, self.kid, world.keys)
    }

    /// The client that the assertion is for.
    pub closed spec fn asserted(self) -> ClientView {
        self.client@
    }

    /// The client whose keys to look up.
    pub fn client(&self) -> (client: &ResolvedClient)
        ensures
            client@ == self.asserted(),
    {
        &self.client
    }

    /// Finds the key that signs the assertion.
    pub fn signing_key<'a>(&self, keys: &'a Vec<ClientKey>) -> (key: Result<&'a ClientKey, AppError>)
        ensures
            forall|world: AssertionWorld|
                world.keys == client_keys::key_views(keys@) ==> #[trigger] self.outcome(world) == (match key {
                    Ok(key) => Ok((self.asserted(), key@)),
                    Err(error) => Err(error@),
                }),
    {
        assertion_key(keys, text::opt_as_str(&self.kid))
    }
}

/// An assertion is minted for a client that names a provision only if the
/// provision is its own and it answers the provision's challenge.
pub proof fn law_assertions_need_the_provision(
    body: AssertionBody,
    origin: Option<Seq<char>>,
    world: AssertionWorld,
)
    ensures
        assertion_of(body, origin, world) matches Ok((client, key)) ==> (body.provision_id is Some
            ==> client.id == world.provision.client_id && (world.provision.pkce_challenge matches Some(
            challenge,
        ) && (body.pkce_verifier matches Some(verifier) && client_auth::pkce_answers(
            challenge,
            verifier@,
        )))),
{
}

/// Whom a key is provisioned for, or why not: a confidential client with its
/// secret, or a public one that gives a PKCE challenge.
pub open spec fn provision_verdict(
    client_key: Option<Seq<char>>,
    has_encryption_key: bool,
    secret: Option<Seq<char>>,
    challenge: Option<Seq<char>>,
    origin: Option<Seq<char>>,
    row: Option<ClientRowView>,
) -> Result<ClientView, ErrorView> {
    if client_key is None {
        Err(ErrorView::Auth("X-Client-Key header required"@))
    } else if !has_encryption_key {
        Err(ErrorView::Internal("TOKEN_ENCRYPTION_KEY not configured"@))
    } else {
        match secret {
            Some(s) => client_auth::confidential_verdict(row, s),
            None => if challenge is None {
                Err(ErrorView::BadRequest("public clients must provide pkce_challenge"@))
            } else {
                client_auth::public_verdict(row, origin)
            },
        }
    }
}

/// A request for a key that waits for its client.
pub struct ProvisionRequest {
    client_key: String,
    secret: Option<String>,
    challenge: Option<String>,
    origin: Option<String>,
}

/// A key that is to be provisioned.
#[derive(Debug)]
pub struct Provision {
    pub id: String,
    pub provision_id: String,
    pub client: ResolvedClient,
    pub pkce_challenge: Option<String>,
}

/// The key of the client that a request names, or the refusal of a request that
/// names none.
pub open spec fn named_client(client_key: Option<Seq<char>>) -> Result<Seq<char>, ErrorView> {
    match client_key {
        Some(key) => Ok(key),
        None => Err(ErrorView::Auth("X-Client-Key header required"@)),
    }
}

/// The key of the client that a request names.
pub fn require_client_key(client_key: Option<String>) -> (key: Result<String, AppError>)
    ensures
        crate::error::outcome(key) == named_client(text::opt_text(client_key)),
{
    match client_key {
        Some(key) => Ok(key),
        None => Err(AppError::Auth("X-Client-Key header required".to_owned())),
    }
}

/// Takes a request for a key.
pub fn provision_dpop_key(
    client_key: Option<String>,
    has_encryption_key: bool,
    secret: Option<String>,
    challenge: Option<String>,
    origin: Option<String>,
) -> (request: Result<ProvisionRequest, AppError>)
    ensures
        forall|row: Option<ClientRowView>| #[trigger]
            provision_verdict(
                text::opt_text(client_key),
                has_encryption_key,
                text::opt_text(secret),
                text::opt_text(challenge),
                text::opt_text(origin),
                row,
            ) == (match request {
                Ok(request) => request.verdict(row),
                Err(error) => Err(error@),
            }),
        request matches Ok(request) ==> Some(request.client_key()) == text::opt_text(client_key)
            && request.challenge() == text::opt_text(challenge),
{
    let client_key = match require_client_key(client_key) {
        Ok(key) => key,
        Err(error) => {
            return Err(error);
        },
    };
    match require_encryption_key(has_encryption_key) {
        Ok(_) => {},
        Err(error) => {
            return Err(error);
        },
    }
    if secret.is_none() && challenge.is_none() {
        return Err(AppError::BadRequest("public clients must provide pkce_challenge".to_owned()));
    }
    Ok(ProvisionRequest { client_key, secret, challenge, origin })
}

impl ProvisionRequest {
    /// Whom the key is provisioned for, given what is known of the client.
    pub closed spec fn verdict(self, row: Option<ClientRowView>) -> Result<ClientView, ErrorView> {
        match self.secret {
            Some(s) => client_auth::confidential_verdict(row, s@),
            None => client_auth::public_verdict(row, text::opt_text(self.origin)),
        }
    }

    /// The key of the client.
    pub closed spec fn client_key(self) -> Seq<char> {
        self.client_key@
    }

    /// The challenge that the client gives.
    pub closed spec fn challenge(self) -> Option<Seq<char>> {
        text::opt_text(self.challenge)
    }

    /// The client to look up.
    pub fn client(&self) -> (key: &str)
        ensures
            key@ == self.client_key(),
    {
        self.client_key.as_str()
    }

    /// Goes on with the client. The provision gets a fresh id and name, and keeps
    /// the challenge.
    pub fn on_client(self, row: Option<ClientRow>) -> (provision: Result<Provision, AppError>)
        ensures
            match provision {
                Ok(provision) => {
                    &&& self.verdict(client_auth::row_view(row)) == Ok::<ClientView, ErrorView>(
                        provision.client@,
                    )
                    &&& text::opt_text(provision.pkce_challenge) == self.challenge()
                    &&& crate::ambient::is_uuid_v4(provision.id@)
                    &&& is_provision_id(provision.provision_id@)
                },
                Err(error) => self.verdict(client_auth::row_view(row)) == Err::<ClientView, ErrorView>(
                    error@,
                ),
            },
    {
        let authenticated = match &self.secret {
            Some(secret) => client_auth::authenticate_confidential(row, secret.as_str()),
            None => client_auth::authenticate_public(row, text::opt_as_str(&self.origin)),
        };
        match authenticated {
            Ok(client) => Ok(
                Provision {
                    id: crate::ambient::random_uuid(),
                    provision_id: make_provision_id(),
                    client,
                    pkce_challenge: self.challenge,
                },
            ),
            Err(error) => Err(error),
        }
    }
}

/// A key is provisioned for a public client only against a PKCE challenge, which
/// whoever registers a session with it must answer.
pub proof fn law_public_provisions_carry_a_challenge(
    client_key: Option<Seq<char>>,
    has_encryption_key: bool,
    secret: Option<Seq<char>>,
    challenge: Option<Seq<char>>,
    origin: Option<Seq<char>>,
    row: Option<ClientRowView>,
)
    ensures
        provision_verdict(client_key, has_encryption_key, secret, challenge, origin, row) is Ok && secret
            is None ==> challenge is Some,
{
}

/// The form of a provision's name.
pub open spec fn is_provision_id(id: Seq<char>) -> bool {
    exists|secret: Seq<u8>| secret.len() == 16 && id == "hvp_"@ + #[trigger] text::hex_of(secret)
}

/// A new name for a provision.
pub fn make_provision_id() -> (id: String)
    ensures
        is_provision_id(id@),
{
    let secret = crate::ambient::random_bytes(16);
    let suffix = text::hex(secret.as_slice());
    text::cat2("hvp_", suffix.as_str())
}

/// Whether a client is told that it is confidential: as a probe finds, or if that
/// fails as it is registered, and not where its identity cannot be found.
pub fn is_confidential(has_client_id: bool, probed: Option<bool>, registered: bool) -> (yes: bool)
    ensures
        yes == (has_client_id && (match probed {
            Some(found) => found,
            None => registered,
        })),
{
    if !has_client_id {
        return false;
    }
    match probed {
        Some(found) => found,
        None => registered,
    }
}

/// A request to register a session, after the user authorized it.
#[derive(Debug)]
pub struct RegisterSessionBody {
    pub provision_id: String,
    pub pkce_verifier: Option<String>,
    pub did: String,
    pub access_token: String,
    pub refresh_token: Option<String>,
    pub expires_at: Option<String>,
    pub scopes: String,
    pub pds_url: Option<String>,
    pub issuer: Option<String>,
}

/// What a registration finds out: whether the instance has an encryption key, the
/// key that was provisioned, the client, whether the client's scopes cover the
/// token's, whom the access token belongs to, and the client's current key.
#[verifier::ext_equal]
pub struct RegistrationWorld {
    pub has_encryption_key: bool,
    pub provision: ProvisionView,
    pub client: Option<ClientRowView>,
    pub scopes: Result<(), ErrorView>,
    pub verified_did: Seq<char>,
    pub signing_kid: Option<Seq<char>>,
}

/// A session that is to be stored, by what it is bound to.
#[verifier::ext_equal]
pub struct SessionView {
    pub client_id: Seq<char>,
    pub client_key: Seq<char>,
    pub dpop_key_id: Seq<char>,
    pub did: Seq<char>,
    pub signing_kid: Option<Seq<char>>,
}

/// Who registers a session: a confidential client with its secret, or a client
/// that answers the challenge of the provision.
pub open spec fn registrant_of(
    secret: Option<Seq<char>>,
    verifier: Option<Seq<char>>,
    challenge: Option<Seq<char>>,
    client: Option<ClientRowView>,
) -> Result<ClientView, ErrorView> {
    match secret {
        Some(s) => client_auth::confidential_verdict(client, s),
        None => match answer_of(verifier, challenge) {
            Err(error) => Err(error),
            Ok(_) => match client {
                Some(row) => Ok(row.resolved()),
                None => Err(ErrorView::Auth("unknown client"@)),
            },
        },
    }
}

/// Whether a public client answers the challenge of a provision.
pub open spec fn answer_of(verifier: Option<Seq<char>>, challenge: Option<Seq<char>>) -> Result<
    (),
    ErrorView,
> {
    match verifier {
        None => Err(ErrorView::BadRequest("public clients must provide pkce_verifier"@)),
        Some(v) => match challenge {
            None => Err(ErrorView::BadRequest("no PKCE challenge found for this provision"@)),
            Some(c) => if client_auth::pkce_answers(c, v) {
                Ok(())
            } else {
                Err(ErrorView::Auth("PKCE verification failed"@))
            },
        },
    }
}

/// What becomes of a request to register a session.
pub open spec fn registration_of(
    client_key: Option<Seq<char>>,
    secret: Option<Seq<char>>,
    body: RegisterSessionBody,
    world: RegistrationWorld,
) -> Result<SessionView, ErrorView> {
    if named_client(client_key) is Err {
        Err(named_client(client_key)->Err_0)
    } else if !world.has_encryption_key {
        Err(ErrorView::Internal("TOKEN_ENCRYPTION_KEY not configured"@))
    } else {
        match registrant_of(
            secret,
            text::opt_text(body.pkce_verifier),
            world.provision.pkce_challenge,
            world.client,
        ) {
            Err(error) => Err(error),
            Ok(client) => registration_for(client, body.did@, world),
        }
    }
}

/// What becomes of a client's request to register a session for a user.
pub open spec fn registration_for(client: ClientView, did: Seq<char>, world: RegistrationWorld) -> Result<
    SessionView,
    ErrorView,
> {
    if client.id != world.provision.client_id {
        Err(ErrorView::Auth("provision_id does not belong to this client"@))
    } else {
        match world.scopes {
            Err(error) => Err(error),
            Ok(_) => claimed_session(client, did, world.provision, world.verified_did, world.signing_kid),
        }
    }
}

/// What becomes of a registration against which only its claim of a user may
/// stand: the access token must belong to them.
pub open spec fn claimed_session(
    client: ClientView,
    did: Seq<char>,
    provision: ProvisionView,
    verified_did: Seq<char>,
    signing_kid: Option<Seq<char>>,
) -> Result<SessionView, ErrorView> {
    if verified_did != did {
        Err(ErrorView::Auth("access token does not belong to the claimed DID"@))
    } else {
        Ok(
            SessionView {
                client_id: client.id,
                client_key: client.client_key,
                dpop_key_id: provision.dpop_key_id,
                did,
                signing_kid,
            },
        )
    }
}

/// A registration that waits for the key that was provisioned.
pub struct AwaitingProvision {
    client_key: String,
    secret: Option<String>,
    body: RegisterSessionBody,
}

/// A registration that waits for its client.
pub struct AwaitingClient {
    client_key: String,
    secret: Option<String>,
    body: RegisterSessionBody,
    provision: ProvisionedKey,
}

/// A registration that waits for its scopes to be checked.
pub struct AwaitingScopes {
    client: ResolvedClient,
    body: RegisterSessionBody,
    provision: ProvisionedKey,
}

/// A registration that waits for its access token to be checked.
pub struct AwaitingToken {
    client: ResolvedClient,
    body: RegisterSessionBody,
    provision: ProvisionedKey,
}

/// A registration that nothing stands against.
pub struct VerifiedSession {
    client: ResolvedClient,
    body: RegisterSessionBody,
    provision: ProvisionedKey,
}

impl AwaitingProvision {
    /// The key of the client that the request names.
    pub closed spec fn client_key(self) -> Seq<char> {
        self.client_key@
    }

    /// The request that is registered.
    pub closed spec fn request(self) -> RegisterSessionBody {
        self.body
    }

    /// What becomes of the registration.
    pub closed spec fn outcome(self, world: RegistrationWorld) -> Result<SessionView, ErrorView> {
        match registrant_of(
            text::opt_text(self.secret),
            text::opt_text(self.body.pkce_verifier),
            world.provision.pkce_challenge,
            world.client,
        ) {
            Err(error) => Err(error),
            Ok(client) => registration_for(client, self.body.did@, world),
        }
    }

    /// The provision to look up.
    pub fn provision_id(&self) -> (id: &str)
        ensures
            id@ == self.request().provision_id@,
    {
        self.body.provision_id.as_str()
    }

    /// Goes on with the key that was provisioned. A client without a secret must
    /// answer its challenge.
    pub fn on_provision(self, provision: ProvisionedKey) -> (next: Result<AwaitingClient, AppError>)
        ensures
            forall|world: RegistrationWorld|
                world.provision == provision@ ==> #[trigger] self.outcome(world) == (match next {
                    Ok(state) => state.outcome(world),
                    Err(error) => Err(error@),
                }),
            next matches Ok(state) ==> state.provision() == provision@ && state.request()
                == self.request() && state.client_key() == self.client_key(),
    {
        if self.secret.is_none() {
            let verifier = match &self.body.pkce_verifier {
                Some(verifier) => verifier,
                None => {
                    return Err(
                        AppError::BadRequest(
                            "public clients must provide pkce_verifier".to_owned(),
                        ),
                    );
                },
            };
            let challenge = match &provision.pkce_challenge {
                Some(challenge) => challenge,
                None => {
                    return Err(
                        AppError::BadRequest(
                            "no PKCE challenge found for this provision".to_owned(),
                        ),
                    );
                },
            };
            if !client_auth::verify_pkce(challenge.as_str(), verifier.as_str()) {
                return Err(AppError::Auth("PKCE verification failed".to_owned()));
            }
        }
        Ok(
            AwaitingClient {
                client_key: self.client_key,
                secret: self.secret,
                body: self.body,
                provision,
            },
        )
    }
}

impl AwaitingClient {
    /// The key of the client that the request names.
    pub closed spec fn client_key(self) -> Seq<char> {
        self.client_key@
    }

    /// The client to look up.
    pub fn client(&self) -> (key: &str)
        ensures
            key@ == self.client_key(),
    {
        self.client_key.as_str()
    }

    /// The request that is registered.
    pub closed spec fn request(self) -> RegisterSessionBody {
        self.body
    }

    /// The key that was provisioned.
    pub closed spec fn provision(self) -> ProvisionView {
        self.provision@
    }

    /// What becomes of the registration.
    pub closed spec fn outcome(self, world: RegistrationWorld) -> Result<SessionView, ErrorView> {
        let client = match self.secret {
            Some(s) => client_auth::confidential_verdict(world.client, s@),
            None => match world.client {
                Some(row) => Ok(row.resolved()),
                None => Err(ErrorView::Auth("unknown client"@)),
            },
        };
        match client {
            Err(error) => Err(error),
            Ok(c) => registration_for(
                c,
                self.body.did@,
                RegistrationWorld { provision: self.provision@, ..world },
            ),
        }
    }

    /// Goes on with the client, which must own the provision.
    pub fn on_client(self, row: Option<ClientRow>) -> (next: Result<AwaitingScopes, AppError>)
        ensures
            forall|world: RegistrationWorld|
                world.client == client_auth::row_view(row) && world.provision == self.provision()
                    ==> #[trigger] self.outcome(world) == (match next {
                    Ok(state) => state.outcome(world),
                    Err(error) => Err(error@),
                }),
            next matches Ok(state) ==> state.provision() == self.provision() && state.client().id
                == state.provision().client_id && state.request() == self.request() && (
            row matches Some(r) && state.client() == r@.resolved()),
    {
        let authenticated = match &self.secret {
            Some(secret) => client_auth::authenticate_confidential(row, secret.as_str()),
            None => client_auth::resolve_client_by_key(row),
        };
        let client = match authenticated {
            Ok(client) => client,
            Err(error) => {
                return Err(error);
            },
        };
        if !text::same_text(client.id.as_str(), self.provision.client_id.as_str()) {
            return Err(AppError::Auth("provision_id does not belong to this client".to_owned()));
        }
        Ok(AwaitingScopes { client, body: self.body, provision: self.provision })
    }
}

impl AwaitingScopes {
    /// The request that is registered.
    pub closed spec fn request(self) -> RegisterSessionBody {
        self.body
    }

    /// The key that was provisioned.
    pub closed spec fn provision(self) -> ProvisionView {
        self.provision@
    }

    /// What becomes of the registration, whose client owns the provision.
    pub open spec fn outcome(self, world: RegistrationWorld) -> Result<SessionView, ErrorView> {
        match world.scopes {
            Err(error) => Err(error),
            Ok(_) => claimed_session(
                self.client(),
                self.request().did@,
                self.provision(),
                world.verified_did,
                world.signing_kid,
            ),
        }
    }

    /// The client that registers.
    pub closed spec fn client(self) -> ClientView {
        self.client@
    }

    /// The scopes of the token, and those of the client.
    pub fn scopes(&self) -> (scopes: (&str, &str))
        ensures
            scopes.0@ == self.request().scopes@,
            scopes.1@ == self.client().scopes,
    {
        (self.body.scopes.as_str(), self.client.scopes.as_str())
    }

    /// Goes on with the outcome of checking the scopes: only where they are
    /// granted, and else with that failure.
    pub fn on_scopes(self, checked: Result<(), AppError>) -> (next: Result<AwaitingToken, AppError>)
        ensures
            forall|world: RegistrationWorld|
                world.scopes == crate::error::unit_outcome(checked) ==> #[trigger] self.outcome(world)
                    == (match next {
                    Ok(state) => state.outcome(world),
                    Err(error) => Err(error@),
                }),
            next is Ok <==> checked is Ok,
            next matches Err(error) ==> crate::error::unit_outcome(checked) == Err::<(), ErrorView>(
                error@,
            ),
            next matches Ok(state) ==> state.provision() == self.provision() && state.client()
                == self.client() && state.request() == self.request(),
    {
        match checked {
            Err(error) => Err(error),
            Ok(_) => Ok(
                AwaitingToken { client: self.client, body: self.body, provision: self.provision },
            ),
        }
    }
}

impl AwaitingToken {
    /// The request that is registered.
    pub closed spec fn request(self) -> RegisterSessionBody {
        self.body
    }

    /// The key that was provisioned.
    pub closed spec fn provision(self) -> ProvisionView {
        self.provision@
    }

    /// The client that registers.
    pub closed spec fn client(self) -> ClientView {
        self.client@
    }

    /// What becomes of the registration, whose client owns the provision and
    /// whose scopes were granted.
    pub open spec fn outcome(self, world: RegistrationWorld) -> Result<SessionView, ErrorView> {
        claimed_session(
            self.client(),
            self.request().did@,
            self.provision(),
            world.verified_did,
            world.signing_kid,
        )
    }

    /// The user that the session is claimed for, and the access token to check.
    pub fn claim(&self) -> (claim: (&str, &str))
        ensures
            claim.0@ == self.request().did@,
            claim.1@ == self.request().access_token@,
    {
        (self.body.did.as_str(), self.body.access_token.as_str())
    }

    /// Goes on with whom the access token belongs to. The user in the request is
    /// only claimed: without this check, any holder of a provisioned key could
    /// register a session for anyone.
    pub fn on_token(self, verified_did: &str) -> (next: Result<VerifiedSession, AppError>)
        ensures
            forall|world: RegistrationWorld|
                world.verified_did == verified_did@ ==> #[trigger] self.outcome(world) == (match next {
                    Ok(state) => Ok(state.session(world.signing_kid)),
                    Err(error) => Err(error@),
                }),
            next is Ok <==> verified_did@ == self.request().did@,
            next matches Ok(state) ==> state.request() == self.request(),
    {
        if !text::same_text(verified_did, self.body.did.as_str()) {
            return Err(
                AppError::Auth("access token does not belong to the claimed DID".to_owned()),
            );
        }
        Ok(VerifiedSession { client: self.client, body: self.body, provision: self.provision })
    }
}

/// A session, as it is to be stored.
#[derive(Debug)]
pub struct SessionRow {
    pub id: String,
    pub client_id: String,
    pub dpop_key_id: String,
    pub did: String,
    pub access_token: String,
    pub refresh_token: Option<String>,
    pub expires_at: Option<String>,
    pub scopes: String,
    pub pds_url: Option<String>,
    pub issuer: Option<String>,
    pub signing_kid: Option<String>,
}

/// What a registration is answered with, and what is noted of it. A session
/// without a refresh token cannot outlive its access token, which is worth a
/// warning.
#[derive(Debug)]
pub struct RegisteredSession {
    pub row: SessionRow,
    pub client_key: String,
    pub scopes: Vec<String>,
    pub refreshable: bool,
}

impl VerifiedSession {
    /// The session, with the key it is signed with.
    pub closed spec fn session(self, signing_kid: Option<Seq<char>>) -> SessionView {
        SessionView {
            client_id: self.client@.id,
            client_key: self.client@.client_key,
            dpop_key_id: self.provision@.dpop_key_id,
            did: self.body.did@,
            signing_kid,
        }
    }

    /// The request that is registered.
    pub closed spec fn request(self) -> RegisterSessionBody {
        self.body
    }

    /// The id of the client, whose keys are to be looked up.
    pub fn client_id(&self) -> (id: &str)
        ensures
            id@ == self.session(None).client_id,
    {
        self.client.id.as_str()
    }

    /// Makes the session, with a fresh id.
    pub fn finish(self, signing_kid: Option<String>) -> (registered: RegisteredSession)
        ensures
            crate::ambient::is_uuid_v4(registered.row.id@),
            self.session(text::opt_text(signing_kid)) == (SessionView {
                client_id: registered.row.client_id@,
                client_key: registered.client_key@,
                dpop_key_id: registered.row.dpop_key_id@,
                did: registered.row.did@,
                signing_kid: text::opt_text(registered.row.signing_kid),
            }),
            registered.row.access_token == self.request().access_token,
            registered.row.refresh_token == self.request().refresh_token,
            registered.row.expires_at == self.request().expires_at,
            registered.row.scopes == self.request().scopes,
            registered.row.pds_url == self.request().pds_url,
            registered.row.issuer == self.request().issuer,
            text::texts(registered.scopes@) == text::words_of(self.request().scopes@),
            registered.refreshable == (self.request().refresh_token is Some),
    {
        let scopes = text::split_whitespace(self.body.scopes.as_str());
        let refreshable = self.body.refresh_token.is_some();
        let row = SessionRow {
            id: crate::ambient::random_uuid(),
            client_id: self.client.id,
            dpop_key_id: self.provision.dpop_key_id,
            did: self.body.did,
            access_token: self.body.access_token,
            refresh_token: self.body.refresh_token,
            expires_at: self.body.expires_at,
            scopes: self.body.scopes,
            pds_url: self.body.pds_url,
            issuer: self.body.issuer,
            signing_kid,
        };
        RegisteredSession { row, client_key: self.client.client_key, scopes, refreshable }
    }
}

/// Begins the registration of a session.
pub fn register_session(
    client_key: Option<String>,
    secret: Option<String>,
    body: RegisterSessionBody,
    has_encryption_key: bool,
) -> (next: Result<AwaitingProvision, AppError>)
    ensures
        forall|world: RegistrationWorld|
            world.has_encryption_key == has_encryption_key ==> #[trigger] registration_of(
                text::opt_text(client_key),
                text::opt_text(secret),
                body,
                world,
            ) == (match next {
                Ok(state) => state.outcome(world),
                Err(error) => Err(error@),
            }),
        next matches Ok(state) ==> state.request() == body && Some(state.client_key()) == text::opt_text(
            client_key,
        ),
{
    let client_key = match require_client_key(client_key) {
        Ok(key) => key,
        Err(error) => {
            return Err(error);
        },
    };
    match require_encryption_key(has_encryption_key) {
        Err(error) => Err(error),
        Ok(_) => Ok(AwaitingProvision { client_key, secret, body }),
    }
}

/// A session is registered only for a client that proves who it is, by its secret
/// or by answering the challenge of the provision, with a key that is its own,
/// within its scopes, and for the user that the access token belongs to.
pub proof fn law_sessions_are_registered_by_their_owner(
    client_key: Option<Seq<char>>,
    secret: Option<Seq<char>>,
    body: RegisterSessionBody,
    world: RegistrationWorld,
)
    ensures
        registration_of(client_key, secret, body, world) matches Ok(session) ==> client_key is Some && session.did == body.did@
            && world.verified_did == body.did@ && world.scopes is Ok && session.dpop_key_id
            == world.provision.dpop_key_id && (world.client matches Some(row) && row.id
            == world.provision.client_id && session.client_id == row.id) && match secret {
            Some(s) => client_auth::confidential_verdict(world.client, s) is Ok,
            None => answer_of(text::opt_text(body.pkce_verifier), world.provision.pkce_challenge) is Ok,
        },
{
}

/// A proof is for the URL at which the request came in: the host that it names and
/// its path, with the scheme of the instance's public URL.
pub proof fn law_proofs_are_for_the_url_of_the_request(
    public_url: Seq<char>,
    host: Seq<char>,
    path: Seq<char>,
)
    ensures
        text::has_prefix(public_url, "https"@) ==> htu_of(public_url, host, path) == "https://"@ + host + path,
        !text::has_prefix(public_url, "https"@) ==> htu_of(public_url, host, path) == "http://"@ + host + path,
{
    reveal_strlit("https");
    reveal_strlit("http");
    reveal_strlit("://");
    reveal_strlit("https://");
    reveal_strlit("http://");
    assert("https"@ + "://"@ =~= "https://"@);
    assert("http"@ + "://"@ =~= "http://"@);
}

/// A token and a proof are taken just from an `Authorization` header with the DPoP
/// scheme and a proof header beside it, each as it stands.
pub proof fn law_tokens_come_with_their_proof(
    auth_header: Option<Seq<char>>,
    proof_header: Option<Seq<char>>,
    token: Seq<char>,
    value: Seq<char>,
)
    ensures
        dpop_credentials_of(auth_header, proof_header) == Ok::<(Seq<char>, Seq<char>), ErrorView>(
            (token, value),
        ) <==> auth_header == Some("DPoP "@ + token) && proof_header == Some(value),
        dpop_credentials_of(auth_header, proof_header) matches Err(error) ==> error is Auth,
{
    let prefix = "DPoP "@;
    if let Some(header) = auth_header {
        if header == prefix + token {
            assert(header.take(prefix.len() as int) =~= prefix);
            assert(header.skip(prefix.len() as int) =~= token);
        }
        if text::has_prefix(header, prefix) {
            assert(header =~= prefix + header.skip(prefix.len() as int));
        }
    }
}

/// A request that names its client is authenticated by the secret that it brings,
/// as that client proves it; and without one by a token with its proof, for a client
/// that is known. Nothing else authenticates one.
pub proof fn law_how_requests_are_authenticated(
    headers: SessionAuthHeaders,
    row: Option<ClientRowView>,
    client: ClientView,
    token: Seq<char>,
    value: Seq<char>,
)
    ensures
        request_auth_of(headers, row) == Ok::<RequestAuthView, ErrorView>(RequestAuthView::Secret(client))
            <==> {
            &&& headers.client_key@.len() > 0
            &&& headers.client_secret matches Some(secret)
            &&& client_auth::confidential_verdict(row, secret@) == Ok::<ClientView, ErrorView>(client)
        },
        request_auth_of(headers, row) == Ok::<RequestAuthView, ErrorView>(
            (RequestAuthView::Proof { client, token, value }),
        ) <==> {
            &&& headers.client_key@.len() > 0
            &&& headers.client_secret is None
            &&& row matches Some(known)
            &&& client == known.resolved()
            &&& text::opt_text(headers.auth_header) == Some("DPoP "@ + token)
            &&& text::opt_text(headers.dpop_proof) == Some(value)
        },
        request_auth_of(headers, row) matches Err(error) ==> error is Auth,
{
    law_tokens_come_with_their_proof(
        text::opt_text(headers.auth_header),
        text::opt_text(headers.dpop_proof),
        token,
        value,
    );
    if let Ok((t, v)) = dpop_credentials_of(
        text::opt_text(headers.auth_header),
        text::opt_text(headers.dpop_proof),
    ) {
        law_tokens_come_with_their_proof(
            text::opt_text(headers.auth_header),
            text::opt_text(headers.dpop_proof),
            t,
            v,
        );
    }
}

/// A provision is held just by the client that it was made for, with the verifier
/// of its challenge.
pub proof fn law_who_holds_a_provision(client_id: Seq<char>, provision: ProvisionView, verifier: Seq<char>)
    ensures
        holds_provision(client_id, provision, verifier) is Ok <==> provision.client_id == client_id && (
        provision.pkce_challenge matches Some(challenge) && client_auth::pkce_answers(challenge, verifier)),
        provision.client_id != client_id ==> holds_provision(client_id, provision, verifier) matches Err(
            ErrorView::Auth(_),
        ),
{
}

/// An assertion is signed with the key that may sign, and is a bad request where
/// none may.
pub proof fn law_assertions_are_signed_with_a_usable_key(
    keys: Seq<KeyView>,
    kid: Option<Seq<char>>,
    key: KeyView,
)
    ensures
        assertion_key_of(keys, kid) == Ok::<KeyView, ErrorView>(key) <==> client_keys::signing_key_of(
            keys,
            kid,
        ) == Some(key),
        assertion_key_of(keys, kid) matches Err(error) ==> error is BadRequest,
{
}

/// A client gets an assertion by holding a provision, as a public client from an
/// origin of its own, or by authenticating its request where it names none. Naming
/// a provision without its verifier, or a verifier alone, is a bad request.
pub proof fn law_when_assertions_are_minted(
    body: AssertionBody,
    origin: Option<Seq<char>>,
    world: AssertionWorld,
    client: ClientView,
    key: KeyView,
)
    ensures
        assertion_of(body, origin, world) == Ok::<(ClientView, KeyView), ErrorView>((client, key)) <==> {
            &&& client_keys::signing_key_of(world.keys, text::opt_text(body.kid)) == Some(key)
            &&& match (body.provision_id, body.pkce_verifier) {
                (Some(_), Some(verifier)) => {
                    &&& client_auth::public_verdict(world.client, origin) == Ok::<ClientView, ErrorView>(
                        client,
                    )
                    &&& world.has_encryption_key
                    &&& world.provision.client_id == client.id
                    &&& world.provision.pkce_challenge matches Some(challenge)
                    &&& client_auth::pkce_answers(challenge, verifier@)
                },
                (None, None) => world.authenticated == Ok::<ClientView, ErrorView>(client),
                _ => false,
            }
        },
        (body.provision_id is None) != (body.pkce_verifier is None) ==> assertion_of(
            body,
            origin,
            world,
        ) matches Err(ErrorView::BadRequest(_)),
{
}

/// A key is provisioned for a client that is named and proves itself by its secret,
/// or without one comes with a challenge as a public client may.
pub proof fn law_when_keys_are_provisioned(
    client_key: Option<Seq<char>>,
    has_encryption_key: bool,
    secret: Option<Seq<char>>,
    challenge: Option<Seq<char>>,
    origin: Option<Seq<char>>,
    row: Option<ClientRowView>,
    client: ClientView,
)
    ensures
        provision_verdict(client_key, has_encryption_key, secret, challenge, origin, row) == Ok::<
            ClientView,
            ErrorView,
        >(client) <==> {
            &&& client_key is Some
            &&& has_encryption_key
            &&& match secret {
                Some(s) => client_auth::confidential_verdict(row, s) == Ok::<ClientView, ErrorView>(client),
                None => challenge is Some && client_auth::public_verdict(row, origin) == Ok::<
                    ClientView,
                    ErrorView,
                >(client),
            }
        },
        client_key is None ==> provision_verdict(
            client_key,
            has_encryption_key,
            secret,
            challenge,
            origin,
            row,
        ) matches Err(ErrorView::Auth(_)),
        named_client(client_key) is Ok <==> client_key is Some,
        client_key matches Some(key) ==> named_client(client_key) == Ok::<Seq<char>, ErrorView>(key),
        named_client(client_key) matches Err(error) ==> error is Auth,
{
}

/// A challenge is answered just by the verifier whose hash it is. Without either
/// there is nothing to answer, and the request is bad; a wrong verifier does not
/// authenticate.
pub proof fn law_challenges_are_answered_by_their_verifier(
    verifier: Option<Seq<char>>,
    challenge: Option<Seq<char>>,
)
    ensures
        answer_of(verifier, challenge) is Ok <==> {
            &&& verifier matches Some(v)
            &&& challenge matches Some(c)
            &&& crate::crypto::base64url_of(crate::crypto::sha256_of(vstd::utf8::encode_utf8(v))) == c
        },
        answer_of(verifier, challenge) matches Err(error) ==> (if verifier is None || challenge is None {
            error is BadRequest
        } else {
            error is Auth
        }),
{
}

/// A session is registered just if the client is named, the instance can encrypt,
/// the client proves itself by its secret or answers the provision's challenge, the
/// provision is its own, its scopes are allowed, and the token is the claimed
/// user's. The session is then that client's and that user's, under the provision's
/// key.
pub proof fn law_when_sessions_are_registered(
    client_key: Option<Seq<char>>,
    secret: Option<Seq<char>>,
    body: RegisterSessionBody,
    world: RegistrationWorld,
)
    ensures
        registration_of(client_key, secret, body, world) is Ok <==> {
            &&& client_key is Some
            &&& world.has_encryption_key
            &&& world.client matches Some(row)
            &&& match secret {
                Some(s) => row.client_secret_hash == crate::crypto::text_hash(s) && row.client_type
                    == "confidential"@,
                None => {
                    &&& body.pkce_verifier matches Some(verifier)
                    &&& world.provision.pkce_challenge matches Some(challenge)
                    &&& client_auth::pkce_answers(challenge, verifier@)
                },
            }
            &&& row.id == world.provision.client_id
            &&& world.scopes is Ok
            &&& world.verified_did == body.did@
        },
        registration_of(client_key, secret, body, world) matches Ok(session) ==> (world.client matches Some(row)
            && session.client_id == row.id && session.client_key == row.client_key && session.dpop_key_id
            == world.provision.dpop_key_id && session.did == body.did@ && session.signing_kid
            == world.signing_kid),
{
}

/// An instance that cannot encrypt fails for its own part, whoever asks; a client
/// that is not named, or claims a provision or a token that is not its own, does not
/// authenticate; and a scope that is not allowed is refused as it was found.
pub proof fn law_how_sessions_and_assertions_fail(
    client_key: Option<Seq<char>>,
    secret: Option<Seq<char>>,
    body: RegisterSessionBody,
    world: RegistrationWorld,
    asked: AssertionBody,
    origin: Option<Seq<char>>,
    at: AssertionWorld,
)
    ensures
        client_key is None ==> registration_of(client_key, secret, body, world) matches Err(
            ErrorView::Auth(_),
        ),
        client_key is Some && !world.has_encryption_key ==> registration_of(
            client_key,
            secret,
            body,
            world,
        ) matches Err(ErrorView::Internal(_)),
        client_key is Some && world.has_encryption_key ==> (registrant_of(
            secret,
            text::opt_text(body.pkce_verifier),
            world.provision.pkce_challenge,
            world.client,
        ) matches Ok(client) ==> {
            &&& client.id != world.provision.client_id ==> (registration_of(
                client_key,
                secret,
                body,
                world,
            ) matches Err(ErrorView::Auth(_)))
            &&& client.id == world.provision.client_id ==> (world.scopes matches Err(error)
                ==> registration_of(client_key, secret, body, world) == Err::<SessionView, ErrorView>(error))
            &&& client.id == world.provision.client_id && world.scopes is Ok && world.verified_did
                != body.did@ ==> (registration_of(client_key, secret, body, world) matches Err(
                ErrorView::Auth(_),
            ))
        }),
        asked.provision_id is Some && asked.pkce_verifier is Some ==> {
            &&& (client_auth::public_verdict(at.client, origin) matches Err(error) ==> assertion_of(
                asked,
                origin,
                at,
            ) == Err::<(ClientView, KeyView), ErrorView>(error))
            &&& client_auth::public_verdict(at.client, origin) is Ok && !at.has_encryption_key
                ==> (assertion_of(asked, origin, at) matches Err(ErrorView::Internal(_)))
        },
        asked.provision_id is None && asked.pkce_verifier is None ==> (at.authenticated matches Err(error)
            ==> assertion_of(asked, origin, at) == Err::<(ClientView, KeyView), ErrorView>(error)),
        client_key is Some ==> provision_verdict(client_key, false, secret, None, origin, at.client) matches Err(
            ErrorView::Internal(_),
        ),
        client_key is Some && secret is None ==> provision_verdict(
            client_key,
            true,
            secret,
            None,
            origin,
            at.client,
        ) matches Err(ErrorView::BadRequest(_)),
{
}

/// A provision's identifier is `hvp_` and 32 hexadecimal digits.
pub proof fn law_provision_ids_have_one_form(id: Seq<char>)
    requires
        is_provision_id(id),
    ensures
        id.len() == 36,
        text::has_prefix(id, "hvp_"@),
        forall|i: int|
            4 <= i < 36 ==> '0' <= (#[trigger] id[i]) <= '9' || 'a' <= id[i] <= 'f',
{
    reveal_strlit("hvp_");
    reveal_strlit("0123456789abcdef");
    let secret = choose|secret: Seq<u8>| secret.len() == 16 && id == "hvp_"@ + #[trigger] text::hex_of(
        secret,
    );
    text::law_hex_has_two_digits_a_byte(secret);
    assert(id.take(4) =~= "hvp_"@);
    assert forall|i: int| 4 <= i < 36 implies '0' <= (#[trigger] id[i]) <= '9' || 'a' <= id[i] <= 'f' by {
        let k = (i - 4) / 2;
        let byte = secret[k] as int;
        assert(id[i] == text::hex_of(secret)[i - 4]);
        let digit = if (i - 4) % 2 == 0 {
            byte / 16
        } else {
            byte % 16
        };
        assert(0 <= digit < 16);
        assert(id[i] == "0123456789abcdef"@[digit]);
        if digit == 0 {} else if digit == 1 {} else if digit == 2 {} else if digit == 3 {} else if digit == 4 {} else if digit
            == 5 {} else if digit == 6 {} else if digit == 7 {} else if digit == 8 {} else if digit == 9 {} else if digit
            == 10 {} else if digit == 11 {} else if digit == 12 {} else if digit == 13 {} else if digit == 14 {} else {
            assert(digit == 15);
        }
    }
}

} // verus!
