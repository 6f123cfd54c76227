//! Issuing space credentials: who may have one, and what it says.
use vstd::prelude::*;

use crate::crypto;
use crate::crypto::P256SigningKey;
use crate::error::{AppError, ErrorView};
use crate::json::{Json, JsonView};
use crate::profile::DidService;
use crate::spaces::credential;
use crate::spaces::credential::{CredentialView, SpaceCredentialClaims, DEFAULT_CREDENTIAL_TTL_SECS};
use crate::spaces::native_sync;
use crate::spaces::types::{AppAccess, AppAccessView, Policy, PolicyView, Space};
use crate::text;

verus! {

/// The method that a managing app's service-auth token is scoped to.
pub const CHECK_USER_ACCESS_LXM: &'static str = "com.atproto.simplespace.checkUserAccess";

/// A credential, as its holder gets it.
#[derive(Debug)]
pub struct IssuedCredential {
    pub token: String,
    pub expires_at: String,
}

/// Which permission a policy check is about.
///
/// The read and the write policy are independent and never stand in for one
/// another: read gates whether a credential is minted, write gates whether the
/// authority tracks a writer and forwards their notifications.
#[derive(Debug, Clone, Copy, PartialEq, Eq, Structural)]
pub enum AccessKind {
    Read,
    Write,
}

impl AccessKind {
    /// The word for a kind of access.
    pub open spec fn text(self) -> Seq<char> {
        match self {
            AccessKind::Read => "read"@,
            AccessKind::Write => "write"@,
        }
    }

    /// The word for a kind of access.
    pub fn as_str(self) -> (word: &'static str)
        ensures
            word@ == self.text(),
    {
        match self {
            AccessKind::Read => "read",
            AccessKind::Write => "write",
        }
    }
}

/// What query parameters say.
pub open spec fn param_views(params: Seq<(&'static str, String)>) -> Seq<(Seq<char>, Seq<char>)> {
    params.map_values(|p: (&'static str, String)| (p.0@, p.1@))
}

/// The query parameters of a `checkUserAccess` call. Only a check for reading
/// names the client: a notification of a write does not identify the
/// application that made it.
pub open spec fn access_params(
    space_uri: Seq<char>,
    user_did: Seq<char>,
    client_id: Option<Seq<char>>,
    access: AccessKind,
) -> Seq<(Seq<char>, Seq<char>)> {
    let base = seq![("space"@, space_uri), ("user"@, user_did), ("access"@, access.text())];
    match client_id {
        Some(id) => if access == AccessKind::Read {
            base.push(("clientId"@, id))
        } else {
            base
        },
        None => base,
    }
}

/// The query parameters of a `checkUserAccess` call.
pub fn check_user_access_params(
    space_uri: &str,
    user_did: &str,
    client_id: Option<&str>,
    access: AccessKind,
) -> (params: Vec<(&'static str, String)>)
    ensures
        param_views(params@) == access_params(
            space_uri@,
            user_did@,
            text::opt_str(client_id),
            access,
        ),
{
    let mut params: Vec<(&'static str, String)> = Vec::new();
    params.push(("space", space_uri.to_owned()));
    params.push(("user", user_did.to_owned()));
    params.push(("access", access.as_str().to_owned()));
    if access == AccessKind::Read {
        if let Some(id) = client_id {
            params.push(("clientId", id.to_owned()));
        }
    }
    assert(param_views(params@) =~= access_params(
        space_uri@,
        user_did@,
        text::opt_str(client_id),
        access,
    ));
    params
}

/// Whether an application may have credentials for a space.
pub open spec fn app_verdict(access: AppAccessView, client_id: Option<Seq<char>>) -> Result<
    (),
    ErrorView,
> {
    match access {
        AppAccessView::Open => Ok(()),
        AppAccessView::AllowList { allowed } => match client_id {
            None => Err(ErrorView::Auth("space requires client attestation"@)),
            Some(id) => if allowed.contains(id) {
                Ok(())
            } else {
                Err(ErrorView::Forbidden("this app is not authorized to access this space"@))
            },
        },
    }
}

/// Refuses applications that a space does not admit.
pub fn check_app_access(space: &Space, attested_client_id: Option<&str>) -> (result: Result<
    (),
    AppError,
>)
    ensures
        crate::error::unit_outcome(result) == app_verdict(
            space.app_access@,
            text::opt_str(attested_client_id),
        ),
{
    match &space.app_access {
        AppAccess::Open => Ok(()),
        AppAccess::AllowList { allowed } => match attested_client_id {
            None => Err(AppError::Auth("space requires client attestation".to_owned())),
            Some(id) => if text::list_contains(allowed, id) {
                Ok(())
            } else {
                Err(
                    AppError::Forbidden(
                        "this app is not authorized to access this space".to_owned(),
                    ),
                )
            },
        },
    }
}

/// What a policy decides: it lets a user through, or another service is asked.
///
/// A member-list policy lets a user through here, because membership is checked
/// before.
pub fn policy_asks(policy: &Policy) -> (managing_app: Option<String>)
    ensures
        match managing_app {
            Some(app) => policy@ == (PolicyView::ManagingApp { managing_app: app@ }),
            None => !(policy@ is ManagingApp),
        },
{
    match policy {
        Policy::Public => None,
        Policy::MemberList => None,
        Policy::ManagingApp { managing_app } => Some(managing_app.clone()),
    }
}

/// The DID of a managing app, which may carry the fragment of its service.
pub open spec fn managing_app_did_of(managing_app: Seq<char>) -> Result<Seq<char>, ErrorView> {
    match text::parted(managing_app, '#') {
        None => Ok(managing_app),
        Some((did, fragment)) => if fragment == "atproto_pds"@ {
            Ok(did)
        } else {
            Err(
                ErrorView::BadRequest(
                    "unsupported service fragment '#"@ + fragment + "' for managing app"@,
                ),
            )
        },
    }
}

/// The DID of a managing app.
pub fn managing_app_did(managing_app: &str) -> (did: Result<String, AppError>)
    ensures
        crate::error::outcome(did) == managing_app_did_of(managing_app@),
{
    match text::split_once(managing_app, '#') {
        None => Ok(managing_app.to_owned()),
        Some((did, fragment)) => if text::same_text(fragment, "atproto_pds") {
            Ok(did.to_owned())
        } else {
            Err(
                AppError::BadRequest(
                    text::cat3("unsupported service fragment '#", fragment, "' for managing app"),
                ),
            )
        },
    }
}

/// Where a DID's document is: in the directory, or for `did:web` on the DID's own
/// host, below the path that further segments give.
pub open spec fn did_document_url_of(plc_url: Seq<char>, did: Seq<char>) -> Result<
    Seq<char>,
    ErrorView,
> {
    if text::has_prefix(did, "did:plc:"@) {
        Ok(text::trimmed_end(plc_url, '/') + "/"@ + did)
    } else {
        match text::after_prefix(did, "did:web:"@) {
            Some(identifier) => {
                let segments = text::split_on(identifier, ':');
                if segments.len() == 1 {
                    Ok("https://"@ + segments[0] + "/.well-known/did.json"@)
                } else {
                    Ok(
                        "https://"@ + segments[0] + "/"@ + text::join_with(segments.skip(1), '/')
                            + "/did.json"@,
                    )
                }
            },
            None => Err(
                ErrorView::BadRequest("unsupported DID method for managing app: "@ + did),
            ),
        }
    }
}

/// Where a DID's document is.
pub fn did_document_url(plc_url: &str, did: &str) -> (url: Result<String, AppError>)
    ensures
        crate::error::outcome(url) == did_document_url_of(plc_url@, did@),
{
    if text::starts_with(did, "did:plc:") {
        return Ok(text::cat3(text::trim_end_matches(plc_url, '/'), "/", did));
    }
    match text::strip_prefix(did, "did:web:") {
        Some(identifier) => {
            let segments = text::split(identifier, ':');
            proof {
                text::lemma_split_parts(identifier@, ':');
                assert(text::texts(segments@).len() == segments@.len());
                assert(text::texts(segments@)[0] == segments@[0]@);
            }
            if segments.len() == 1 {
                Ok(text::cat3("https://", segments[0].as_str(), "/.well-known/did.json"))
            } else {
                let rest = vstd::slice::slice_subrange(segments.as_slice(), 1, segments.len());
                assert(text::texts(rest@) =~= text::texts(segments@).skip(1));
                proof {
                    reveal_strlit("/");
                }
                let path = text::join(rest, "/");
                Ok(
                    text::cat5(
                        "https://",
                        segments[0].as_str(),
                        "/",
                        path.as_str(),
                        "/did.json",
                    ),
                )
            }
        },
        None => Err(
            AppError::BadRequest(text::cat2("unsupported DID method for managing app: ", did)),
        ),
    }
}

/// Whether a service is the PDS of a DID, by its id with or without the DID.
pub open spec fn is_pds_of(service: DidService, did: Seq<char>) -> bool {
    service.id@ == "#atproto_pds"@ || service.id@ == did + "#atproto_pds"@
}

/// The endpoint of the first service that is the PDS of a DID.
pub open spec fn pds_endpoint_of(services: Seq<DidService>, did: Seq<char>) -> Option<Seq<char>>
    decreases services.len(),
{
    if services.len() == 0 {
        None
    } else if is_pds_of(services[0], did) {
        Some(services[0].service_endpoint@)
    } else {
        pds_endpoint_of(services.skip(1), did)
    }
}

/// The `#atproto_pds` endpoint that a DID document lists.
pub fn pds_endpoint(services: &Vec<DidService>, did: &str) -> (endpoint: Result<String, AppError>)
    ensures
        crate::error::outcome(endpoint) == (match pds_endpoint_of(services@, did@) {
            Some(endpoint) => Ok(endpoint),
            None => Err(ErrorView::Internal("no #atproto_pds service in DID doc for "@ + did@)),
        }),
{
    let qualified = text::cat2(did, "#atproto_pds");
    assert(services@.skip(0) =~= services@);
    for i in 0..services.len()
        invariant
            qualified@ == did@ + "#atproto_pds"@,
            pds_endpoint_of(services@.skip(i as int), did@) == pds_endpoint_of(services@, did@),
    {
        assert(services@.skip(i as int).skip(1) =~= services@.skip(i + 1));
        let id = services[i].id.as_str();
        if text::same_text(id, "#atproto_pds") || text::same_text(id, qualified.as_str()) {
            return Ok(services[i].service_endpoint.clone());
        }
    }
    Err(AppError::Internal(text::cat2("no #atproto_pds service in DID doc for ", did)))
}

/// Where a managing app is asked about a user's access.
pub fn check_user_access_url(endpoint: &str) -> (url: String)
    ensures
        url@ == text::trimmed_end(endpoint@, '/')
            + "/xrpc/com.atproto.simplespace.checkUserAccess"@,
{
    text::cat2(
        text::trim_end_matches(endpoint, '/'),
        "/xrpc/com.atproto.simplespace.checkUserAccess",
    )
}

/// Whether this instance can ask a managing app for an authority.
///
/// The managing app expects the space's authority as the issuer. Where the
/// authority is not this instance it cannot sign for it, and fails rather than
/// sends a token that the app will reject.
pub fn check_authority(instance_did: &str, authority_did: &str) -> (result: Result<(), AppError>)
    ensures
        crate::error::unit_outcome(result) == (if instance_did@ == authority_did@ {
            Ok(())
        } else {
            Err(
                ErrorView::Internal(
                    "cannot authenticate a managing-app check for authority "@ + authority_did@
                        + ": this instance signs as "@ + instance_did@,
                ),
            )
        }),
{
    if text::same_text(instance_did, authority_did) {
        Ok(())
    } else {
        Err(
            AppError::Internal(
                text::cat4(
                    "cannot authenticate a managing-app check for authority ",
                    authority_did,
                    ": this instance signs as ",
                    instance_did,
                ),
            ),
        )
    }
}

/// What a managing app's answer means: refusing is a denial, not an error, and
/// so is an answer that does not say.
pub open spec fn access_answer_of(
    status: u16,
    status_text: Seq<char>,
    body: Result<JsonView, Seq<char>>,
) -> Result<bool, ErrorView> {
    if status == 403 || status == 401 {
        Ok(false)
    } else if !(200 <= status < 300) {
        Err(ErrorView::Internal("checkUserAccess returned unexpected status "@ + status_text))
    } else {
        match body {
            Err(e) => Err(ErrorView::Internal("checkUserAccess response parse failed: "@ + e)),
            Ok(json) => Ok(
                json.get("authorized"@) == Some(JsonView::Bool(true)),
            ),
        }
    }
}

/// Whether an outcome is what a managing app's answer means.
pub open spec fn answered(
    granted: Result<bool, AppError>,
    status: u16,
    status_text: Seq<char>,
    body: &Result<Json, String>,
) -> bool {
    let expected = access_answer_of(
        status,
        status_text,
        match body {
            Ok(json) => Ok(json@),
            Err(e) => Err(e@),
        },
    );
    match granted {
        Ok(yes) => expected == Ok::<bool, ErrorView>(yes),
        Err(error) => expected == Err::<bool, ErrorView>(error@),
    }
}

/// Reads a managing app's answer: its status, as a number and as text, and its
/// body or the reason why it could not be read.
pub fn read_access_answer(status: u16, status_text: &str, body: &Result<Json, String>) -> (granted:
    Result<bool, AppError>)
    ensures
        answered(granted, status, status_text@, body),
{
    if status == 403 || status == 401 {
        return Ok(false);
    }
    if !(200 <= status && status < 300) {
        return Err(
            AppError::Internal(
                text::cat2("checkUserAccess returned unexpected status ", status_text),
            ),
        );
    }
    match body {
        Err(e) => Err(
            AppError::Internal(
                text::cat2("checkUserAccess response parse failed: ", e.as_str()),
            ),
        ),
        Ok(json) => match json.get("authorized") {
            Some(value) => match value.as_bool() {
                Some(yes) => Ok(yes),
                None => Ok(false),
            },
            None => Ok(false),
        },
    }
}

/// A question to a managing app about a user's access, for an authority.
pub struct AccessQuestion {
    managing_app: String,
    did: String,
    authority_did: String,
    params: Vec<(&'static str, String)>,
}

/// A question whose managing app is being looked up.
pub struct AccessLookup {
    question: AccessQuestion,
    url: String,
}

/// A question that needs a token for the managing app.
pub struct AccessToken {
    question: AccessQuestion,
    endpoint: String,
}

/// A question as it is to be put: where, with what parameters, and with what token.
pub struct AccessRequest {
    pub url: String,
    pub params: Vec<(&'static str, String)>,
    pub token: String,
}

/// Asks a managing app about a user's access to a space.
pub fn check_user_access_with_managing_app(
    managing_app: &str,
    space_uri: &str,
    user_did: &str,
    client_id: Option<&str>,
    authority_did: &str,
    access: AccessKind,
) -> (question: Result<AccessQuestion, AppError>)
    ensures
        match question {
            Ok(question) => {
                &&& managing_app_did_of(managing_app@) == Ok::<Seq<char>, ErrorView>(question.did())
                &&& question.managing_app() == managing_app@
                &&& question.authority_did() == authority_did@
                &&& question.params() == access_params(
                    space_uri@,
                    user_did@,
                    text::opt_str(client_id),
                    access,
                )
            },
            Err(error) => managing_app_did_of(managing_app@) == Err::<Seq<char>, ErrorView>(error@),
        },
{
    match managing_app_did(managing_app) {
        Ok(did) => Ok(
            AccessQuestion {
                managing_app: managing_app.to_owned(),
                did,
                authority_did: authority_did.to_owned(),
                params: check_user_access_params(space_uri, user_did, client_id, access),
            },
        ),
        Err(error) => Err(error),
    }
}

impl AccessQuestion {
    /// The managing app, as its service identifier.
    pub closed spec fn managing_app(self) -> Seq<char> {
        self.managing_app@
    }

    /// The DID of the managing app.
    pub closed spec fn did(self) -> Seq<char> {
        self.did@
    }

    /// The authority that asks.
    pub closed spec fn authority_did(self) -> Seq<char> {
        self.authority_did@
    }

    /// The parameters of the question.
    pub closed spec fn params(self) -> Seq<(Seq<char>, Seq<char>)> {
        param_views(self.params@)
    }

    /// Goes on to look up the managing app's DID document.
    pub fn look_up(self, plc_url: &str) -> (lookup: Result<AccessLookup, AppError>)
        ensures
            match lookup {
                Ok(lookup) => did_document_url_of(plc_url@, self.did()) == Ok::<Seq<char>, ErrorView>(
                    lookup.document_url(),
                ) && lookup.question() == self,
                Err(error) => did_document_url_of(plc_url@, self.did()) == Err::<Seq<char>, ErrorView>(
                    error@,
                ),
            },
    {
        match did_document_url(plc_url, self.did.as_str()) {
            Ok(url) => Ok(AccessLookup { question: self, url }),
            Err(error) => Err(error),
        }
    }
}

impl AccessLookup {
    /// The question.
    pub closed spec fn question(self) -> AccessQuestion {
        self.question
    }

    /// Where the managing app's DID document is.
    pub closed spec fn document_url(self) -> Seq<char> {
        self.url@
    }

    /// The DID to resolve, and where its document is.
    pub fn document(&self) -> (document: (&str, &str))
        ensures
            document.0@ == self.question().did(),
            document.1@ == self.document_url(),
    {
        (self.question.did.as_str(), self.url.as_str())
    }

    /// Goes on with the services that the document lists.
    pub fn on_document(self, services: &Vec<DidService>) -> (next: Result<AccessToken, AppError>)
        ensures
            match next {
                Ok(next) => pds_endpoint_of(services@, self.question().did()) == Some(next.endpoint())
                    && next.question() == self.question(),
                Err(error) => pds_endpoint_of(services@, self.question().did()) is None && error@
                    == ErrorView::Internal(
                    "no #atproto_pds service in DID doc for "@ + self.question().did(),
                ),
            },
    {
        match pds_endpoint(services, self.question.did.as_str()) {
            Ok(endpoint) => Ok(AccessToken { question: self.question, endpoint }),
            Err(error) => Err(error),
        }
    }
}

impl AccessRequest {
    /// Reads the managing app's answer: its status, as a number and as text, and its
    /// body or the reason why it could not be read.
    pub fn on_answer(self, status: u16, status_text: &str, body: &Result<Json, String>) -> (granted: Result<
        bool,
        AppError,
    >)
        ensures
            answered(granted, status, status_text@, body),
    {
        read_access_answer(status, status_text, body)
    }
}

impl AccessToken {
    /// The question.
    pub closed spec fn question(self) -> AccessQuestion {
        self.question
    }

    /// The endpoint of the managing app.
    pub closed spec fn endpoint(self) -> Seq<char> {
        self.endpoint@
    }

    /// For whom a token is to be minted, and for which method alone.
    pub fn audience(&self) -> (audience: (&str, &'static str))
        ensures
            audience.0@ == self.question().managing_app(),
            audience.1@ == CHECK_USER_ACCESS_LXM@,
    {
        (self.question.managing_app.as_str(), CHECK_USER_ACCESS_LXM)
    }

    /// Goes on with the token and the DID that this instance signs as, which must
    /// be the authority's.
    pub fn on_token(self, token: String, instance_did: &str) -> (request: Result<AccessRequest, AppError>)
        ensures
            match request {
                Ok(request) => {
                    &&& instance_did@ == self.question().authority_did()
                    &&& request.url@ == text::trimmed_end(self.endpoint(), '/')
                        + "/xrpc/com.atproto.simplespace.checkUserAccess"@
                    &&& param_views(request.params@) == self.question().params()
                    &&& request.token == token
                },
                Err(error) => instance_did@ != self.question().authority_did() && error@
                    == ErrorView::Internal(
                    "cannot authenticate a managing-app check for authority "@
                        + self.question().authority_did() + ": this instance signs as "@ + instance_did@,
                ),
            },
    {
        match check_authority(instance_did, self.question.authority_did.as_str()) {
            Ok(_) => Ok(
                AccessRequest {
                    url: check_user_access_url(self.endpoint.as_str()),
                    params: self.question.params,
                    token,
                },
            ),
            Err(error) => Err(error),
        }
    }
}

/// Refuses a credential to whom the read policy does not grant one.
pub fn check_mint_policy(granted: bool) -> (result: Result<(), AppError>)
    ensures
        crate::error::unit_outcome(result) == (if granted {
            Ok(())
        } else {
            Err(ErrorView::Forbidden("managing app denied access to this space"@))
        }),
{
    if granted {
        Ok(())
    } else {
        Err(AppError::Forbidden("managing app denied access to this space".to_owned()))
    }
}

/// The private JWK of a P-256 secret.
pub open spec fn private_jwk_of(secret: Seq<u8>, point: Seq<u8>) -> JsonView {
    JsonView::Object(
        seq![
            ("kty"@, JsonView::Text("EC"@)),
            ("crv"@, JsonView::Text("P-256"@)),
            ("x"@, JsonView::Text(crypto::base64url_of(point.subrange(1, 33)))),
            ("y"@, JsonView::Text(crypto::base64url_of(point.subrange(33, 65)))),
            ("d"@, JsonView::Text(crypto::base64url_of(secret))),
        ],
    )
}

/// Makes the private JWK of a secret, if it is one. A credential signed with the
/// JWK is signed with the secret, and the JWK's own coordinates are those of the
/// secret's public key.
pub fn keypair_of(secret: &[u8; 32]) -> (jwk: Result<Json, AppError>)
    ensures
        match jwk {
            Ok(value) => crypto::p256_public_of(secret@) matches Some(point) && value@ == private_jwk_of(
                secret@,
                point,
            ) && credential::jwk_secret(value@) == Ok::<Seq<u8>, ErrorView>(secret@)
                && credential::jwk_point(value@) == Ok::<Seq<u8>, ErrorView>(point),
            Err(error) => crypto::p256_public_of(secret@) is None && error@ == ErrorView::Internal(
                "failed to generate signing key: signature error"@,
            ),
        },
{
    let key = match P256SigningKey::from_slice(secret) {
        Some(key) => key,
        None => {
            return Err(
                AppError::Internal("failed to generate signing key: signature error".to_owned()),
            );
        },
    };
    let point = key.public_key();
    let x = crypto::base64url_encode(vstd::slice::slice_subrange(point.as_slice(), 1, 33));
    let y = crypto::base64url_encode(vstd::slice::slice_subrange(point.as_slice(), 33, 65));
    let d = crypto::base64url_encode(secret);
    let jwk = Json::Object(
        vec![
            ("kty".to_owned(), Json::Text("EC".to_owned())),
            ("crv".to_owned(), Json::Text("P-256".to_owned())),
            ("x".to_owned(), Json::Text(x)),
            ("y".to_owned(), Json::Text(y)),
            ("d".to_owned(), Json::Text(d)),
        ],
    );
    proof {
        crate::json::lemma_json_views(jwk);
        let all = jwk@->Object_0;
        assert(all =~= private_jwk_of(secret@, point@)->Object_0);
        reveal_strlit("kty");
        reveal_strlit("crv");
        reveal_strlit("x");
        reveal_strlit("y");
        reveal_strlit("d");
        assert("kty"@[0] == 'k' && "crv"@[0] == 'c' && "x"@[0] == 'x' && "y"@[0] == 'y' && "d"@[0]
            == 'd');
        crate::json::lemma_lookup_at(all, 2);
        crate::json::lemma_lookup_at(all, 3);
        crate::json::lemma_lookup_at(all, 4);
        assert(seq![4u8] + point@.subrange(1, 33) + point@.subrange(33, 65) =~= point@);
    }
    Ok(jwk)
}

/// Makes a new key pair, as a private JWK.
pub fn generate_space_keypair() -> (jwk: Result<Json, AppError>)
    ensures
        match jwk {
            Ok(value) => exists|secret: Seq<u8>|
                secret.len() == 32 && #[trigger] crypto::p256_public_of(secret) is Some && value@
                    == private_jwk_of(secret, crypto::p256_public_of(secret)->0)
                    && credential::jwk_secret(value@) == Ok::<Seq<u8>, ErrorView>(secret),
            Err(error) => error@ == ErrorView::Internal(
                "failed to generate signing key: signature error"@,
            ),
        },
{
    let secret = crate::ambient::random_32();
    keypair_of(&secret)
}

/// The signing key that decrypted bytes hold.
pub fn read_signing_key(bytes: &[u8]) -> (jwk: Result<Json, AppError>)
    ensures
        crate::error::outcome(jwk) == (match crate::json::json_parsed(bytes@) {
            Ok(value) => Ok(value),
            Err(e) => Err(ErrorView::Internal("failed to parse signing key: "@ + e)),
        }),
{
    match Json::from_slice(bytes) {
        Ok(value) => Ok(value),
        Err(e) => Err(AppError::Internal(text::cat2("failed to parse signing key: ", e.as_str()))),
    }
}

/// What is kept of a credential, so that it can be revoked: its hash, not the
/// token.
#[derive(Debug)]
pub struct CredentialRow {
    pub id: String,
    pub space_id: String,
    pub issued_to: String,
    pub token_hash: String,
    pub expires_at: String,
    pub created_at: String,
}

/// What a credential for a space says, minted at a time.
pub open spec fn minted_claims(space: Space, now: u64, jti: Seq<char>) -> CredentialView {
    CredentialView {
        iss: space.authority_did@,
        sub: native_sync::space_address(space),
        iat: now,
        exp: (now + DEFAULT_CREDENTIAL_TTL_SECS) as u64,
        jti,
    }
}

/// What becomes of a request for a credential before it is minted: the
/// application is checked, then the user. `granted` is what the managing app
/// answers, where the read policy asks one.
pub open spec fn mint_verdict(space: Space, client_id: Option<Seq<char>>, granted: bool) -> Result<
    (),
    ErrorView,
> {
    match app_verdict(space.app_access@, client_id) {
        Err(error) => Err(error),
        Ok(_) => match space.read_policy@ {
            PolicyView::ManagingApp { managing_app } => match managing_app_did_of(managing_app) {
                Err(error) => Err(error),
                Ok(_) => if granted {
                    Ok(())
                } else {
                    Err(ErrorView::Forbidden("managing app denied access to this space"@))
                },
            },
            _ => Ok(()),
        },
    }
}

/// A credential that may be minted for a user of a space.
pub struct MintRequest<'a> {
    space: &'a Space,
    subject_did: &'a str,
}

/// A request for a credential that waits for the managing app's answer.
pub struct ManagingAppCheck<'a> {
    request: MintRequest<'a>,
}

/// How a request for a credential goes on.
pub enum IssueStep<'a> {
    /// The managing app is to be asked, and its answer goes to the check.
    Ask { question: AccessQuestion, check: ManagingAppCheck<'a> },
    Mint(MintRequest<'a>),
}

/// What a user's request for a credential, through an application, comes to.
pub open spec fn issued_as(
    space: Space,
    subject_did: Seq<char>,
    client_id: Option<Seq<char>>,
    step: Result<IssueStep<'_>, AppError>,
) -> bool {
    match step {
        Err(error) => forall|granted: bool| #[trigger]
            mint_verdict(space, client_id, granted) == Err::<(), ErrorView>(error@),
        Ok(IssueStep::Mint(request)) => {
            &&& forall|granted: bool| #[trigger]
                mint_verdict(space, client_id, granted) == Ok::<(), ErrorView>(())
            &&& request.space() == space
            &&& request.subject_did() == subject_did
        },
        Ok(IssueStep::Ask { question, check }) => {
            &&& mint_verdict(space, client_id, true) == Ok::<(), ErrorView>(())
            &&& space.read_policy@ == (PolicyView::ManagingApp {
                managing_app: question.managing_app(),
            })
            &&& managing_app_did_of(question.managing_app()) == Ok::<Seq<char>, ErrorView>(
                question.did(),
            )
            &&& question.authority_did() == space.authority_did@
            &&& question.params() == access_params(
                native_sync::space_address(space),
                subject_did,
                client_id,
                AccessKind::Read,
            )
            &&& check.request().space() == space
            &&& check.request().subject_did() == subject_did
        },
    }
}

/// Takes a user's request for a credential, through an application.
pub fn issue_credential<'a>(space: &'a Space, subject_did: &'a str, client_id: Option<&str>) -> (step:
    Result<IssueStep<'a>, AppError>)
    ensures
        issued_as(*space, subject_did@, text::opt_str(client_id), step),
{
    match check_app_access(space, client_id) {
        Err(error) => {
            return Err(error);
        },
        Ok(_) => {},
    }
    let request = MintRequest { space, subject_did };
    let managing_app = match policy_asks(&space.read_policy) {
        None => {
            return Ok(IssueStep::Mint(request));
        },
        Some(app) => app,
    };
    let uri = native_sync::space_uri(space);
    let question = match check_user_access_with_managing_app(
        managing_app.as_str(),
        uri.as_str(),
        subject_did,
        client_id,
        space.authority_did.as_str(),
        AccessKind::Read,
    ) {
        Ok(question) => question,
        Err(error) => return Err(error),
    };
    Ok(IssueStep::Ask { question, check: ManagingAppCheck { request } })
}

impl<'a> ManagingAppCheck<'a> {
    /// The credential that is asked for.
    pub closed spec fn request(self) -> MintRequest<'a> {
        self.request
    }

    /// Takes the managing app's answer.
    pub fn on_answer(self, granted: bool) -> (request: Result<MintRequest<'a>, AppError>)
        ensures
            match request {
                Ok(request) => granted && request == self.request(),
                Err(error) => !granted && error@ == ErrorView::Forbidden(
                    "managing app denied access to this space"@,
                ),
            },
    {
        match check_mint_policy(granted) {
            Ok(_) => Ok(self.request),
            Err(error) => Err(error),
        }
    }
}

impl<'a> MintRequest<'a> {
    /// The space that the credential is for.
    pub closed spec fn space(self) -> Space {
        *self.space
    }

    /// The user that it is issued to.
    pub closed spec fn subject_did(self) -> Seq<char> {
        self.subject_did@
    }

    /// Mints a credential for a space, with what is to be kept of it. It verifies
    /// under the key's public key until it expires.
    pub fn mint_at(
        self,
        private_jwk: &Json,
        now: u64,
        created_at: &str,
    ) -> (result: Result<(IssuedCredential, CredentialRow), AppError>)
        requires
            now + DEFAULT_CREDENTIAL_TTL_SECS <= u64::MAX,
        ensures
            match result {
                Err(error) => credential::jwk_secret(private_jwk@) == Err::<Seq<u8>, ErrorView>(error@),
                Ok((issued, row)) => credential::jwk_secret(private_jwk@) matches Ok(secret) && (exists|
                    jti: Seq<char>,
                |
                    crate::ambient::is_uuid_v4(jti) && issued.token@ == credential::credential_token(
                        #[trigger] minted_claims(self.space(), now, jti),
                        secret,
                    ) && forall|then: u64|
                        then < now + DEFAULT_CREDENTIAL_TTL_SECS
                            ==> #[trigger] credential::key_credential_verdict(
                            issued.token@,
                            crate::spaces::commit::SpaceKeyView::P256(crypto::p256_public_of(secret)->0),
                            then,
                        ) == Ok::<CredentialView, ErrorView>(minted_claims(self.space(), now, jti)))
                    && issued.expires_at@ == crate::ambient::expiry_text(
                    (now + DEFAULT_CREDENTIAL_TTL_SECS) as u64,
                ) && crate::ambient::is_uuid_v4(row.id@) && row.space_id@ == self.space().id@ && row.issued_to@
                    == self.subject_did() && row.token_hash@ == crypto::text_hash(issued.token@)
                    && row.expires_at@ == issued.expires_at@ && row.created_at@ == created_at@,
            },
    {
        let space = self.space;
        let exp = now + DEFAULT_CREDENTIAL_TTL_SECS;
        let claims = SpaceCredentialClaims {
            iss: space.authority_did.clone(),
            sub: native_sync::space_uri(space),
            iat: now,
            exp,
            jti: credential::make_jti(),
        };
        assert(claims@ == minted_claims(*space, now, claims.jti@));
        let token = match credential::sign_credential(&claims, private_jwk) {
            Ok(token) => token,
            Err(error) => {
                return Err(error);
            },
        };
        let token_hash = crypto::hash_text(token.as_str());
        let expires_at = crate::ambient::format_expiry(exp);
        let row = CredentialRow {
            id: crate::ambient::random_uuid(),
            space_id: space.id.clone(),
            issued_to: self.subject_did.to_owned(),
            token_hash,
            expires_at: expires_at.clone(),
            created_at: created_at.to_owned(),
        };
        Ok((IssuedCredential { token, expires_at }, row))
    }
}

/// A managing app's refusal keeps credentials from being minted, and so does an
/// allow list that does not name the application, whatever the app says.
pub proof fn law_both_gates_must_pass(space: Space, client_id: Option<Seq<char>>, granted: bool)
    ensures
        mint_verdict(space, client_id, granted) is Ok && space.read_policy@ is ManagingApp ==> granted,
        mint_verdict(space, client_id, granted) is Ok ==> (space.app_access@ matches AppAccessView::AllowList {
            allowed,
        } ==> (client_id matches Some(id) && allowed.contains(id))),
{
}

/// A managing app is asked about one space, one user and one kind of access, each
/// under its name, and about the application just where reading is asked about and
/// it is known.
pub proof fn law_what_managing_apps_are_asked(
    space_uri: Seq<char>,
    user_did: Seq<char>,
    client_id: Option<Seq<char>>,
    access: AccessKind,
    name: Seq<char>,
    value: Seq<char>,
)
    ensures
        access_params(space_uri, user_did, client_id, access).contains((name, value)) <==> {
            ||| name == "space"@ && value == space_uri
            ||| name == "user"@ && value == user_did
            ||| name == "access"@ && access == AccessKind::Read && value == "read"@
            ||| name == "access"@ && access == AccessKind::Write && value == "write"@
            ||| name == "clientId"@ && access == AccessKind::Read && client_id == Some(value)
        },
        access_params(space_uri, user_did, client_id, access).len() <= 4,
{
    let params = access_params(space_uri, user_did, client_id, access);
    assert(params[0] == ("space"@, space_uri));
    assert(params[1] == ("user"@, user_did));
    assert(params[2] == ("access"@, access.text()));
    if client_id is Some && access == AccessKind::Read {
        assert(params[3] == ("clientId"@, client_id->0));
    }
    if params.contains((name, value)) {
        let i = choose|i: int| 0 <= i < params.len() && params[i] == (name, value);
        assert(i == 0 || i == 1 || i == 2 || i == 3);
    }
}

/// An open space admits every application, and one with an allow list those that
/// it lists. Who does not say what application it is must first do so, and who is
/// not listed is forbidden.
pub proof fn law_which_applications_are_admitted(access: AppAccessView, client_id: Option<Seq<char>>)
    ensures
        app_verdict(access, client_id) is Ok <==> access is Open || (client_id matches Some(id)
            && access->allowed.contains(id)),
        app_verdict(access, client_id) matches Err(error) ==> (if client_id is None {
            error is Auth
        } else {
            error is Forbidden
        }),
{
}

/// A managing app is a DID, with or without the fragment of its PDS behind it; any
/// other fragment is a bad request.
pub proof fn law_the_did_of_a_managing_app(managing_app: Seq<char>, did: Seq<char>)
    ensures
        managing_app_did_of(managing_app) == Ok::<Seq<char>, ErrorView>(did) <==> !did.contains('#') && (
        managing_app == did || managing_app == did + "#atproto_pds"@),
        managing_app_did_of(managing_app) matches Err(error) ==> error is BadRequest,
{
    reveal_strlit("#atproto_pds");
    reveal_strlit("atproto_pds");
    assert("#atproto_pds"@ =~= seq!['#'] + "atproto_pds"@);
    text::law_parted_at_the_first(managing_app, '#');
    if let Some((a, b)) = text::parted(managing_app, '#') {
        if b == "atproto_pds"@ {
            assert(managing_app =~= a + "#atproto_pds"@);
        }
    }
    if !did.contains('#') && managing_app == did + "#atproto_pds"@ {
        assert(managing_app[did.len() as int] == '#');
        assert forall|j: int| 0 <= j < did.len() implies managing_app[j] != '#' by {
            assert(managing_app[j] == did[j]);
        }
        text::lemma_first_index_is(managing_app, '#', did.len() as int);
        assert(managing_app.take(did.len() as int) =~= did);
        assert(managing_app.skip(did.len() as int + 1) =~= "atproto_pds"@);
    }
}

/// Where a DID's document is: a `did:plc` below the directory, whether or not the
/// directory's URL ends with a slash; a `did:web` at the well-known place of its
/// host, or below the path that it names. There is no other kind.
pub proof fn law_where_did_documents_are(
    plc_url: Seq<char>,
    id: Seq<char>,
    host: Seq<char>,
    path: Seq<Seq<char>>,
    did: Seq<char>,
)
    requires
        !host.contains(':'),
        forall|i: int| 0 <= i < path.len() ==> !(#[trigger] path[i]).contains(':'),
        path.len() > 0,
    ensures
        plc_url.len() == 0 || plc_url.last() != '/' ==> did_document_url_of(plc_url, "did:plc:"@ + id) == Ok::<
            Seq<char>,
            ErrorView,
        >(plc_url + "/"@ + ("did:plc:"@ + id)),
        did_document_url_of(plc_url + "/"@, did) == did_document_url_of(plc_url, did),
        did_document_url_of(plc_url, "did:web:"@ + host) == Ok::<Seq<char>, ErrorView>(
            "https://"@ + host + "/.well-known/did.json"@,
        ),
        did_document_url_of(plc_url, "did:web:"@ + text::join_with(seq![host] + path, ':')) == Ok::<
            Seq<char>,
            ErrorView,
        >("https://"@ + host + "/"@ + text::join_with(path, '/') + "/did.json"@),
        did_document_url_of(plc_url, did) is Ok <==> text::has_prefix(did, "did:plc:"@) || text::has_prefix(
            did,
            "did:web:"@,
        ),
        did_document_url_of(plc_url, did) matches Err(error) ==> error is BadRequest,
{
    reveal_strlit("did:plc:");
    reveal_strlit("did:web:");
    reveal_strlit("/");
    let plc = "did:plc:"@ + id;
    assert(plc.take(8) =~= "did:plc:"@);
    assert((plc_url + "/"@).drop_last() =~= plc_url);
    let web = "did:web:"@ + host;
    assert(web.take(8) =~= "did:web:"@);
    assert(web.take(8)[4] == 'w' && "did:plc:"@[4] == 'p');
    assert(web.skip(8) =~= host);
    text::lemma_split_join(seq![host], ':');
    assert(text::split_on(host, ':') =~= seq![host]);
    let parts = seq![host] + path;
    assert forall|i: int| 0 <= i < parts.len() implies !(#[trigger] parts[i]).contains(':') by {
        if i > 0 {
            assert(parts[i] == path[i - 1]);
        }
    }
    text::lemma_split_join(parts, ':');
    let deep = "did:web:"@ + text::join_with(parts, ':');
    assert(deep.take(8) =~= "did:web:"@);
    assert(deep.skip(8) =~= text::join_with(parts, ':'));
    assert(deep.take(8)[4] == 'w');
    assert(parts.skip(1) =~= path);
    if plc_url.len() == 0 || plc_url.last() != '/' {
        assert(text::trimmed_end(plc_url, '/') == plc_url);
    }
}

/// The endpoint that is found is that of the first service that is the PDS, under
/// either form of its id, and none is found only where no service is.
pub proof fn law_the_first_pds_is_found(services: Seq<DidService>, did: Seq<char>)
    ensures
        match pds_endpoint_of(services, did) {
            Some(endpoint) => exists|i: int|
                #![trigger services[i]]
                0 <= i < services.len() && (services[i].id@ == "#atproto_pds"@ || services[i].id@ == did
                    + "#atproto_pds"@) && services[i].service_endpoint@ == endpoint && forall|j: int|
                    0 <= j < i ==> (#[trigger] services[j]).id@ != "#atproto_pds"@ && services[j].id@ != did
                        + "#atproto_pds"@,
            None => forall|j: int|
                0 <= j < services.len() ==> (#[trigger] services[j]).id@ != "#atproto_pds"@ && services[j].id@
                    != did + "#atproto_pds"@,
        },
    decreases services.len(),
{
    if services.len() > 0 && !is_pds_of(services[0], did) {
        let rest = services.skip(1);
        law_the_first_pds_is_found(rest, did);
        match pds_endpoint_of(rest, did) {
            Some(endpoint) => {
                let i = choose|i: int|
                    #![trigger rest[i]]
                    0 <= i < rest.len() && is_pds_of(rest[i], did) && rest[i].service_endpoint@ == endpoint
                        && forall|j: int| 0 <= j < i ==> !is_pds_of(#[trigger] rest[j], did);
                assert(services[i + 1] == rest[i]);
                assert forall|j: int| 0 <= j < i + 1 implies !is_pds_of(#[trigger] services[j], did) by {
                    if j > 0 {
                        assert(services[j] == rest[j - 1]);
                    }
                }
            },
            None => {
                assert forall|j: int| 0 <= j < services.len() implies !is_pds_of(
                    #[trigger] services[j],
                    did,
                ) by {
                    if j > 0 {
                        assert(services[j] == rest[j - 1]);
                    }
                }
            },
        }
    } else if services.len() > 0 {
        assert(services[0].service_endpoint@ == pds_endpoint_of(services, did)->0);
    }
}

/// A managing app grants access just by an answer that succeeds and says
/// `authorized: true`. Refusing the question denies access, as does an answer that
/// says anything else; a failure or an unreadable answer is an error.
pub proof fn law_when_a_managing_app_grants(
    status: u16,
    status_text: Seq<char>,
    body: Result<JsonView, Seq<char>>,
)
    ensures
        access_answer_of(status, status_text, body) == Ok::<bool, ErrorView>(true) <==> 200 <= status
            <= 299 && (body matches Ok(json) && json.get("authorized"@) == Some(JsonView::Bool(true))),
        access_answer_of(status, status_text, body) is Err <==> status != 401 && status != 403 && (status
            < 200 || status >= 300 || body is Err),
        access_answer_of(status, status_text, body) matches Err(error) ==> error is Internal,
{
}

/// A private JWK is a P-256 key: it names the curve, and holds the two coordinates
/// of the public point and the secret, each under its name.
pub proof fn law_private_jwks_hold_the_key(secret: Seq<u8>, point: Seq<u8>)
    ensures
        private_jwk_of(secret, point).get_str("kty"@) == Some("EC"@),
        private_jwk_of(secret, point).get_str("crv"@) == Some("P-256"@),
        private_jwk_of(secret, point).get_str("x"@) == Some(
            crypto::base64url_of(point.subrange(1, 33)),
        ),
        private_jwk_of(secret, point).get_str("y"@) == Some(
            crypto::base64url_of(point.subrange(33, 65)),
        ),
        private_jwk_of(secret, point).get_str("d"@) == Some(crypto::base64url_of(secret)),
{
    reveal_strlit("kty");
    reveal_strlit("crv");
    reveal_strlit("x");
    reveal_strlit("y");
    reveal_strlit("d");
    assert("kty"@.len() == 3 && "crv"@.len() == 3 && "x"@.len() == 1 && "y"@.len() == 1 && "d"@.len() == 1);
    assert("kty"@[0] == 'k' && "crv"@[0] == 'c' && "x"@[0] == 'x' && "y"@[0] == 'y' && "d"@[0] == 'd');
    reveal_with_fuel(crate::json::lookup, 6);
    let m = private_jwk_of(secret, point)->Object_0;
    assert(m.drop_last() =~= m.take(4));
    assert(m.take(4).drop_last() =~= m.take(3));
    assert(m.take(3).drop_last() =~= m.take(2));
    assert(m.take(2).drop_last() =~= m.take(1));
    assert(m.take(1).drop_last() =~= m.take(0));
}

/// A credential is the space authority's, about the space's address, under the
/// identifier it was given, and lasts two hours from the time it is minted.
pub proof fn law_minted_credentials_last_two_hours(space: Space, now: u64, jti: Seq<char>)
    requires
        now + 7200 <= u64::MAX,
    ensures
        minted_claims(space, now, jti).iss == space.authority_did@,
        minted_claims(space, now, jti).sub == crate::spaces::uri::space_text(
            space.did@,
            space.type_nsid@,
            space.skey@,
        ),
        minted_claims(space, now, jti).iat == now,
        minted_claims(space, now, jti).exp == now + 7200,
        minted_claims(space, now, jti).jti == jti,
{
}

/// A credential is minted just if the space admits the application, and the
/// managing app, where the read policy names one that can be asked, grants it.
/// Which users a policy of another kind lets in is settled before.
pub proof fn law_when_credentials_are_minted(space: Space, client_id: Option<Seq<char>>, granted: bool)
    ensures
        mint_verdict(space, client_id, granted) is Ok <==> {
            &&& space.app_access@ is Open || (client_id matches Some(id) && space.app_access@->allowed.contains(
                id,
            ))
            &&& space.read_policy@ matches PolicyView::ManagingApp { managing_app } ==> granted
                && managing_app_did_of(managing_app) is Ok
        },
        !granted && mint_verdict(space, client_id, true) is Ok ==> (mint_verdict(space, client_id, false) is Ok
            || mint_verdict(space, client_id, false) matches Err(ErrorView::Forbidden(_))),
{
}

/// What is read from a managing app's answer grants access just if the answer
/// succeeded and says so, and fails just where the answer does.
pub proof fn law_answers_are_read_as_they_are_meant(
    granted: Result<bool, AppError>,
    status: u16,
    status_text: Seq<char>,
    body: Result<Json, String>,
)
    requires
        answered(granted, status, status_text, &body),
    ensures
        granted == Ok::<bool, AppError>(true) <==> 200 <= status <= 299 && (body matches Ok(json)
            && json@.get("authorized"@) == Some(JsonView::Bool(true))),
        granted is Err <==> status != 401 && status != 403 && (status < 200 || status >= 300 || body is Err),
{
}

} // verus!
