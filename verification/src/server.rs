//! The HTTP surface: where requests may come from, where redirects lead, and
//! what the service publishes of itself.
use vstd::prelude::*;

use crate::auth::{Claims, XrpcClaims};
use crate::crypto;
use crate::error::{AppError, ErrorView};
use crate::json::{Json, JsonView};
use crate::oauth::client_keys;
use crate::oauth::client_keys::{ClientKey, KeyStatus, KeyView};
use crate::spaces::commit::SpaceKeyView;
use crate::spaces::credential;
use crate::text;

verus! {

/// The methods that a request from another origin may use.
pub const CORS_ALLOW_METHODS: &'static str = "GET, POST, DELETE, OPTIONS";

/// The headers that a request with credentials may carry.
pub const CORS_ALLOW_HEADERS_CREDENTIALED: &'static str =
    "content-type, authorization, cookie, x-client-key, x-client-secret, dpop, atproto-accept-labelers, atproto-proxy";

/// The headers that a request without credentials may carry: the same, but for
/// the cookie.
pub const CORS_ALLOW_HEADERS_ANON: &'static str =
    "content-type, authorization, x-client-key, x-client-secret, dpop, atproto-accept-labelers, atproto-proxy";

/// What to do with a request that may come from another origin.
pub enum CorsDecision {
    /// Serve it, and add these headers to the answer.
    Serve(Vec<(&'static str, String)>),
    /// Answer that there is no content, with these headers.
    Preflight(Vec<(&'static str, String)>),
}

/// What headers say.
pub open spec fn header_views(headers: Seq<(&'static str, String)>) -> Seq<(Seq<char>, Seq<char>)> {
    headers.map_values(|h: (&'static str, String)| (h.0@, h.1@))
}

/// The headers that grant an origin access to an answer.
pub open spec fn cors_grant(origin: Seq<char>, trusted: bool) -> Seq<(Seq<char>, Seq<char>)> {
    let base = seq![("access-control-allow-origin"@, origin), ("vary"@, "origin"@)];
    if trusted {
        base.push(("access-control-allow-credentials"@, "true"@))
    } else {
        base
    }
}

/// The headers that answer a preflight request.
pub open spec fn cors_preflight(origin: Seq<char>, trusted: bool) -> Seq<(Seq<char>, Seq<char>)> {
    cors_grant(origin, trusted) + seq![
        ("access-control-allow-methods"@, CORS_ALLOW_METHODS@),
        (
            "access-control-allow-headers"@,
            if trusted {
                CORS_ALLOW_HEADERS_CREDENTIALED@
            } else {
                CORS_ALLOW_HEADERS_ANON@
            },
        ),
        ("access-control-max-age"@, "86400"@),
    ]
}

/// The headers of a decision.
pub open spec fn decision_headers(decision: CorsDecision) -> Seq<(Seq<char>, Seq<char>)> {
    match decision {
        CorsDecision::Serve(headers) => header_views(headers@),
        CorsDecision::Preflight(headers) => header_views(headers@),
    }
}

/// Decides what another origin may do.
///
/// There are two policies, by trust. An origin that this service is itself
/// served on has its origin reflected with credentials, so that the dashboard
/// works across registered domains. Any other origin has its origin reflected
/// without credentials: third-party clients authenticate with explicit headers
/// and never with ambient cookies, so they keep working, and a page of an
/// attacker can neither ride a cookie nor read an answer to one.
///
/// `usable` says whether the origin can stand in a header at all. One that cannot
/// is refused.
pub fn cors(origin: Option<&str>, usable: bool, trusted: bool, is_preflight: bool) -> (decision:
    CorsDecision)
    ensures
        match origin {
            None => decision is Serve && decision_headers(decision) == Seq::<
                (Seq<char>, Seq<char>),
            >::empty(),
            Some(o) => decision is Preflight == is_preflight && decision_headers(decision) == (
            if !usable {
                Seq::empty()
            } else if is_preflight {
                cors_preflight(o@, trusted)
            } else {
                cors_grant(o@, trusted)
            }),
        },
{
    let mut headers: Vec<(&'static str, String)> = Vec::new();
    assert(header_views(headers@) =~= Seq::empty());
    let origin = match origin {
        Some(origin) => origin,
        None => {
            return CorsDecision::Serve(headers);
        },
    };
    if usable {
        headers.push(("access-control-allow-origin", origin.to_owned()));
        headers.push(("vary", "origin".to_owned()));
        if trusted {
            headers.push(("access-control-allow-credentials", "true".to_owned()));
        }
        assert(header_views(headers@) =~= cors_grant(origin@, trusted));
        if is_preflight {
            headers.push(("access-control-allow-methods", CORS_ALLOW_METHODS.to_owned()));
            let allowed = if trusted {
                CORS_ALLOW_HEADERS_CREDENTIALED
            } else {
                CORS_ALLOW_HEADERS_ANON
            };
            headers.push(("access-control-allow-headers", allowed.to_owned()));
            headers.push(("access-control-max-age", "86400".to_owned()));
            assert(header_views(headers@) =~= cors_preflight(origin@, trusted));
        }
    }
    if is_preflight {
        CorsDecision::Preflight(headers)
    } else {
        CorsDecision::Serve(headers)
    }
}

/// Whether headers allow credentials.
pub open spec fn allows_credentials(headers: Seq<(Seq<char>, Seq<char>)>) -> bool {
    exists|i: int|
        0 <= i < headers.len() && (#[trigger] headers[i]).0 == "access-control-allow-credentials"@
}

/// The one rule that must never be broken: credentials are allowed to trusted
/// origins alone.
pub proof fn law_credentials_need_a_trusted_origin(origin: Seq<char>, trusted: bool)
    ensures
        allows_credentials(cors_grant(origin, trusted)) == trusted,
        allows_credentials(cors_preflight(origin, trusted)) == trusted,
{
    reveal_strlit("access-control-allow-origin");
    reveal_strlit("vary");
    reveal_strlit("access-control-allow-credentials");
    reveal_strlit("access-control-allow-methods");
    reveal_strlit("access-control-allow-headers");
    reveal_strlit("access-control-max-age");
    let name = "access-control-allow-credentials"@;
    assert(name.len() == 32);
    let grant = cors_grant(origin, trusted);
    let preflight = cors_preflight(origin, trusted);
    if trusted {
        assert(grant[2].0 == name);
        assert(preflight[2].0 == name);
    } else {
        assert forall|i: int| 0 <= i < preflight.len() implies (#[trigger] preflight[i]).0 != name by {
            assert(preflight[0].0.len() == 27);
            assert(preflight[1].0.len() == 4);
            assert(preflight[2].0.len() == 28);
            assert(preflight[3].0.len() == 28);
            assert(preflight[4].0.len() == 22);
        }
        assert forall|i: int| 0 <= i < grant.len() implies (#[trigger] grant[i]).0 != name by {
            assert(grant[0].0.len() == 27);
            assert(grant[1].0.len() == 4);
        }
    }
}

/// Whether a path is at or below a base path.
pub open spec fn is_below(path: Seq<char>, base: Seq<char>) -> bool {
    text::has_prefix(path, base) && (path.len() == base.len() || path[base.len() as int] == '/')
}

/// Where a redirect leads for a service below a base path: a local path that is
/// not below it already is put there, and any other location stays.
pub open spec fn rewritten_location(base: Seq<char>, location: Seq<char>) -> Option<Seq<char>> {
    if text::has_prefix(location, "/"@) && !is_below(location, base) {
        Some(base + location)
    } else {
        None
    }
}

/// Rewrites the location of a redirect, if it must be.
pub fn rewrite_location(base: &str, location: &str) -> (rewritten: Option<String>)
    ensures
        text::opt_text(rewritten) == rewritten_location(base@, location@),
{
    if !text::starts_with(location, "/") {
        return None;
    }
    if text::starts_with(location, base) {
        let n = base.unicode_len();
        if location.unicode_len() == n {
            return None;
        }
        let chars = text::chars_of(location);
        if chars[n] == '/' {
            return None;
        }
    }
    Some(text::cat2(base, location))
}

/// What was rewritten is below the base path, and is not rewritten again.
pub proof fn law_rewriting_is_idempotent(base: Seq<char>, location: Seq<char>)
    requires
        text::has_prefix(base, "/"@),
    ensures
        rewritten_location(base, location) matches Some(path) ==> is_below(path, base)
            && rewritten_location(base, path) is None,
{
    reveal_strlit("/");
    if let Some(path) = rewritten_location(base, location) {
        assert(path.take(base.len() as int) =~= base);
        assert(path[base.len() as int] == location[0]);
        assert(location.take(1)[0] == location[0]);
    }
}

/// The files that stand in for a path without one: the shell of the dynamic route
/// that its parent may have, and the root page.
pub open spec fn shells_of(dir: Seq<char>, path: Seq<char>) -> (Option<Seq<char>>, Seq<char>) {
    let segments = text::split_on(text::trimmed_end(text::trimmed_start(path, '/'), '/'), '/');
    (
        if segments.len() >= 2 {
            Some(dir + "/"@ + text::join_with(segments.drop_last(), '/') + "/_/index.html"@)
        } else {
            None
        },
        dir + "/index.html"@,
    )
}

/// The files that stand in for a path without one, in the order they are tried.
pub fn spa_fallback(dir: &str, path: &str) -> (shells: (Option<String>, String))
    ensures
        (text::opt_text(shells.0), shells.1@) == shells_of(dir@, path@),
{
    let segments = text::split(text::trim_matches(path, '/'), '/');
    assert(text::texts(segments@).len() == segments@.len());
    let dynamic = if segments.len() >= 2 {
        let parent = vstd::slice::slice_subrange(segments.as_slice(), 0, segments.len() - 1);
        assert(text::texts(parent@) =~= text::texts(segments@).drop_last());
        proof {
            reveal_strlit("/");
        }
        let joined = text::join(parent, "/");
        Some(text::cat4(dir, "/", joined.as_str(), "/_/index.html"))
    } else {
        None
    };
    (dynamic, text::cat2(dir, "/index.html"))
}

/// The URL of the logo: of the one that was uploaded, or else as it is set, or as
/// it is configured.
pub fn logo_url(
    domain_url: &str,
    has_logo_data: bool,
    setting: Option<String>,
    configured: Option<String>,
) -> (url: Option<String>)
    ensures
        text::opt_text(url) == (if has_logo_data {
            Some(text::trimmed_end(domain_url@, '/') + "/settings/logo"@)
        } else {
            match setting {
                Some(s) => Some(s@),
                None => text::opt_text(configured),
            }
        }),
{
    if has_logo_data {
        Some(text::cat2(text::trim_end_matches(domain_url, '/'), "/settings/logo"))
    } else {
        match setting {
            Some(s) => Some(s),
            None => configured,
        }
    }
}

/// A value that was set, or else the one that was configured.
pub fn setting_or(setting: Option<String>, configured: Option<String>) -> (value: Option<String>)
    ensures
        value == (match setting {
            Some(s) => Some(s),
            None => configured,
        }),
{
    match setting {
        Some(s) => Some(s),
        None => configured,
    }
}

/// What an operator sets of the client metadata.
#[derive(Debug)]
pub struct ClientSettings {
    pub app_name: Option<String>,
    pub client_uri: Option<String>,
    pub has_logo_data: bool,
    pub logo_uri: Option<String>,
    pub tos_uri: Option<String>,
    pub policy_uri: Option<String>,
}

/// Metadata with a text under a key, if there is one.
pub open spec fn with_text(metadata: JsonView, key: Seq<char>, value: Option<Seq<char>>) -> JsonView {
    match value {
        Some(t) => crate::json::with_member(metadata, key, JsonView::Text(t)),
        None => metadata,
    }
}

fn set_text(metadata: Json, key: &str, value: Option<String>) -> (result: Json)
    requires
        metadata is Object,
    ensures
        result is Object,
        result@ == with_text(metadata@, key@, text::opt_text(value)),
{
    match value {
        Some(t) => crate::json::set_member(metadata, key, Json::Text(t)),
        None => metadata,
    }
}

/// The logo of the client metadata.
pub open spec fn client_logo(domain_url: Seq<char>, settings: ClientSettings) -> Option<Seq<char>> {
    if settings.has_logo_data {
        Some(text::trimmed_end(domain_url, '/') + "/settings/logo"@)
    } else {
        text::opt_text(settings.logo_uri)
    }
}

/// Metadata to add to: an object, which stands for none as well.
pub open spec fn metadata_object(metadata: JsonView) -> JsonView {
    if metadata is Null {
        JsonView::Object(Seq::empty())
    } else {
        metadata
    }
}

/// The client metadata with what an operator set, and with the scopes that linked
/// repos need if those could be found. The client's id is the URL under which the
/// metadata is served, for that is what authorization servers compare it with.
pub open spec fn client_metadata_of(
    metadata: JsonView,
    domain_url: Seq<char>,
    settings: ClientSettings,
    scope: Option<Seq<char>>,
) -> JsonView {
    let named = with_text(
        crate::json::with_member(
            metadata_object(metadata),
            "client_id"@,
            JsonView::Text(text::trimmed_end(domain_url, '/') + "/oauth-client-metadata.json"@),
        ),
        "client_name"@,
        text::opt_text(settings.app_name),
    );
    let shown = with_text(
        with_text(named, "client_uri"@, text::opt_text(settings.client_uri)),
        "logo_uri"@,
        client_logo(domain_url, settings),
    );
    let legal = with_text(
        with_text(shown, "tos_uri"@, text::opt_text(settings.tos_uri)),
        "policy_uri"@,
        text::opt_text(settings.policy_uri),
    );
    with_text(legal, "scope"@, scope)
}

/// Puts into the client metadata, if there is any, what an operator set.
pub fn client_metadata(
    metadata: Json,
    domain_url: &str,
    settings: ClientSettings,
    scope: Option<String>,
) -> (result: Json)
    requires
        metadata is Object || metadata is Null,
    ensures
        result is Object,
        result@ == client_metadata_of(metadata@, domain_url@, settings, text::opt_text(scope)),
{
    let client_id = text::cat2(
        text::trim_end_matches(domain_url, '/'),
        "/oauth-client-metadata.json",
    );
    let metadata = match metadata {
        Json::Null => {
            let object = Json::Object(Vec::new());
            proof {
                crate::json::lemma_json_views(object);
                assert(object@->Object_0 =~= Seq::empty());
            }
            object
        },
        other => other,
    };
    let metadata = crate::json::set_member(metadata, "client_id", Json::Text(client_id));
    let metadata = set_text(metadata, "client_name", settings.app_name);
    let metadata = set_text(metadata, "client_uri", settings.client_uri);
    let logo = logo_url(domain_url, settings.has_logo_data, settings.logo_uri, None);
    let metadata = set_text(metadata, "logo_uri", logo);
    let metadata = set_text(metadata, "tos_uri", settings.tos_uri);
    let metadata = set_text(metadata, "policy_uri", settings.policy_uri);
    set_text(metadata, "scope", scope)
}

/// The key set to publish, if a key can be.
pub open spec fn published_of(keys: Seq<KeyView>) -> Option<JsonView> {
    let usable = client_keys::usable(keys);
    if usable.len() == 0 {
        None
    } else {
        Some(client_keys::jwks_of(usable))
    }
}

/// The key set to publish: the current key, and the one that live sessions still
/// refresh with. Nothing where there is no usable key.
pub fn published_jwks(keys: &Vec<ClientKey>) -> (jwks: Option<Json>)
    ensures
        match jwks {
            Some(value) => published_of(client_keys::key_views(keys@)) == Some(value@),
            None => published_of(client_keys::key_views(keys@)) is None,
        },
{
    let ghost views = client_keys::key_views(keys@);
    let mut found = false;
    for i in 0..keys.len()
        invariant
            views == client_keys::key_views(keys@),
            found == (client_keys::usable(views.take(i as int)).len() > 0),
    {
        assert(views.take(i + 1).drop_last() =~= views.take(i as int));
        assert(views.take(i + 1).last() == keys@[i as int]@);
        if keys[i].status != KeyStatus::Revoked {
            found = true;
        }
    }
    assert(views.take(views.len() as int) =~= views);
    if found {
        Some(client_keys::render_jwks(keys))
    } else {
        None
    }
}

/// Client metadata with the key set to publish: only where the client has one, and
/// a key can be published.
pub open spec fn jwks_overridden(metadata: JsonView, keys: Seq<KeyView>) -> JsonView {
    if metadata.get("jwks"@) is None {
        metadata
    } else {
        match published_of(keys) {
            Some(jwks) => crate::json::with_member(metadata, "jwks"@, jwks),
            None => metadata,
        }
    }
}

/// Puts the key set to publish into client metadata.
pub fn apply_jwks_override(metadata: Json, keys: &Vec<ClientKey>) -> (result: Json)
    ensures
        result@ == jwks_overridden(metadata@, client_keys::key_views(keys@)),
{
    if metadata.get("jwks").is_none() {
        return metadata;
    }
    match published_jwks(keys) {
        Some(jwks) => {
            proof {
                crate::json::lemma_json_views(metadata);
            }
            crate::json::set_member(metadata, "jwks", jwks)
        },
        None => metadata,
    }
}

/// What is published of a client's keys holds no secret, and no revoked key.
pub proof fn law_published_key_sets_are_public(keys: Seq<KeyView>, i: int, name: Seq<char>)
    requires
        published_of(keys) is Some,
        0 <= i < client_keys::usable(keys).len(),
        client_keys::is_private_param(name),
    ensures
        published_of(keys) == Some(client_keys::jwks_of(client_keys::usable(keys))),
        client_keys::public_jwk_of(client_keys::usable(keys)[i]).get(name) is None,
        client_keys::usable(keys)[i].status != KeyStatus::Revoked,
{
    let usable = client_keys::usable(keys);
    client_keys::law_published_keys_hold_no_secret(usable[i], name);
    assert(usable.contains(usable[i]));
    client_keys::law_revoked_keys_are_not_used(keys, usable[i]);
}

/// The encrypted signing key of the service, as it is stored.
pub open spec fn stored_signing_key(encoded: Option<Seq<char>>) -> Result<Seq<u8>, ErrorView> {
    match encoded {
        None => Err(ErrorView::Internal("no signing key configured"@)),
        Some(text) => match crypto::base64_padded_bytes(text) {
            Ok(bytes) => Ok(bytes),
            Err(e) => Err(ErrorView::Internal("invalid signing key encoding: "@ + e)),
        },
    }
}

/// Reads the encrypted signing key of the service.
pub fn read_stored_signing_key(encoded: Option<&str>) -> (bytes: Result<Vec<u8>, AppError>)
    ensures
        crate::error::outcome(bytes) == stored_signing_key(text::opt_str(encoded)),
{
    match encoded {
        None => Err(AppError::Internal("no signing key configured".to_owned())),
        Some(value) => match crypto::base64_padded_decode(value) {
            Ok(bytes) => Ok(bytes),
            Err(e) => Err(
                AppError::Internal(text::cat2("invalid signing key encoding: ", e.as_str())),
            ),
        },
    }
}

/// The multikey of a P-256 secret's public key: a prefix that says what it is, and
/// the compressed point.
pub open spec fn multikey_text(point: Seq<u8>) -> Seq<char> {
    crypto::multibase_of(seq![0x80u8, 0x24u8] + point)
}

/// The multikey of the service's signing key, as its DID document shows it.
/// Whoever resolves it gets the public key of the secret.
pub fn public_key_multibase(private_bytes: &[u8]) -> (result: Result<String, AppError>)
    ensures
        match result {
            Ok(multikey) => crypto::p256_compressed_of(private_bytes@) matches Some(point) && multikey@
                == multikey_text(point) && crypto::p256_public_of(private_bytes@) is Some
                && credential::multikey_of(multikey@) == Ok::<SpaceKeyView, ErrorView>(
                SpaceKeyView::P256(crypto::p256_public_of(private_bytes@)->0),
            ),
            Err(error) => crypto::p256_public_of(private_bytes@) is None && error@
                == ErrorView::Internal("invalid signing key: signature error"@),
        },
{
    let point = match crypto::p256_compressed(private_bytes) {
        Some(point) => point,
        None => {
            return Err(AppError::Internal("invalid signing key: signature error".to_owned()));
        },
    };
    let mut bytes: Vec<u8> = vec![0x80u8, 0x24u8];
    let mut rest = vstd::slice::slice_to_vec(point.as_slice());
    bytes.append(&mut rest);
    assert(bytes@ =~= seq![0x80u8, 0x24u8] + point@);
    assert(bytes@.skip(2) =~= point@);
    Ok(crypto::multibase_encode(bytes.as_slice()))
}

/// How a service identifies itself.
#[derive(Debug, Clone, Copy, PartialEq, Eq, Structural)]
pub enum IdentityMode {
    /// Under its own domain.
    DidWeb,
    /// Otherwise.
    Other,
}

/// Whether a DID document is served, and for which host.
pub open spec fn did_document_host(mode: Option<IdentityMode>, host: Option<Seq<char>>) -> Result<
    Seq<char>,
    ErrorView,
> {
    match mode {
        None => Err(ErrorView::NotFound("no service identity configured"@)),
        Some(m) => if m != IdentityMode::DidWeb {
            Err(ErrorView::NotFound("DID document only served in did:web mode"@))
        } else {
            match host {
                None => Err(ErrorView::BadRequest("missing Host header"@)),
                Some(h) => Ok(h),
            }
        },
    }
}

/// Decides whether a DID document is served, and for which host.
pub fn well_known_did_json(mode: Option<IdentityMode>, host: Option<String>) -> (result: Result<
    String,
    AppError,
>)
    ensures
        crate::error::outcome(result) == did_document_host(mode, text::opt_text(host)),
{
    match mode {
        None => Err(AppError::NotFound("no service identity configured".to_owned())),
        Some(m) => if m != IdentityMode::DidWeb {
            Err(AppError::NotFound("DID document only served in did:web mode".to_owned()))
        } else {
            match host {
                None => Err(AppError::BadRequest("missing Host header".to_owned())),
                Some(h) => Ok(h),
            }
        },
    }
}

/// Where a host serves its services.
pub fn service_endpoint(host: &str) -> (endpoint: String)
    ensures
        endpoint@ == "https://"@ + host@,
{
    text::cat2("https://", host)
}

/// What a rate limiter says of a request.
#[derive(Debug, Clone, Copy, PartialEq, Eq, Structural)]
pub enum CheckResult {
    Allowed { remaining: u32, limit: u32, reset: u64 },
    Limited { retry_after: u64, limit: u32, reset: u64 },
}

/// Refuses a request that is over its client's limit.
pub fn check_rate_limit(check: Option<CheckResult>) -> (result: Result<(), AppError>)
    ensures
        crate::error::unit_outcome(result) == (match check {
            Some(CheckResult::Limited { retry_after, limit, reset }) => Err(
                ErrorView::RateLimited { retry_after, limit, reset },
            ),
            _ => Ok(()),
        }),
{
    match check {
        Some(CheckResult::Limited { retry_after, limit, reset }) => Err(
            AppError::RateLimited { retry_after, limit, reset },
        ),
        _ => Ok(()),
    }
}

/// What an instance shows of its configuration.
#[derive(Debug)]
pub struct InstanceConfig {
    pub public_url: String,
    pub version: String,
    pub database_backend: String,
    pub jetstream_url: String,
    pub relay_url: String,
    pub plc_url: String,
    pub default_rate_limit_capacity: u32,
    /// A number, as JSON.
    pub default_rate_limit_refill_rate: Json,
    pub app_name: Option<String>,
    pub logo_url: Option<String>,
    pub spaces_enabled: bool,
    /// Problems of the configuration, as a JSON list.
    pub config_errors: Json,
}

/// A text, or null.
pub open spec fn opt_json(value: Option<String>) -> JsonView {
    match value {
        Some(t) => JsonView::Text(t@),
        None => JsonView::Null,
    }
}

fn make_opt_json(value: Option<String>) -> (json: Json)
    ensures
        json@ == opt_json(value),
{
    match value {
        Some(t) => Json::Text(t),
        None => Json::Null,
    }
}

/// The answer that shows an instance's configuration.
pub open spec fn shown_config(config: InstanceConfig) -> JsonView {
    JsonView::Object(
        seq![
            ("public_url"@, JsonView::Text(config.public_url@)),
            ("version"@, JsonView::Text(config.version@)),
            ("database_backend"@, JsonView::Text(config.database_backend@)),
            ("jetstream_url"@, JsonView::Text(config.jetstream_url@)),
            ("relay_url"@, JsonView::Text(config.relay_url@)),
            ("plc_url"@, JsonView::Text(config.plc_url@)),
            (
                "default_rate_limit_capacity"@,
                JsonView::Unsigned(config.default_rate_limit_capacity as u64),
            ),
            ("default_rate_limit_refill_rate"@, config.default_rate_limit_refill_rate@),
            ("app_name"@, opt_json(config.app_name)),
            ("logo_url"@, opt_json(config.logo_url)),
            (
                "features"@,
                JsonView::Object(seq![("spaces"@, JsonView::Bool(config.spaces_enabled))]),
            ),
            ("configErrors"@, config.config_errors@),
        ],
    )
}

/// Shows an instance's configuration.
pub fn config_endpoint(config: InstanceConfig) -> (answer: Json)
    ensures
        answer@ == shown_config(config),
{
    let ghost given = config;
    let features = Json::Object(vec![("spaces".to_owned(), Json::Bool(config.spaces_enabled))]);
    proof {
        crate::json::lemma_json_views(features);
        assert(features@->Object_0 =~= seq![("spaces"@, JsonView::Bool(config.spaces_enabled))]);
    }
    let answer = Json::Object(
        vec![
            ("public_url".to_owned(), Json::Text(config.public_url)),
            ("version".to_owned(), Json::Text(config.version)),
            ("database_backend".to_owned(), Json::Text(config.database_backend)),
            ("jetstream_url".to_owned(), Json::Text(config.jetstream_url)),
            ("relay_url".to_owned(), Json::Text(config.relay_url)),
            ("plc_url".to_owned(), Json::Text(config.plc_url)),
            (
                "default_rate_limit_capacity".to_owned(),
                Json::Unsigned(config.default_rate_limit_capacity as u64),
            ),
            ("default_rate_limit_refill_rate".to_owned(), config.default_rate_limit_refill_rate),
            ("app_name".to_owned(), make_opt_json(config.app_name)),
            ("logo_url".to_owned(), make_opt_json(config.logo_url)),
            ("features".to_owned(), features),
            ("configErrors".to_owned(), config.config_errors),
        ],
    );
    proof {
        crate::json::lemma_json_views(answer);
        assert(answer@->Object_0 =~= shown_config(given)->Object_0);
    }
    answer
}

/// The headers that tell a client of its limit.
pub fn rate_limit_headers(check: Option<CheckResult>) -> (headers: Vec<(&'static str, u64)>)
    ensures
        match check {
            Some(CheckResult::Allowed { remaining, limit, reset }) => headers@ == seq![
                ("RateLimit-Limit", limit as u64),
                ("RateLimit-Remaining", remaining as u64),
                ("RateLimit-Reset", reset),
            ],
            _ => headers@.len() == 0,
        },
{
    match check {
        Some(CheckResult::Allowed { remaining, limit, reset }) => vec![
            ("RateLimit-Limit", limit as u64),
            ("RateLimit-Remaining", remaining as u64),
            ("RateLimit-Reset", reset),
        ],
        _ => Vec::new(),
    }
}

/// Whose profile a request is for: the caller's own.
pub fn profile_caller(claims: XrpcClaims) -> (result: Result<Claims, AppError>)
    ensures
        match result {
            Ok(identity) => claims.identity == Some(identity),
            Err(error) => claims.identity is None && error@ == ErrorView::Auth(
                "getProfile requires DPoP authentication"@,
            ),
        },
{
    match claims.identity {
        Some(identity) => Ok(identity),
        None => Err(AppError::Auth("getProfile requires DPoP authentication".to_owned())),
    }
}

/// A grant tells the origin that it is for and that it varies with it, allows
/// credentials just to a trusted origin, and answers a preflight with the methods and
/// headers that may be used, for a day. A trusted origin may also send cookies.
pub proof fn law_what_origins_are_granted(
    origin: Seq<char>,
    trusted: bool,
    name: Seq<char>,
    value: Seq<char>,
)
    ensures
        cors_grant(origin, trusted).contains((name, value)) <==> {
            ||| name == "access-control-allow-origin"@ && value == origin
            ||| name == "vary"@ && value == "origin"@
            ||| name == "access-control-allow-credentials"@ && value == "true"@ && trusted
        },
        cors_preflight(origin, trusted).contains((name, value)) <==> {
            ||| cors_grant(origin, trusted).contains((name, value))
            ||| name == "access-control-allow-methods"@ && value == "GET, POST, DELETE, OPTIONS"@
            ||| name == "access-control-allow-headers"@ && trusted && value
                == "content-type, authorization, cookie, x-client-key, x-client-secret, dpop, atproto-accept-labelers, atproto-proxy"@
            ||| name == "access-control-allow-headers"@ && !trusted && value
                == "content-type, authorization, x-client-key, x-client-secret, dpop, atproto-accept-labelers, atproto-proxy"@
            ||| name == "access-control-max-age"@ && value == "86400"@
        },
{
    let grant = cors_grant(origin, trusted);
    assert(grant[0] == ("access-control-allow-origin"@, origin));
    assert(grant[1] == ("vary"@, "origin"@));
    if trusted {
        assert(grant[2] == ("access-control-allow-credentials"@, "true"@));
    }
    if grant.contains((name, value)) {
        let i = choose|i: int| 0 <= i < grant.len() && grant[i] == (name, value);
        assert(i == 0 || i == 1 || i == 2);
    }
    let all = cors_preflight(origin, trusted);
    let n = grant.len() as int;
    assert(all[n] == ("access-control-allow-methods"@, CORS_ALLOW_METHODS@));
    assert(all[n + 1].0 == "access-control-allow-headers"@);
    assert(all[n + 2] == ("access-control-max-age"@, "86400"@));
    if grant.contains((name, value)) {
        let i = choose|i: int| 0 <= i < grant.len() && grant[i] == (name, value);
        assert(all[i] == (name, value));
    }
    if all.contains((name, value)) {
        let i = choose|i: int| 0 <= i < all.len() && all[i] == (name, value);
        if i < n {
            assert(grant[i] == (name, value));
        } else {
            assert(i == n || i == n + 1 || i == n + 2);
        }
    }
}

/// A redirect is moved below the base just if it leads to a path of this host that
/// is neither the base nor below it.
pub proof fn law_which_redirects_are_moved(base: Seq<char>, location: Seq<char>, moved: Seq<char>)
    ensures
        rewritten_location(base, location) == Some(moved) <==> {
            &&& location.len() > 0
            &&& location[0] == '/'
            &&& location != base
            &&& !text::has_prefix(location, base + "/"@)
            &&& moved == base + location
        },
{
    reveal_strlit("/");
    if location.len() > 0 {
        assert(location.take(1) =~= seq![location[0]]);
        assert("/"@ =~= seq!['/']);
    }
    assert(location.take(location.len() as int) =~= location);
    let slashed = base + "/"@;
    let n = base.len() as int;
    if text::has_prefix(location, slashed) {
        assert(location.take(n) =~= location.take(n + 1).take(n));
        assert(slashed.take(n) =~= base);
        assert(location[n] == slashed[n]);
    }
    if is_below(location, base) {
        if location.len() == base.len() {
            assert(location.take(n) =~= location);
        } else {
            assert(location.take(n + 1) =~= slashed);
        }
    }
}

proof fn lemma_trim_both(path: Seq<char>)
    requires
        path.len() == 0 || (path[0] != '/' && path.last() != '/'),
    ensures
        text::trimmed_end(text::trimmed_start(path, '/'), '/') == path,
        text::trimmed_end(text::trimmed_start(seq!['/'] + path, '/'), '/') == path,
        text::trimmed_end(text::trimmed_start(seq!['/'] + path + seq!['/'], '/'), '/') == path,
{
    reveal_with_fuel(text::trimmed_start, 3);
    reveal_with_fuel(text::trimmed_end, 3);
    assert((seq!['/'] + path).skip(1) =~= path);
    assert((seq!['/'] + path + seq!['/']).skip(1) =~= path + seq!['/']);
    if path.len() > 0 {
        assert((path + seq!['/'])[0] == path[0]);
        assert((path + seq!['/']).drop_last() =~= path);
    } else {
        assert((path + seq!['/']).skip(1) =~= path);
    }
}

/// A page is served the shell of the folder that it is in, with the last segment of
/// the path left open, and else the shell of the whole site; slashes around the path
/// do not matter, and a path of one segment has only the latter.
pub proof fn law_pages_are_served_the_shell_of_their_folder(
    dir: Seq<char>,
    parents: Seq<Seq<char>>,
    page: Seq<char>,
)
    requires
        page.len() > 0 && !page.contains('/'),
        forall|i: int| 0 <= i < parents.len() ==> (#[trigger] parents[i]).len() > 0 && !parents[i].contains('/'),
    ensures
        ({
            let path = text::join_with(parents.push(page), '/');
            let shells = (
                if parents.len() > 0 {
                    Some(dir + "/"@ + text::join_with(parents, '/') + "/_/index.html"@)
                } else {
                    None
                },
                dir + "/index.html"@,
            );
            &&& shells_of(dir, path) == shells
            &&& shells_of(dir, seq!['/'] + path) == shells
            &&& shells_of(dir, seq!['/'] + path + seq!['/']) == shells
        }),
{
    let parts = parents.push(page);
    let path = text::join_with(parts, '/');
    assert forall|i: int| 0 <= i < parts.len() implies !(#[trigger] parts[i]).contains('/') && parts[i].len()
        > 0 by {
        if i < parents.len() {
            assert(parts[i] == parents[i]);
        }
    }
    text::lemma_split_join(parts, '/');
    lemma_join_ends(parts);
    lemma_trim_both(path);
    assert(parts.drop_last() =~= parents);
}

proof fn lemma_join_ends(parts: Seq<Seq<char>>)
    requires
        parts.len() > 0,
        forall|i: int| 0 <= i < parts.len() ==> (#[trigger] parts[i]).len() > 0 && !parts[i].contains('/'),
    ensures
        text::join_with(parts, '/').len() > 0,
        text::join_with(parts, '/')[0] != '/',
        text::join_with(parts, '/').last() != '/',
    decreases parts.len(),
{
    assert(parts[0].contains(parts[0][0]));
    assert(parts.last().contains(parts.last()[parts.last().len() - 1]));
    assert(parts.last() == parts[parts.len() - 1]);
    if parts.len() > 1 {
        let head = parts.drop_last();
        assert forall|i: int| 0 <= i < head.len() implies (#[trigger] head[i]).len() > 0 && !head[i].contains(
            '/',
        ) by {
            assert(head[i] == parts[i]);
        }
        lemma_join_ends(head);
    }
}

/// The logo is the uploaded one where there is one, and else the one that is set.
pub proof fn law_uploaded_logos_come_first(domain_url: Seq<char>, settings: ClientSettings)
    requires
        domain_url.len() == 0 || domain_url.last() != '/',
    ensures
        settings.has_logo_data ==> client_logo(domain_url, settings) == Some(domain_url + "/settings/logo"@)
            && client_logo(domain_url + seq!['/'], settings) == Some(domain_url + "/settings/logo"@),
        !settings.has_logo_data ==> client_logo(domain_url, settings) == text::opt_text(settings.logo_uri),
{
    reveal_with_fuel(text::trimmed_end, 2);
    assert((domain_url + seq!['/']).drop_last() =~= domain_url);
}

proof fn lemma_with_text(
    metadata: JsonView,
    key: Seq<char>,
    value: Option<Seq<char>>,
    other: Seq<char>,
)
    requires
        metadata is Object,
    ensures
        with_text(metadata, key, value) is Object,
        value matches Some(t) ==> with_text(metadata, key, value).get(key) == Some(JsonView::Text(t)),
        value is None ==> with_text(metadata, key, value) == metadata,
        other != key ==> with_text(metadata, key, value).get(other) == metadata.get(other),
{
    if let Some(t) = value {
        crate::json::law_set_member_sets_just_it(metadata->Object_0, key, JsonView::Text(t), other);
        crate::json::law_set_member_sets_just_it(metadata->Object_0, key, JsonView::Text(t), key);
    }
}

/// What a member of client metadata becomes where a setting may stand for it.
pub open spec fn set_or_kept(metadata: JsonView, key: Seq<char>, setting: Option<Seq<char>>) -> Option<
    JsonView,
> {
    match setting {
        Some(t) => Some(JsonView::Text(t)),
        None => metadata_object(metadata).get(key),
    }
}

/// The client's metadata is found at the address that it gives as its id. Each
/// setting stands under its name where it is set, and what the metadata said stays
/// where it is not; so does everything else.
pub proof fn law_client_metadata_takes_the_settings(
    metadata: JsonView,
    domain_url: Seq<char>,
    settings: ClientSettings,
    scope: Option<Seq<char>>,
    other: Seq<char>,
)
    requires
        metadata is Object || metadata is Null,
    ensures
        ({
            let made = client_metadata_of(metadata, domain_url, settings, scope);
            &&& made.get("client_id"@) == Some(
                JsonView::Text(text::trimmed_end(domain_url, '/') + "/oauth-client-metadata.json"@),
            )
            &&& made.get("client_name"@) == set_or_kept(
                metadata,
                "client_name"@,
                text::opt_text(settings.app_name),
            )
            &&& made.get("client_uri"@) == set_or_kept(
                metadata,
                "client_uri"@,
                text::opt_text(settings.client_uri),
            )
            &&& made.get("logo_uri"@) == set_or_kept(
                metadata,
                "logo_uri"@,
                client_logo(domain_url, settings),
            )
            &&& made.get("tos_uri"@) == set_or_kept(
                metadata,
                "tos_uri"@,
                text::opt_text(settings.tos_uri),
            )
            &&& made.get("policy_uri"@) == set_or_kept(
                metadata,
                "policy_uri"@,
                text::opt_text(settings.policy_uri),
            )
            &&& made.get("scope"@) == set_or_kept(metadata, "scope"@, scope)
            &&& other != "client_id"@ && other != "client_name"@ && other != "client_uri"@ && other
                != "logo_uri"@ && other != "tos_uri"@ && other != "policy_uri"@ && other != "scope"@
                ==> made.get(other) == metadata_object(metadata).get(other)
        }),
{
    reveal_strlit("client_id");
    reveal_strlit("client_name");
    reveal_strlit("client_uri");
    reveal_strlit("logo_uri");
    reveal_strlit("tos_uri");
    reveal_strlit("policy_uri");
    reveal_strlit("scope");
    assert("client_id"@.len() == 9);
    assert("client_name"@.len() == 11);
    assert("client_uri"@.len() == 10);
    assert("logo_uri"@.len() == 8);
    assert("tos_uri"@.len() == 7);
    assert("policy_uri"@.len() == 10);
    assert("scope"@.len() == 5);
    assert("client_uri"@[0] == 'c');
    assert("policy_uri"@[0] == 'p');
    lemma_metadata_member(metadata, domain_url, settings, scope, "client_id"@);
    lemma_metadata_member(metadata, domain_url, settings, scope, "client_name"@);
    lemma_metadata_member(metadata, domain_url, settings, scope, "client_uri"@);
    lemma_metadata_member(metadata, domain_url, settings, scope, "logo_uri"@);
    lemma_metadata_member(metadata, domain_url, settings, scope, "tos_uri"@);
    lemma_metadata_member(metadata, domain_url, settings, scope, "policy_uri"@);
    lemma_metadata_member(metadata, domain_url, settings, scope, "scope"@);
    lemma_metadata_member(metadata, domain_url, settings, scope, other);
}

proof fn lemma_metadata_member(
    metadata: JsonView,
    domain_url: Seq<char>,
    settings: ClientSettings,
    scope: Option<Seq<char>>,
    key: Seq<char>,
)
    requires
        metadata is Object || metadata is Null,
    ensures
        client_metadata_of(metadata, domain_url, settings, scope).get(key) == (if key == "client_id"@ {
            Some(JsonView::Text(text::trimmed_end(domain_url, '/') + "/oauth-client-metadata.json"@))
        } else if key == "client_name"@ {
            set_or_kept(metadata, key, text::opt_text(settings.app_name))
        } else if key == "client_uri"@ {
            set_or_kept(metadata, key, text::opt_text(settings.client_uri))
        } else if key == "logo_uri"@ {
            set_or_kept(metadata, key, client_logo(domain_url, settings))
        } else if key == "tos_uri"@ {
            set_or_kept(metadata, key, text::opt_text(settings.tos_uri))
        } else if key == "policy_uri"@ {
            set_or_kept(metadata, key, text::opt_text(settings.policy_uri))
        } else if key == "scope"@ {
            set_or_kept(metadata, key, scope)
        } else {
            metadata_object(metadata).get(key)
        }),
{
    reveal_strlit("client_id");
    reveal_strlit("client_name");
    reveal_strlit("client_uri");
    reveal_strlit("logo_uri");
    reveal_strlit("tos_uri");
    reveal_strlit("policy_uri");
    reveal_strlit("scope");
    assert("client_id"@.len() == 9);
    assert("client_name"@.len() == 11);
    assert("client_uri"@.len() == 10);
    assert("logo_uri"@.len() == 8);
    assert("tos_uri"@.len() == 7);
    assert("policy_uri"@.len() == 10);
    assert("scope"@.len() == 5);
    assert("client_uri"@[0] == 'c');
    assert("policy_uri"@[0] == 'p');
    let base = metadata_object(metadata);
    let id = JsonView::Text(text::trimmed_end(domain_url, '/') + "/oauth-client-metadata.json"@);
    crate::json::law_set_member_sets_just_it(base->Object_0, "client_id"@, id, key);
    let m1 = crate::json::with_member(base, "client_id"@, id);
    lemma_with_text(m1, "client_name"@, text::opt_text(settings.app_name), key);
    let m2 = with_text(m1, "client_name"@, text::opt_text(settings.app_name));
    lemma_with_text(m2, "client_uri"@, text::opt_text(settings.client_uri), key);
    let m3 = with_text(m2, "client_uri"@, text::opt_text(settings.client_uri));
    lemma_with_text(m3, "logo_uri"@, client_logo(domain_url, settings), key);
    let m4 = with_text(m3, "logo_uri"@, client_logo(domain_url, settings));
    lemma_with_text(m4, "tos_uri"@, text::opt_text(settings.tos_uri), key);
    let m5 = with_text(m4, "tos_uri"@, text::opt_text(settings.tos_uri));
    lemma_with_text(m5, "policy_uri"@, text::opt_text(settings.policy_uri), key);
    let m6 = with_text(m5, "policy_uri"@, text::opt_text(settings.policy_uri));
    lemma_with_text(m6, "scope"@, scope, key);
}

/// A key set is published just if there is a key that was not revoked. It replaces
/// the one that metadata names, where it names one and there is one to publish, and
/// nothing else of the metadata.
pub proof fn law_key_sets_replace_just_key_sets(
    members: Seq<(Seq<char>, JsonView)>,
    keys: Seq<KeyView>,
    other: Seq<char>,
)
    ensures
        published_of(keys) is Some <==> exists|i: int|
            0 <= i < keys.len() && (#[trigger] keys[i]).status != KeyStatus::Revoked,
        jwks_overridden(JsonView::Object(members), keys).get("jwks"@) is Some <==> JsonView::Object(members).get(
            "jwks"@,
        ) is Some,
        JsonView::Object(members).get("jwks"@) is Some && published_of(keys) is Some ==> jwks_overridden(
            JsonView::Object(members),
            keys,
        ).get("jwks"@) == published_of(keys),
        JsonView::Object(members).get("jwks"@) is None || published_of(keys) is None ==> jwks_overridden(
            JsonView::Object(members),
            keys,
        ) == JsonView::Object(members),
        other != "jwks"@ ==> jwks_overridden(JsonView::Object(members), keys).get(other) == JsonView::Object(
            members,
        ).get(other),
{
    if published_of(keys) is Some {
        let key = client_keys::usable(keys)[0];
        client_keys::law_revoked_keys_are_not_used(keys, key);
        assert(client_keys::usable(keys).contains(key));
        let i = choose|i: int| 0 <= i < keys.len() && keys[i] == key;
        assert(keys[i].status != KeyStatus::Revoked);
        crate::json::law_set_member_sets_just_it(members, "jwks"@, published_of(keys)->0, other);
    }
    if exists|i: int| 0 <= i < keys.len() && (#[trigger] keys[i]).status != KeyStatus::Revoked {
        let i = choose|i: int| 0 <= i < keys.len() && (#[trigger] keys[i]).status != KeyStatus::Revoked;
        client_keys::law_revoked_keys_are_not_used(keys, keys[i]);
        assert(keys.contains(keys[i]));
        assert(client_keys::usable(keys).contains(keys[i]));
    }
}

/// A signing key is what its text decodes to, and a DID document is served just by
/// an instance that is its own `did:web`, for the host that was asked.
pub proof fn law_identity_is_what_is_configured(
    encoded: Option<Seq<char>>,
    mode: Option<IdentityMode>,
    host: Option<Seq<char>>,
    bytes: Seq<u8>,
    served: Seq<char>,
)
    ensures
        stored_signing_key(encoded) == Ok::<Seq<u8>, ErrorView>(bytes) <==> (encoded matches Some(t)
            && crypto::base64_padded_bytes(t) == Ok::<Seq<u8>, Seq<char>>(bytes)),
        stored_signing_key(encoded) matches Err(error) ==> error is Internal,
        did_document_host(mode, host) == Ok::<Seq<char>, ErrorView>(served) <==> mode == Some(
            IdentityMode::DidWeb,
        ) && host == Some(served),
        did_document_host(mode, host) matches Err(error) ==> (if mode == Some(IdentityMode::DidWeb) {
            error is BadRequest
        } else {
            error is NotFound
        }),
{
}

/// The instance's configuration is shown member by member under its names, what is
/// not set as null, and whether spaces are enabled among the features.
pub proof fn law_configuration_is_shown_by_name(config: InstanceConfig)
    ensures
        shown_config(config).get("public_url"@) == Some(JsonView::Text(config.public_url@)),
        shown_config(config).get("version"@) == Some(JsonView::Text(config.version@)),
        shown_config(config).get("database_backend"@) == Some(JsonView::Text(config.database_backend@)),
        shown_config(config).get("jetstream_url"@) == Some(JsonView::Text(config.jetstream_url@)),
        shown_config(config).get("relay_url"@) == Some(JsonView::Text(config.relay_url@)),
        shown_config(config).get("plc_url"@) == Some(JsonView::Text(config.plc_url@)),
        shown_config(config).get("default_rate_limit_capacity"@) == Some(JsonView::Unsigned(config.default_rate_limit_capacity as u64)),
        shown_config(config).get("default_rate_limit_refill_rate"@) == Some(config.default_rate_limit_refill_rate@),
        shown_config(config).get("app_name"@) == Some(opt_json(config.app_name)),
        shown_config(config).get("logo_url"@) == Some(opt_json(config.logo_url)),
        shown_config(config).get("configErrors"@) == Some(config.config_errors@),
        shown_config(config).get("features"@) matches Some(features) && features.get("spaces"@) == Some(
            JsonView::Bool(config.spaces_enabled),
        ),
        config.app_name matches Some(name) ==> opt_json(config.app_name) == JsonView::Text(name@),
        config.app_name is None ==> opt_json(config.app_name) is Null,
{
    reveal_strlit("public_url");
    reveal_strlit("version");
    reveal_strlit("database_backend");
    reveal_strlit("jetstream_url");
    reveal_strlit("relay_url");
    reveal_strlit("plc_url");
    reveal_strlit("default_rate_limit_capacity");
    reveal_strlit("default_rate_limit_refill_rate");
    reveal_strlit("app_name");
    reveal_strlit("logo_url");
    reveal_strlit("features");
    reveal_strlit("configErrors");
    assert("public_url"@.len() == 10);
    assert("version"@.len() == 7);
    assert("database_backend"@.len() == 16);
    assert("jetstream_url"@.len() == 13);
    assert("relay_url"@.len() == 9);
    assert("plc_url"@.len() == 7);
    assert("default_rate_limit_capacity"@.len() == 27);
    assert("default_rate_limit_refill_rate"@.len() == 30);
    assert("app_name"@.len() == 8);
    assert("logo_url"@.len() == 8);
    assert("features"@.len() == 8);
    assert("configErrors"@.len() == 12);
    assert("version"@[0] == 'v');
    assert("plc_url"@[0] == 'p');
    assert("app_name"@[0] == 'a');
    assert("logo_url"@[0] == 'l');
    assert("features"@[0] == 'f');
    let m = shown_config(config)->Object_0;
    reveal_with_fuel(crate::json::lookup, 13);
    assert(m.drop_last() =~= m.take(11));
    assert(m.take(11).drop_last() =~= m.take(10));
    assert(m.take(10).drop_last() =~= m.take(9));
    assert(m.take(9).drop_last() =~= m.take(8));
    assert(m.take(8).drop_last() =~= m.take(7));
    assert(m.take(7).drop_last() =~= m.take(6));
    assert(m.take(6).drop_last() =~= m.take(5));
    assert(m.take(5).drop_last() =~= m.take(4));
    assert(m.take(4).drop_last() =~= m.take(3));
    assert(m.take(3).drop_last() =~= m.take(2));
    assert(m.take(2).drop_last() =~= m.take(1));
    assert(m.take(1).drop_last() =~= m.take(0));
    let f = seq![("spaces"@, JsonView::Bool(config.spaces_enabled))];
    assert(f.drop_last() =~= m.take(0));
}

} // verus!
