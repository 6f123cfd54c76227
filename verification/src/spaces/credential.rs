//! The tokens that grant access to spaces.
//!
//! A member's delegation token is exchanged at the space's authority for a
//! space credential, which any host of the space's records accepts.
use vstd::prelude::*;

use crate::crypto;
use crate::crypto::{K256SigningKey, P256SigningKey};
use crate::error::{AppError, ErrorView};
use crate::json::{Json, JsonView};
use crate::profile;
use crate::profile::DidDocument;
use crate::spaces::commit;
use crate::spaces::commit::{SpaceKeyView, SpaceVerifyingKey};
use crate::text;

verus! {

/// How long a space credential is good for: two hours.
pub const DEFAULT_CREDENTIAL_TTL_SECS: u64 = 2 * 60 * 60;

/// How long a delegation token is good for: a minute.
pub const DELEGATION_TOKEN_TTL_SECS: u64 = 60;

/// The `typ` of a delegation token.
pub const DELEGATION_TOKEN_TYP: &'static str = "atproto-space-delegation+jwt";

/// The `typ` of a space credential.
pub const SPACE_CREDENTIAL_TYP: &'static str = "atproto-space-credential+jwt";

/// What a part of a token holds.
pub enum TokenPart<T> {
    /// It is not base64.
    Undecodable,
    /// It decodes to something that is not JSON.
    NotJson,
    /// A JSON value.
    Value(T),
}

/// What a part of a token holds.
pub open spec fn part_value(part: Seq<char>) -> TokenPart<JsonView> {
    match crypto::base64url_bytes(part) {
        Some(bytes) => match crate::json::json_parsed(bytes) {
            Ok(value) => TokenPart::Value(value),
            Err(_) => TokenPart::NotJson,
        },
        None => TokenPart::Undecodable,
    }
}

/// Reads a part of a token.
pub fn read_part(part: &str) -> (value: TokenPart<Json>)
    ensures
        match value {
            TokenPart::Value(v) => part_value(part@) == TokenPart::Value(v@),
            TokenPart::NotJson => part_value(part@) == TokenPart::<JsonView>::NotJson,
            TokenPart::Undecodable => part_value(part@) == TokenPart::<JsonView>::Undecodable,
        },
{
    match crypto::base64url_decode(part) {
        Some(bytes) => match Json::from_slice(bytes.as_slice()) {
            Ok(value) => TokenPart::Value(value),
            Err(_) => TokenPart::NotJson,
        },
        None => TokenPart::Undecodable,
    }
}

/// A claim: an object's member by key, or a list's item by position, if the
/// list has as many items as there are claims.
pub open spec fn claim(value: JsonView, key: Seq<char>, at: int, count: int) -> Option<JsonView> {
    match value {
        JsonView::List(items) => if items.len() == count {
            Some(items[at])
        } else {
            None
        },
        _ => value.get(key),
    }
}

fn find_claim<'a>(value: &'a Json, key: &str, at: usize, count: usize) -> (found: Option<&'a Json>)
    requires
        at < count,
    ensures
        match found {
            Some(v) => claim(value@, key@, at as int, count as int) == Some(v@),
            None => claim(value@, key@, at as int, count as int) is None,
        },
{
    proof {
        crate::json::lemma_json_views(*value);
    }
    match value {
        Json::List(items) => if items.len() == count {
            Some(&items[at])
        } else {
            None
        },
        _ => value.get(key),
    }
}

/// A claim that is a text.
pub open spec fn text_claim(value: JsonView, key: Seq<char>, at: int, count: int) -> Option<Seq<char>> {
    match claim(value, key, at, count) {
        Some(v) => v.as_str(),
        None => None,
    }
}

/// A claim that is a number.
pub open spec fn number_claim(value: JsonView, key: Seq<char>, at: int, count: int) -> Option<u64> {
    match claim(value, key, at, count) {
        Some(v) => v.as_u64(),
        None => None,
    }
}

fn read_text_claim(value: &Json, key: &str, at: usize, count: usize) -> (found: Option<String>)
    requires
        at < count,
    ensures
        text::opt_text(found) == text_claim(value@, key@, at as int, count as int),
{
    match find_claim(value, key, at, count) {
        Some(v) => match v.as_str() {
            Some(t) => Some(t.to_owned()),
            None => None,
        },
        None => None,
    }
}

fn read_number_claim(value: &Json, key: &str, at: usize, count: usize) -> (found: Option<u64>)
    requires
        at < count,
    ensures
        found == number_claim(value@, key@, at as int, count as int),
{
    match find_claim(value, key, at, count) {
        Some(v) => v.as_u64(),
        None => None,
    }
}

/// What a delegation token claims.
#[derive(Debug)]
pub struct DelegationTokenClaims {
    /// The user's DID.
    pub iss: String,
    /// The space's URI.
    pub sub: String,
    /// The space host, as a DID with a service fragment.
    pub aud: String,
    pub iat: u64,
    pub exp: u64,
    /// A random nonce.
    pub jti: String,
}

/// What [`DelegationTokenClaims`] hold.
#[verifier::ext_equal]
pub struct DelegationView {
    pub iss: Seq<char>,
    pub sub: Seq<char>,
    pub aud: Seq<char>,
    pub iat: u64,
    pub exp: u64,
    pub jti: Seq<char>,
}

impl View for DelegationTokenClaims {
    type V = DelegationView;

    open spec fn view(&self) -> DelegationView {
        DelegationView {
            iss: self.iss@,
            sub: self.sub@,
            aud: self.aud@,
            iat: self.iat,
            exp: self.exp,
            jti: self.jti@,
        }
    }
}

/// What a space credential claims.
#[derive(Debug)]
pub struct SpaceCredentialClaims {
    /// The space authority's DID.
    pub iss: String,
    /// The space's URI.
    pub sub: String,
    pub iat: u64,
    pub exp: u64,
    /// A random nonce.
    pub jti: String,
}

/// What [`SpaceCredentialClaims`] hold.
#[verifier::ext_equal]
pub struct CredentialView {
    pub iss: Seq<char>,
    pub sub: Seq<char>,
    pub iat: u64,
    pub exp: u64,
    pub jti: Seq<char>,
}

impl View for SpaceCredentialClaims {
    type V = CredentialView;

    open spec fn view(&self) -> CredentialView {
        CredentialView {
            iss: self.iss@,
            sub: self.sub@,
            iat: self.iat,
            exp: self.exp,
            jti: self.jti@,
        }
    }
}

/// The delegation claims that a JSON value makes, if it makes all of them.
pub open spec fn delegation_of_json(value: JsonView) -> Option<DelegationView> {
    match (
        text_claim(value, "iss"@, 0, 6),
        text_claim(value, "sub"@, 1, 6),
        text_claim(value, "aud"@, 2, 6),
        number_claim(value, "iat"@, 3, 6),
        number_claim(value, "exp"@, 4, 6),
        text_claim(value, "jti"@, 5, 6),
    ) {
        (Some(iss), Some(sub), Some(aud), Some(iat), Some(exp), Some(jti)) => Some(
            DelegationView { iss, sub, aud, iat, exp, jti },
        ),
        _ => None,
    }
}

/// The credential claims that a JSON value makes, if it makes all of them.
pub open spec fn credential_of_json(value: JsonView) -> Option<CredentialView> {
    match (
        text_claim(value, "iss"@, 0, 5),
        text_claim(value, "sub"@, 1, 5),
        number_claim(value, "iat"@, 2, 5),
        number_claim(value, "exp"@, 3, 5),
        text_claim(value, "jti"@, 4, 5),
    ) {
        (Some(iss), Some(sub), Some(iat), Some(exp), Some(jti)) => Some(
            CredentialView { iss, sub, iat, exp, jti },
        ),
        _ => None,
    }
}

/// The JSON object that makes delegation claims.
pub open spec fn json_of_delegation(claims: DelegationView) -> JsonView {
    JsonView::Object(
        seq![
            ("iss"@, JsonView::Text(claims.iss)),
            ("sub"@, JsonView::Text(claims.sub)),
            ("aud"@, JsonView::Text(claims.aud)),
            ("iat"@, JsonView::Unsigned(claims.iat)),
            ("exp"@, JsonView::Unsigned(claims.exp)),
            ("jti"@, JsonView::Text(claims.jti)),
        ],
    )
}

/// The JSON object that makes credential claims.
pub open spec fn json_of_credential(claims: CredentialView) -> JsonView {
    JsonView::Object(
        seq![
            ("iss"@, JsonView::Text(claims.iss)),
            ("sub"@, JsonView::Text(claims.sub)),
            ("iat"@, JsonView::Unsigned(claims.iat)),
            ("exp"@, JsonView::Unsigned(claims.exp)),
            ("jti"@, JsonView::Text(claims.jti)),
        ],
    )
}

proof fn lemma_claim_keys()
    ensures
        "iss"@ != "sub"@,
        "iss"@ != "aud"@,
        "iss"@ != "iat"@,
        "iss"@ != "exp"@,
        "iss"@ != "jti"@,
        "sub"@ != "aud"@,
        "sub"@ != "iat"@,
        "sub"@ != "exp"@,
        "sub"@ != "jti"@,
        "aud"@ != "iat"@,
        "aud"@ != "exp"@,
        "aud"@ != "jti"@,
        "iat"@ != "exp"@,
        "iat"@ != "jti"@,
        "exp"@ != "jti"@,
{
    reveal_strlit("iss");
    reveal_strlit("sub");
    reveal_strlit("aud");
    reveal_strlit("iat");
    reveal_strlit("exp");
    reveal_strlit("jti");
    assert("iss"@[1] == 's' && "iat"@[1] == 'a');
    assert("iss"@[0] == 'i' && "sub"@[0] == 's' && "aud"@[0] == 'a' && "exp"@[0] == 'e' && "jti"@[0] == 'j');
    assert("iat"@[0] == 'i');
}

/// Reading delegation claims that were written gives the claims.
pub proof fn law_delegation_json_round_trip(claims: DelegationView)
    ensures
        delegation_of_json(json_of_delegation(claims)) == Some(claims),
        crate::json::is_flat(json_of_delegation(claims)),
{
    lemma_claim_keys();
    reveal_strlit("iss");
    let all = json_of_delegation(claims)->Object_0;
    assert(all[0].0[0] == 'i');
    crate::json::lemma_lookup_at(all, 0);
    crate::json::lemma_lookup_at(all, 1);
    crate::json::lemma_lookup_at(all, 2);
    crate::json::lemma_lookup_at(all, 3);
    crate::json::lemma_lookup_at(all, 4);
    crate::json::lemma_lookup_at(all, 5);
}

/// Reading credential claims that were written gives the claims.
pub proof fn law_credential_json_round_trip(claims: CredentialView)
    ensures
        credential_of_json(json_of_credential(claims)) == Some(claims),
        crate::json::is_flat(json_of_credential(claims)),
{
    lemma_claim_keys();
    reveal_strlit("iss");
    let all = json_of_credential(claims)->Object_0;
    assert(all[0].0[0] == 'i');
    crate::json::lemma_lookup_at(all, 0);
    crate::json::lemma_lookup_at(all, 1);
    crate::json::lemma_lookup_at(all, 2);
    crate::json::lemma_lookup_at(all, 3);
    crate::json::lemma_lookup_at(all, 4);
}

impl DelegationTokenClaims {
    /// Reads delegation claims. A member that JSON repeats counts as it was last
    /// given.
    pub fn from_json(value: &Json) -> (claims: Option<DelegationTokenClaims>)
        ensures
            match claims {
                Some(c) => delegation_of_json(value@) == Some(c@),
                None => delegation_of_json(value@) is None,
            },
    {
        match (
            read_text_claim(value, "iss", 0, 6),
            read_text_claim(value, "sub", 1, 6),
            read_text_claim(value, "aud", 2, 6),
            read_number_claim(value, "iat", 3, 6),
            read_number_claim(value, "exp", 4, 6),
            read_text_claim(value, "jti", 5, 6),
        ) {
            (Some(iss), Some(sub), Some(aud), Some(iat), Some(exp), Some(jti)) => Some(
                DelegationTokenClaims { iss, sub, aud, iat, exp, jti },
            ),
            _ => None,
        }
    }

    /// Writes delegation claims.
    pub fn to_json(&self) -> (value: Json)
        ensures
            value@ == json_of_delegation(self@),
    {
        let value = Json::Object(
            vec![
                ("iss".to_owned(), Json::Text(self.iss.clone())),
                ("sub".to_owned(), Json::Text(self.sub.clone())),
                ("aud".to_owned(), Json::Text(self.aud.clone())),
                ("iat".to_owned(), Json::Unsigned(self.iat)),
                ("exp".to_owned(), Json::Unsigned(self.exp)),
                ("jti".to_owned(), Json::Text(self.jti.clone())),
            ],
        );
        proof {
            crate::json::lemma_json_views(value);
            assert(value@->Object_0 =~= json_of_delegation(self@)->Object_0);
        }
        value
    }
}

impl SpaceCredentialClaims {
    /// Reads credential claims. A member that JSON repeats counts as it was last
    /// given.
    pub fn from_json(value: &Json) -> (claims: Option<SpaceCredentialClaims>)
        ensures
            match claims {
                Some(c) => credential_of_json(value@) == Some(c@),
                None => credential_of_json(value@) is None,
            },
    {
        match (
            read_text_claim(value, "iss", 0, 5),
            read_text_claim(value, "sub", 1, 5),
            read_number_claim(value, "iat", 2, 5),
            read_number_claim(value, "exp", 3, 5),
            read_text_claim(value, "jti", 4, 5),
        ) {
            (Some(iss), Some(sub), Some(iat), Some(exp), Some(jti)) => Some(
                SpaceCredentialClaims { iss, sub, iat, exp, jti },
            ),
            _ => None,
        }
    }

    /// Writes credential claims.
    pub fn to_json(&self) -> (value: Json)
        ensures
            value@ == json_of_credential(self@),
    {
        let value = Json::Object(
            vec![
                ("iss".to_owned(), Json::Text(self.iss.clone())),
                ("sub".to_owned(), Json::Text(self.sub.clone())),
                ("iat".to_owned(), Json::Unsigned(self.iat)),
                ("exp".to_owned(), Json::Unsigned(self.exp)),
                ("jti".to_owned(), Json::Text(self.jti.clone())),
            ],
        );
        proof {
            crate::json::lemma_json_views(value);
            assert(value@->Object_0 =~= json_of_credential(self@)->Object_0);
        }
        value
    }
}

/// The `typ` that a token's header gives, unverified.
pub open spec fn token_typ(token: Seq<char>) -> Option<Seq<char>> {
    match part_value(text::split_on(token, '.')[0]) {
        TokenPart::Value(header) => header.get_str("typ"@),
        _ => None,
    }
}

/// The payload of a token of three parts, unverified.
pub open spec fn token_payload(token: Seq<char>) -> Option<JsonView> {
    let parts = text::split_on(token, '.');
    if parts.len() == 3 {
        match part_value(parts[1]) {
            TokenPart::Value(payload) => Some(payload),
            _ => None,
        }
    } else {
        None
    }
}

/// The space that a delegation token is about, unverified.
pub open spec fn delegation_sub(token: Seq<char>) -> Option<Seq<char>> {
    match token_payload(token) {
        Some(payload) => match delegation_of_json(payload) {
            Some(claims) => Some(claims.sub),
            None => None,
        },
        None => None,
    }
}

/// The space that a credential is about, unverified.
pub open spec fn credential_sub(token: Seq<char>) -> Option<Seq<char>> {
    match token_payload(token) {
        Some(payload) => match credential_of_json(payload) {
            Some(claims) => Some(claims.sub),
            None => None,
        },
        None => None,
    }
}

/// Peeks at the `typ` of a token's header without verifying the signature.
pub fn peek_jwt_typ(token: &str) -> (typ: Option<String>)
    ensures
        text::opt_text(typ) == token_typ(token@),
{
    let parts = text::split(token, '.');
    assert(text::texts(parts@)[0] == parts@[0]@);
    match read_part(parts[0].as_str()) {
        TokenPart::Value(header) => match header.get_str("typ") {
            Some(typ) => Some(typ.to_owned()),
            None => None,
        },
        _ => None,
    }
}

fn read_payload(token: &str) -> (payload: Option<Json>)
    ensures
        match payload {
            Some(p) => token_payload(token@) == Some(p@),
            None => token_payload(token@) is None,
        },
{
    let parts = text::split(token, '.');
    assert(text::texts(parts@).len() == parts@.len());
    if parts.len() != 3 {
        return None;
    }
    assert(text::texts(parts@)[1] == parts@[1]@);
    match read_part(parts[1].as_str()) {
        TokenPart::Value(payload) => Some(payload),
        _ => None,
    }
}

/// Peeks at the space that a delegation token is about without verifying.
pub fn peek_delegation_sub(token: &str) -> (sub: Option<String>)
    ensures
        text::opt_text(sub) == delegation_sub(token@),
{
    match read_payload(token) {
        Some(payload) => match DelegationTokenClaims::from_json(&payload) {
            Some(claims) => Some(claims.sub),
            None => None,
        },
        None => None,
    }
}

/// Peeks at the space that a credential is about without verifying.
pub fn peek_credential_sub(token: &str) -> (sub: Option<String>)
    ensures
        text::opt_text(sub) == credential_sub(token@),
{
    match read_payload(token) {
        Some(payload) => match SpaceCredentialClaims::from_json(&payload) {
            Some(claims) => Some(claims.sub),
            None => None,
        },
        None => None,
    }
}

/// A token's header.
pub open spec fn header_json(alg: Seq<char>, typ: Seq<char>, kid: Seq<char>) -> JsonView {
    JsonView::Object(
        seq![("alg"@, JsonView::Text(alg)), ("typ"@, JsonView::Text(typ)), ("kid"@, JsonView::Text(kid))],
    )
}

/// What a token's signature is over.
pub open spec fn signed_text(header: JsonView, payload: JsonView) -> Seq<char> {
    crypto::base64url_of(crate::json::json_rendered(header)) + "."@ + crypto::base64url_of(
        crate::json::json_rendered(payload),
    )
}

/// A token: header, payload and signature.
pub open spec fn token_text(header: JsonView, payload: JsonView, sig: Seq<u8>) -> Seq<char> {
    signed_text(header, payload) + "."@ + crypto::base64url_of(sig)
}

proof fn lemma_header(alg: Seq<char>, typ: Seq<char>, kid: Seq<char>)
    ensures
        crate::json::is_flat(header_json(alg, typ, kid)),
        header_json(alg, typ, kid).get_str("alg"@) == Some(alg),
        header_json(alg, typ, kid).get_str("typ"@) == Some(typ),
        header_json(alg, typ, kid).get_str("kid"@) == Some(kid),
{
    reveal_strlit("alg");
    reveal_strlit("typ");
    reveal_strlit("kid");
    assert("alg"@[0] == 'a' && "typ"@[0] == 't' && "kid"@[0] == 'k');
    let all = header_json(alg, typ, kid)->Object_0;
    crate::json::lemma_lookup_at(all, 0);
    crate::json::lemma_lookup_at(all, 1);
    crate::json::lemma_lookup_at(all, 2);
}

/// Writes a token's header.
fn make_header(alg: &str, typ: &str, kid: &str) -> (header: Json)
    ensures
        header@ == header_json(alg@, typ@, kid@),
{
    let header = Json::Object(
        vec![
            ("alg".to_owned(), Json::Text(alg.to_owned())),
            ("typ".to_owned(), Json::Text(typ.to_owned())),
            ("kid".to_owned(), Json::Text(kid.to_owned())),
        ],
    );
    proof {
        crate::json::lemma_json_views(header);
        assert(header@->Object_0 =~= header_json(alg@, typ@, kid@)->Object_0);
    }
    header
}

/// Encodes a flat object as a part of a token.
fn encode_part(value: &Json) -> (part: String)
    requires
        crate::json::is_flat(value@),
    ensures
        part@ == crypto::base64url_of(crate::json::json_rendered(value@)),
        part_value(part@) == TokenPart::Value(value@),
        !part@.contains('.'),
{
    let bytes = value.to_vec();
    crypto::base64url_encode(bytes.as_slice())
}

/// A token has the three parts that it was made of.
proof fn lemma_three_parts(a: Seq<char>, b: Seq<char>, c: Seq<char>)
    requires
        !a.contains('.'),
        !b.contains('.'),
        !c.contains('.'),
    ensures
        text::split_on(a + "."@ + b + "."@ + c, '.') == seq![a, b, c],
{
    let parts = seq![a, b, c];
    reveal_strlit(".");
    assert("."@ =~= seq!['.']);
    reveal_with_fuel(text::join_with, 4);
    assert(parts.drop_last() =~= seq![a, b]);
    assert(parts.drop_last().drop_last() =~= seq![a]);
    assert(text::join_with(parts, '.') =~= a + "."@ + b + "."@ + c);
    text::lemma_split_join(parts, '.');
}

/// The texts of a list of borrowed strings.
pub open spec fn str_views(list: Seq<&str>) -> Seq<Seq<char>> {
    list.map_values(|s: &str| s@)
}

/// The delegation token that a secret makes of claims.
pub open spec fn delegation_token(claims: DelegationView, secret: Seq<u8>) -> Seq<char> {
    let header = header_json("ES256K"@, DELEGATION_TOKEN_TYP@, "#atproto"@);
    let payload = json_of_delegation(claims);
    token_text(
        header,
        payload,
        crypto::k256_signature_of(secret, commit::utf8(signed_text(header, payload))),
    )
}

/// Signs a delegation token. It verifies under the signing key's public key
/// until it expires, for the audience that it names.
pub fn sign_delegation_token(claims: &DelegationTokenClaims, signing_key: &K256SigningKey) -> (token:
    Result<String, AppError>)
    ensures
        token matches Ok(t) && t@ == delegation_token(claims@, signing_key@) && crypto::k256_public_of(
            signing_key@,
        ) is Some && token_typ(t@) == Some(DELEGATION_TOKEN_TYP@) && delegation_sub(t@) == Some(
            claims@.sub,
        ) && (forall|accepted: Seq<Seq<char>>, now: u64| #[trigger]
            delegation_verdict(t@, crypto::k256_public_of(signing_key@)->0, accepted, now)
                == admitted_delegation(claims@, accepted, now)),
{
    let header = make_header("ES256K", DELEGATION_TOKEN_TYP, "#atproto");
    let payload = claims.to_json();
    proof {
        lemma_header("ES256K"@, DELEGATION_TOKEN_TYP@, "#atproto"@);
        law_delegation_json_round_trip(claims@);
    }
    let header_b64 = encode_part(&header);
    let payload_b64 = encode_part(&payload);
    let message = text::cat3(header_b64.as_str(), ".", payload_b64.as_str());
    let signature = signing_key.sign(message.as_str().as_bytes());
    let sig_b64 = crypto::base64url_encode(signature.as_slice());
    let token = text::cat3(message.as_str(), ".", sig_b64.as_str());
    proof {
        lemma_three_parts(header_b64@, payload_b64@, sig_b64@);
    }
    Ok(token)
}

/// What becomes of delegation claims whose signature verified: they last until
/// they expire, so that an expiry of 0 never lasts, and are for their audience.
pub open spec fn admitted_delegation(
    claims: DelegationView,
    accepted_aud: Seq<Seq<char>>,
    now: u64,
) -> Result<DelegationView, ErrorView> {
    if now >= claims.exp {
        Err(ErrorView::Auth("delegation token has expired"@))
    } else if !accepted_aud.contains(claims.aud) {
        Err(ErrorView::Auth("delegation token audience does not match this host"@))
    } else {
        Ok(claims)
    }
}

/// What becomes of a delegation token at a given time.
pub open spec fn delegation_verdict(
    token: Seq<char>,
    verifying_key: Seq<u8>,
    accepted_aud: Seq<Seq<char>>,
    now: u64,
) -> Result<DelegationView, ErrorView> {
    let parts = text::split_on(token, '.');
    if parts.len() != 3 {
        Err(ErrorView::Auth("invalid delegation token format"@))
    } else {
        match part_value(parts[0]) {
            TokenPart::Undecodable => Err(
                ErrorView::Auth("invalid delegation token header encoding"@),
            ),
            TokenPart::NotJson => Err(ErrorView::Auth("invalid delegation token header"@)),
            TokenPart::Value(header) => if header.get_str("alg"@) != Some("ES256K"@) {
                Err(ErrorView::Auth("delegation token alg must be ES256K"@))
            } else if header.get_str("typ"@) != Some(DELEGATION_TOKEN_TYP@) {
                Err(ErrorView::Auth("delegation token typ must be "@ + DELEGATION_TOKEN_TYP@))
            } else {
                match crypto::base64url_bytes(parts[2]) {
                    None => Err(ErrorView::Auth("invalid delegation token signature encoding"@)),
                    Some(sig) => if !commit::k256_accepts_either(
                        verifying_key,
                        commit::utf8(parts[0] + "."@ + parts[1]),
                        sig,
                    ) {
                        Err(ErrorView::Auth("delegation token signature verification failed"@))
                    } else {
                        match part_value(parts[1]) {
                            TokenPart::Undecodable => Err(
                                ErrorView::Auth("invalid delegation token payload encoding"@),
                            ),
                            TokenPart::NotJson => Err(
                                ErrorView::Auth("invalid delegation token payload"@),
                            ),
                            TokenPart::Value(payload) => match delegation_of_json(payload) {
                                None => Err(ErrorView::Auth("invalid delegation token payload"@)),
                                Some(claims) => admitted_delegation(claims, accepted_aud, now),
                            },
                        }
                    },
                }
            },
        }
    }
}

fn str_list_contains(list: &[&str], item: &str) -> (found: bool)
    ensures
        found == str_views(list@).contains(item@),
{
    for i in 0..list.len()
        invariant
            forall|j: int| 0 <= j < i ==> (#[trigger] list@[j])@ != item@,
    {
        if text::same_text(list[i], item) {
            assert(str_views(list@)[i as int] == item@);
            return true;
        }
    }
    assert forall|j: int| 0 <= j < str_views(list@).len() implies str_views(list@)[j] != item@ by {
        assert(str_views(list@)[j] == list@[j]@);
    }
    false
}

/// Verifies a delegation token at a given time, accepting any of
/// `accepted_aud`.
pub fn verify_delegation_token_at(
    token: &str,
    verifying_key: &[u8],
    accepted_aud: &[&str],
    now: u64,
) -> (result: Result<DelegationTokenClaims, AppError>)
    ensures
        crate::error::outcome(result) == delegation_verdict(
            token@,
            verifying_key@,
            str_views(accepted_aud@),
            now,
        ),
{
    let parts = text::split(token, '.');
    assert(text::texts(parts@).len() == parts@.len());
    assert(forall|i: int| 0 <= i < parts@.len() ==> text::texts(parts@)[i] == (#[trigger] parts@[i])@);
    if parts.len() != 3 {
        return Err(AppError::Auth("invalid delegation token format".to_owned()));
    }
    let header = match read_part(parts[0].as_str()) {
        TokenPart::Undecodable => {
            return Err(AppError::Auth("invalid delegation token header encoding".to_owned()));
        },
        TokenPart::NotJson => {
            return Err(AppError::Auth("invalid delegation token header".to_owned()));
        },
        TokenPart::Value(header) => header,
    };
    if !text::same_opt(header.get_str("alg"), Some("ES256K")) {
        return Err(AppError::Auth("delegation token alg must be ES256K".to_owned()));
    }
    if !text::same_opt(header.get_str("typ"), Some(DELEGATION_TOKEN_TYP)) {
        return Err(
            AppError::Auth(text::cat2("delegation token typ must be ", DELEGATION_TOKEN_TYP)),
        );
    }
    let message = text::cat3(parts[0].as_str(), ".", parts[1].as_str());
    let sig = match crypto::base64url_decode(parts[2].as_str()) {
        Some(sig) => sig,
        None => {
            return Err(AppError::Auth("invalid delegation token signature encoding".to_owned()));
        },
    };
    if !commit::k256_verify_either(verifying_key, message.as_str().as_bytes(), sig.as_slice()) {
        return Err(AppError::Auth("delegation token signature verification failed".to_owned()));
    }
    let claims = match read_part(parts[1].as_str()) {
        TokenPart::Undecodable => {
            return Err(AppError::Auth("invalid delegation token payload encoding".to_owned()));
        },
        TokenPart::NotJson => {
            return Err(AppError::Auth("invalid delegation token payload".to_owned()));
        },
        TokenPart::Value(payload) => match DelegationTokenClaims::from_json(&payload) {
            Some(claims) => claims,
            None => {
                return Err(AppError::Auth("invalid delegation token payload".to_owned()));
            },
        },
    };
    if now >= claims.exp {
        return Err(AppError::Auth("delegation token has expired".to_owned()));
    }
    if !str_list_contains(accepted_aud, claims.aud.as_str()) {
        return Err(
            AppError::Auth("delegation token audience does not match this host".to_owned()),
        );
    }
    Ok(claims)
}

/// Verifies a delegation token now, accepting any of `accepted_aud`.
///
/// Callers pass both `{did}#atproto_space_host` and `{did}#atproto_pds`: the
/// dedicated service entry is optional, and an authority that publishes none is
/// addressed at its PDS endpoint instead.
pub fn verify_delegation_token(token: &str, verifying_key: &[u8], accepted_aud: &[&str]) -> (result:
    Result<DelegationTokenClaims, AppError>)
    ensures
        exists|now: u64| crate::error::outcome(result) == #[trigger] delegation_verdict(
            token@,
            verifying_key@,
            str_views(accepted_aud@),
            now,
        ),
{
    let now = crate::ambient::now_secs();
    verify_delegation_token_at(token, verifying_key, accepted_aud, now)
}

/// A delegation token that is accepted has not expired, and names a host that
/// was asked for.
pub proof fn law_accepted_delegation_is_fresh_and_addressed(
    token: Seq<char>,
    verifying_key: Seq<u8>,
    accepted_aud: Seq<Seq<char>>,
    now: u64,
)
    ensures
        delegation_verdict(token, verifying_key, accepted_aud, now) matches Ok(claims) ==> now
            < claims.exp && accepted_aud.contains(claims.aud) && delegation_sub(token) == Some(
            claims.sub,
        ) && token_typ(token) == Some(DELEGATION_TOKEN_TYP@),
{
}

/// Whatever is wrong with a delegation token, the refusal is one of
/// authentication.
pub proof fn law_refused_delegations_are_unauthenticated(
    token: Seq<char>,
    verifying_key: Seq<u8>,
    accepted_aud: Seq<Seq<char>>,
    now: u64,
)
    ensures
        delegation_verdict(token, verifying_key, accepted_aud, now) matches Err(error) ==> error is Auth,
{
}

/// Claims whose signature verified are admitted just while they last, and just for
/// their audience, of which one among those accepted is enough.
pub proof fn law_delegations_end_with_their_expiry(
    claims: DelegationView,
    accepted_aud: Seq<Seq<char>>,
    now: u64,
)
    ensures
        admitted_delegation(claims, accepted_aud, now) == Ok::<DelegationView, ErrorView>(claims) <==> now
            < claims.exp && accepted_aud.contains(claims.aud),
        claims.exp == 0 ==> admitted_delegation(claims, accepted_aud, now) is Err,
{
}

/// The secret that a private JWK holds.
pub open spec fn jwk_secret(private_jwk: JsonView) -> Result<Seq<u8>, ErrorView> {
    match private_jwk.get_str("d"@) {
        None => Err(ErrorView::Internal("signing key missing d parameter"@)),
        Some(d) => match crypto::base64url_bytes(d) {
            None => Err(ErrorView::Internal("invalid signing key d parameter"@)),
            Some(secret) => if crypto::p256_public_of(secret) is Some {
                Ok(secret)
            } else {
                Err(ErrorView::Internal("invalid signing key: signature error"@))
            },
        },
    }
}

/// Reads the secret that a private JWK holds.
pub fn jwk_signing_key(private_jwk: &Json) -> (key: Result<P256SigningKey, AppError>)
    ensures
        crate::error::outcome(key) == jwk_secret(private_jwk@),
{
    let d = match private_jwk.get_str("d") {
        Some(d) => d,
        None => {
            return Err(AppError::Internal("signing key missing d parameter".to_owned()));
        },
    };
    let secret = match crypto::base64url_decode(d) {
        Some(secret) => secret,
        None => {
            return Err(AppError::Internal("invalid signing key d parameter".to_owned()));
        },
    };
    match P256SigningKey::from_slice(secret.as_slice()) {
        Some(key) => Ok(key),
        None => Err(AppError::Internal("invalid signing key: signature error".to_owned())),
    }
}

/// The credential that a secret makes of claims.
pub open spec fn credential_token(claims: CredentialView, secret: Seq<u8>) -> Seq<char> {
    let header = header_json("ES256"@, SPACE_CREDENTIAL_TYP@, "#atproto_space"@);
    let payload = json_of_credential(claims);
    token_text(
        header,
        payload,
        crypto::p256_signature_of(secret, commit::utf8(signed_text(header, payload))),
    )
}

/// Signs a space credential with a private JWK. It verifies under the public
/// key, however that is come by, until it expires.
pub fn sign_credential(claims: &SpaceCredentialClaims, private_jwk: &Json) -> (token: Result<
    String,
    AppError,
>)
    ensures
        crate::error::outcome(token) == (match jwk_secret(private_jwk@) {
            Ok(secret) => Ok(credential_token(claims@, secret)),
            Err(error) => Err(error),
        }),
        token matches Ok(t) ==> token_typ(t@) == Some(SPACE_CREDENTIAL_TYP@) && credential_sub(t@)
            == Some(claims@.sub),
        token matches Ok(t) ==> forall|now: u64| #[trigger]
            key_credential_verdict(
                t@,
                SpaceKeyView::P256(crypto::p256_public_of(jwk_secret(private_jwk@)->Ok_0)->0),
                now,
            ) == admitted_credential(claims@, now),
        token matches Ok(t) ==> forall|public_jwk: JsonView, now: u64|
            jwk_point(public_jwk) == Ok::<Seq<u8>, ErrorView>(
                crypto::p256_public_of(jwk_secret(private_jwk@)->Ok_0)->0,
            ) ==> #[trigger] credential_verdict(t@, public_jwk, now) == admitted_credential(
                claims@,
                now,
            ),
{
    let signing_key = match jwk_signing_key(private_jwk) {
        Ok(key) => key,
        Err(error) => {
            return Err(error);
        },
    };
    let header = make_header("ES256", SPACE_CREDENTIAL_TYP, "#atproto_space");
    let payload = claims.to_json();
    proof {
        lemma_header("ES256"@, SPACE_CREDENTIAL_TYP@, "#atproto_space"@);
        law_credential_json_round_trip(claims@);
    }
    let header_b64 = encode_part(&header);
    let payload_b64 = encode_part(&payload);
    let message = text::cat3(header_b64.as_str(), ".", payload_b64.as_str());
    let signature = signing_key.sign(message.as_str().as_bytes());
    let sig_b64 = crypto::base64url_encode(signature.as_slice());
    let token = text::cat3(message.as_str(), ".", sig_b64.as_str());
    proof {
        lemma_three_parts(header_b64@, payload_b64@, sig_b64@);
    }
    Ok(token)
}

/// What becomes of credential claims whose signature verified: they last until
/// they expire.
pub open spec fn admitted_credential(claims: CredentialView, now: u64) -> Result<
    CredentialView,
    ErrorView,
> {
    if now >= claims.exp {
        Err(ErrorView::Auth("credential has expired"@))
    } else {
        Ok(claims)
    }
}

/// What becomes of the payload of a credential whose signature verified.
pub open spec fn payload_verdict(part: Seq<char>, now: u64) -> Result<CredentialView, ErrorView> {
    match part_value(part) {
        TokenPart::Undecodable => Err(ErrorView::Auth("invalid credential payload encoding"@)),
        TokenPart::NotJson => Err(ErrorView::Auth("invalid credential payload"@)),
        TokenPart::Value(payload) => match credential_of_json(payload) {
            None => Err(ErrorView::Auth("invalid credential payload"@)),
            Some(claims) => admitted_credential(claims, now),
        },
    }
}

fn read_fresh_payload(part: &str, now: u64) -> (result: Result<SpaceCredentialClaims, AppError>)
    ensures
        crate::error::outcome(result) == payload_verdict(part@, now),
{
    let claims = match read_part(part) {
        TokenPart::Undecodable => {
            return Err(AppError::Auth("invalid credential payload encoding".to_owned()));
        },
        TokenPart::NotJson => {
            return Err(AppError::Auth("invalid credential payload".to_owned()));
        },
        TokenPart::Value(payload) => match SpaceCredentialClaims::from_json(&payload) {
            Some(claims) => claims,
            None => {
                return Err(AppError::Auth("invalid credential payload".to_owned()));
            },
        },
    };
    if now >= claims.exp {
        return Err(AppError::Auth("credential has expired".to_owned()));
    }
    Ok(claims)
}

/// The signature algorithm of a key's curve.
pub open spec fn key_alg(key: SpaceKeyView) -> Seq<char> {
    match key {
        SpaceKeyView::P256(_) => "ES256"@,
        SpaceKeyView::K256(_) => "ES256K"@,
    }
}

/// What becomes of a credential at a given time, under a key from a DID
/// document.
pub open spec fn key_credential_verdict(token: Seq<char>, key: SpaceKeyView, now: u64) -> Result<
    CredentialView,
    ErrorView,
> {
    let parts = text::split_on(token, '.');
    if parts.len() != 3 {
        Err(ErrorView::Auth("invalid credential format"@))
    } else {
        match part_value(parts[0]) {
            TokenPart::Undecodable => Err(ErrorView::Auth("invalid credential header encoding"@)),
            TokenPart::NotJson => Err(ErrorView::Auth("invalid credential header"@)),
            TokenPart::Value(header) => if header.get_str("alg"@) != Some(key_alg(key)) {
                Err(
                    ErrorView::Auth(
                        "credential alg must be "@ + key_alg(key)
                            + " for the issuer's signing key"@,
                    ),
                )
            } else if header.get_str("typ"@) != Some(SPACE_CREDENTIAL_TYP@) {
                Err(ErrorView::Auth("credential typ must be "@ + SPACE_CREDENTIAL_TYP@))
            } else {
                match crypto::base64url_bytes(parts[2]) {
                    None => Err(ErrorView::Auth("invalid credential signature encoding"@)),
                    Some(sig) => if !key.accepts(commit::utf8(parts[0] + "."@ + parts[1]), sig) {
                        Err(ErrorView::Auth("credential signature verification failed"@))
                    } else {
                        payload_verdict(parts[1], now)
                    },
                }
            },
        }
    }
}

/// Verifies a space credential at a given time against a key resolved from a
/// DID document.
pub fn verify_credential_with_key_at(token: &str, key: &SpaceVerifyingKey, now: u64) -> (result:
    Result<SpaceCredentialClaims, AppError>)
    ensures
        crate::error::outcome(result) == key_credential_verdict(token@, key@, now),
{
    let parts = text::split(token, '.');
    assert(text::texts(parts@).len() == parts@.len());
    assert(forall|i: int| 0 <= i < parts@.len() ==> text::texts(parts@)[i] == (#[trigger] parts@[i])@);
    if parts.len() != 3 {
        return Err(AppError::Auth("invalid credential format".to_owned()));
    }
    let header = match read_part(parts[0].as_str()) {
        TokenPart::Undecodable => {
            return Err(AppError::Auth("invalid credential header encoding".to_owned()));
        },
        TokenPart::NotJson => {
            return Err(AppError::Auth("invalid credential header".to_owned()));
        },
        TokenPart::Value(header) => header,
    };
    let expected_alg: &str = match key {
        SpaceVerifyingKey::P256(_) => "ES256",
        SpaceVerifyingKey::K256(_) => "ES256K",
    };
    if !text::same_opt(header.get_str("alg"), Some(expected_alg)) {
        return Err(
            AppError::Auth(
                text::cat3(
                    "credential alg must be ",
                    expected_alg,
                    " for the issuer's signing key",
                ),
            ),
        );
    }
    if !text::same_opt(header.get_str("typ"), Some(SPACE_CREDENTIAL_TYP)) {
        return Err(AppError::Auth(text::cat2("credential typ must be ", SPACE_CREDENTIAL_TYP)));
    }
    let message = text::cat3(parts[0].as_str(), ".", parts[1].as_str());
    let sig = match crypto::base64url_decode(parts[2].as_str()) {
        Some(sig) => sig,
        None => {
            return Err(AppError::Auth("invalid credential signature encoding".to_owned()));
        },
    };
    match key.verify(message.as_str().as_bytes(), sig.as_slice()) {
        Ok(_) => {},
        Err(_) => {
            return Err(AppError::Auth("credential signature verification failed".to_owned()));
        },
    }
    read_fresh_payload(parts[1].as_str(), now)
}

/// Verifies a space credential now against a key resolved from a DID document.
///
/// Accepts `ES256` or `ES256K` according to the curve of the key. An authority
/// on a stock PDS signs with its secp256k1 `#atproto` key, so accepting only
/// `ES256` would reject every such credential.
pub fn verify_credential_with_key(token: &str, key: &SpaceVerifyingKey) -> (result: Result<
    SpaceCredentialClaims,
    AppError,
>)
    ensures
        exists|now: u64| crate::error::outcome(result) == #[trigger] key_credential_verdict(token@, key@, now),
{
    let now = crate::ambient::now_secs();
    verify_credential_with_key_at(token, key, now)
}

/// The P-256 point that a JWK gives.
pub open spec fn jwk_point(jwk: JsonView) -> Result<Seq<u8>, ErrorView> {
    match jwk.get_str("x"@) {
        None => Err(ErrorView::Auth("JWK missing x"@)),
        Some(x_b64) => match jwk.get_str("y"@) {
            None => Err(ErrorView::Auth("JWK missing y"@)),
            Some(y_b64) => match crypto::base64url_bytes(x_b64) {
                None => Err(ErrorView::Auth("invalid JWK x"@)),
                Some(x) => match crypto::base64url_bytes(y_b64) {
                    None => Err(ErrorView::Auth("invalid JWK y"@)),
                    Some(y) => match crypto::p256_point_of(seq![4u8] + x + y) {
                        None => Err(ErrorView::Auth("invalid P-256 public key"@)),
                        Some(point) => Ok(point),
                    },
                },
            },
        },
    }
}

/// Extracts a P-256 verifying key from a JWK, as an uncompressed point.
pub fn p256_jwk_to_verifying_key(jwk: &Json) -> (point: Result<Vec<u8>, AppError>)
    ensures
        crate::error::outcome(point) == jwk_point(jwk@),
{
    let x_b64 = match jwk.get_str("x") {
        Some(x) => x,
        None => {
            return Err(AppError::Auth("JWK missing x".to_owned()));
        },
    };
    let y_b64 = match jwk.get_str("y") {
        Some(y) => y,
        None => {
            return Err(AppError::Auth("JWK missing y".to_owned()));
        },
    };
    let x = match crypto::base64url_decode(x_b64) {
        Some(x) => x,
        None => {
            return Err(AppError::Auth("invalid JWK x".to_owned()));
        },
    };
    let y = match crypto::base64url_decode(y_b64) {
        Some(y) => y,
        None => {
            return Err(AppError::Auth("invalid JWK y".to_owned()));
        },
    };
    let mut sec1: Vec<u8> = Vec::new();
    sec1.push(4);
    sec1.extend_from_slice(x.as_slice());
    sec1.extend_from_slice(y.as_slice());
    assert(sec1@ =~= seq![4u8] + x@ + y@);
    match crypto::p256_point(sec1.as_slice()) {
        Some(point) => Ok(point),
        None => Err(AppError::Auth("invalid P-256 public key".to_owned())),
    }
}

/// What becomes of a credential at a given time, under a public JWK.
pub open spec fn credential_verdict(token: Seq<char>, public_jwk: JsonView, now: u64) -> Result<
    CredentialView,
    ErrorView,
> {
    let parts = text::split_on(token, '.');
    if parts.len() != 3 {
        Err(ErrorView::Auth("invalid credential format"@))
    } else {
        match part_value(parts[0]) {
            TokenPart::Undecodable => Err(ErrorView::Auth("invalid credential header encoding"@)),
            TokenPart::NotJson => Err(ErrorView::Auth("invalid credential header"@)),
            TokenPart::Value(header) => if header.get_str("alg"@) != Some("ES256"@) {
                Err(ErrorView::Auth("credential alg must be ES256"@))
            } else if header.get_str("typ"@) != Some(SPACE_CREDENTIAL_TYP@) {
                Err(ErrorView::Auth("credential typ must be "@ + SPACE_CREDENTIAL_TYP@))
            } else {
                match jwk_point(public_jwk) {
                    Err(error) => Err(error),
                    Ok(point) => match crypto::base64url_bytes(parts[2]) {
                        None => Err(ErrorView::Auth("invalid credential signature encoding"@)),
                        Some(sig) => if !crypto::is_p256_signature(sig) {
                            Err(ErrorView::Auth("invalid credential signature format"@))
                        } else if !crypto::p256_accepts(
                            point,
                            commit::utf8(parts[0] + "."@ + parts[1]),
                            sig,
                        ) {
                            Err(ErrorView::Auth("credential signature verification failed"@))
                        } else {
                            payload_verdict(parts[1], now)
                        },
                    },
                }
            },
        }
    }
}

/// Verifies a space credential at a given time against a public JWK.
pub fn verify_credential_at(token: &str, public_jwk: &Json, now: u64) -> (result: Result<
    SpaceCredentialClaims,
    AppError,
>)
    ensures
        crate::error::outcome(result) == credential_verdict(token@, public_jwk@, now),
{
    let parts = text::split(token, '.');
    assert(text::texts(parts@).len() == parts@.len());
    assert(forall|i: int| 0 <= i < parts@.len() ==> text::texts(parts@)[i] == (#[trigger] parts@[i])@);
    if parts.len() != 3 {
        return Err(AppError::Auth("invalid credential format".to_owned()));
    }
    let header = match read_part(parts[0].as_str()) {
        TokenPart::Undecodable => {
            return Err(AppError::Auth("invalid credential header encoding".to_owned()));
        },
        TokenPart::NotJson => {
            return Err(AppError::Auth("invalid credential header".to_owned()));
        },
        TokenPart::Value(header) => header,
    };
    if !text::same_opt(header.get_str("alg"), Some("ES256")) {
        return Err(AppError::Auth("credential alg must be ES256".to_owned()));
    }
    if !text::same_opt(header.get_str("typ"), Some(SPACE_CREDENTIAL_TYP)) {
        return Err(AppError::Auth(text::cat2("credential typ must be ", SPACE_CREDENTIAL_TYP)));
    }
    let point = match p256_jwk_to_verifying_key(public_jwk) {
        Ok(point) => point,
        Err(error) => {
            return Err(error);
        },
    };
    let message = text::cat3(parts[0].as_str(), ".", parts[1].as_str());
    let sig = match crypto::base64url_decode(parts[2].as_str()) {
        Some(sig) => sig,
        None => {
            return Err(AppError::Auth("invalid credential signature encoding".to_owned()));
        },
    };
    if !crypto::p256_signature_form(sig.as_slice()) {
        return Err(AppError::Auth("invalid credential signature format".to_owned()));
    }
    if !crypto::p256_verify(point.as_slice(), message.as_str().as_bytes(), sig.as_slice()) {
        return Err(AppError::Auth("credential signature verification failed".to_owned()));
    }
    read_fresh_payload(parts[1].as_str(), now)
}

/// Verifies a space credential now against a public JWK.
pub fn verify_credential(token: &str, public_jwk: &Json) -> (result: Result<
    SpaceCredentialClaims,
    AppError,
>)
    ensures
        exists|now: u64| crate::error::outcome(result) == #[trigger] credential_verdict(
            token@,
            public_jwk@,
            now,
        ),
{
    let now = crate::ambient::now_secs();
    verify_credential_at(token, public_jwk, now)
}

/// A credential that is accepted has not expired, carries the algorithm of the
/// key's curve, and is about the space that peeking at it shows.
pub proof fn law_accepted_credential_is_fresh(token: Seq<char>, key: SpaceKeyView, now: u64)
    ensures
        key_credential_verdict(token, key, now) matches Ok(claims) ==> now < claims.exp
            && credential_sub(token) == Some(claims.sub) && token_typ(token) == Some(
            SPACE_CREDENTIAL_TYP@,
        ),
{
}

/// The verifying key of a multikey, which carries the curve in its first bytes.
pub open spec fn multikey_of(text: Seq<char>) -> Result<SpaceKeyView, ErrorView> {
    match crypto::multibase_bytes(text) {
        Err(e) => Err(ErrorView::Auth("invalid multibase encoding: "@ + e)),
        Ok(bytes) => if bytes.len() < 2 {
            Err(ErrorView::Auth("multikey is too short"@))
        } else if bytes[0] == 0x80 && bytes[1] == 0x24 {
            match crypto::p256_point_of(bytes.skip(2)) {
                Some(point) => Ok(SpaceKeyView::P256(point)),
                None => Err(ErrorView::Auth("invalid P-256 public key bytes"@)),
            }
        } else if bytes[0] == 0xe7 && bytes[1] == 0x01 {
            match crypto::k256_point_of(bytes.skip(2)) {
                Some(point) => Ok(SpaceKeyView::K256(point)),
                None => Err(ErrorView::Auth("invalid secp256k1 public key bytes"@)),
            }
        } else {
            Err(
                ErrorView::Auth("public key is neither a P-256 nor a secp256k1 multicodec key"@),
            )
        },
    }
}

/// Decodes a `publicKeyMultibase` into a verifying key, accepting both curves
/// that accounts use.
///
/// Multicodec prefixes: P-256 is `0x1200` (varint `80 24`), secp256k1 is `0xe7`
/// (varint `e7 01`).
pub fn multikey_to_space_key(public_key_multibase: &str) -> (key: Result<SpaceVerifyingKey, AppError>)
    ensures
        crate::error::outcome(key) == multikey_of(public_key_multibase@),
{
    let bytes = match crypto::multibase_decode(public_key_multibase) {
        Ok(bytes) => bytes,
        Err(e) => {
            return Err(AppError::Auth(text::cat2("invalid multibase encoding: ", e.as_str())));
        },
    };
    if bytes.len() < 2 {
        return Err(AppError::Auth("multikey is too short".to_owned()));
    }
    let rest = vstd::slice::slice_subrange(bytes.as_slice(), 2, bytes.len());
    assert(rest@ =~= bytes@.skip(2));
    if bytes[0] == 0x80 && bytes[1] == 0x24 {
        match crypto::p256_point(rest) {
            Some(point) => Ok(SpaceVerifyingKey::P256(point)),
            None => Err(AppError::Auth("invalid P-256 public key bytes".to_owned())),
        }
    } else if bytes[0] == 0xe7 && bytes[1] == 0x01 {
        match crypto::k256_point(rest) {
            Some(point) => Ok(SpaceVerifyingKey::K256(point)),
            None => Err(AppError::Auth("invalid secp256k1 public key bytes".to_owned())),
        }
    } else {
        Err(
            AppError::Auth(
                "public key is neither a P-256 nor a secp256k1 multicodec key".to_owned(),
            ),
        )
    }
}

/// The key that a space authority's credentials verify against.
pub open spec fn space_key_of(methods: Seq<profile::VerificationMethod>) -> Result<
    SpaceKeyView,
    ErrorView,
> {
    match profile::method_index(methods, "#atproto_space"@) {
        Some(i) => match methods[i].public_key_multibase {
            Some(key) => multikey_of(key@),
            None => Err(
                ErrorView::Auth(
                    "#atproto_space verification method missing publicKeyMultibase"@,
                ),
            ),
        },
        None => match profile::method_index(methods, "#atproto"@) {
            Some(i) => match methods[i].public_key_multibase {
                Some(key) => multikey_of(key@),
                None => Err(
                    ErrorView::Auth("#atproto verification method missing publicKeyMultibase"@),
                ),
            },
            None => Err(
                ErrorView::Auth(
                    "issuer DID has neither an #atproto_space nor an #atproto verification method"@,
                ),
            ),
        },
    }
}

/// Resolves the key that a space authority's credentials verify against.
///
/// `#atproto_space` is optional: when it is absent the space signing key is the
/// account's `#atproto` key, which is the case for every authority hosted on a
/// stock PDS. A dedicated entry that is present but malformed is an error, not a
/// reason to fall back, so a misconfigured authority is never verified against
/// a key it did not nominate.
pub fn resolve_space_key(did_doc: &DidDocument) -> (key: Result<SpaceVerifyingKey, AppError>)
    ensures
        crate::error::outcome(key) == space_key_of(did_doc.verification_method@),
{
    match profile::find_method(&did_doc.verification_method, "#atproto_space") {
        Some(method) => {
            return match &method.public_key_multibase {
                Some(key) => multikey_to_space_key(key.as_str()),
                None => Err(
                    AppError::Auth(
                        "#atproto_space verification method missing publicKeyMultibase".to_owned(),
                    ),
                ),
            };
        },
        None => {},
    }
    match profile::find_method(&did_doc.verification_method, "#atproto") {
        Some(method) => match &method.public_key_multibase {
            Some(key) => multikey_to_space_key(key.as_str()),
            None => Err(
                AppError::Auth(
                    "#atproto verification method missing publicKeyMultibase".to_owned(),
                ),
            ),
        },
        None => Err(
            AppError::Auth(
                "issuer DID has neither an #atproto_space nor an #atproto verification method".to_owned(),
            ),
        ),
    }
}

/// An id with the one fragment does not have the other.
pub proof fn law_key_fragments_are_disjoint(id: Seq<char>)
    ensures
        !(text::has_suffix(id, "#atproto"@) && text::has_suffix(id, "#atproto_space"@)),
{
    reveal_strlit("#atproto");
    reveal_strlit("#atproto_space");
    if text::has_suffix(id, "#atproto"@) && text::has_suffix(id, "#atproto_space"@) {
        assert(id.skip(id.len() - 8)[7] == id.last());
        assert(id.skip(id.len() - 14)[13] == id.last());
        assert("#atproto"@[7] == 'o');
        assert("#atproto_space"@[13] == 'e');
    }
}

/// A dedicated entry decides alone: where it is present, no other key is ever
/// used, not even when it is malformed.
pub proof fn law_dedicated_key_is_not_bypassed(methods: Seq<profile::VerificationMethod>)
    ensures
        profile::method_index(methods, "#atproto_space"@) matches Some(i) ==> match space_key_of(
            methods,
        ) {
            Ok(key) => methods[i].public_key_multibase is Some && multikey_of(
                methods[i].public_key_multibase->0@,
            ) == Ok::<SpaceKeyView, ErrorView>(key),
            Err(_) => methods[i].public_key_multibase is None || multikey_of(
                methods[i].public_key_multibase->0@,
            ) is Err,
        },
{
}

/// The JWK of a P-256 multikey.
pub open spec fn multikey_jwk(text: Seq<char>) -> Result<JsonView, ErrorView> {
    match crypto::multibase_bytes(text) {
        Err(e) => Err(ErrorView::Auth("invalid multibase encoding: "@ + e)),
        Ok(bytes) => if bytes.len() < 2 || bytes[0] != 0x80 || bytes[1] != 0x24 {
            Err(ErrorView::Auth("public key is not a P-256 multicodec key"@))
        } else {
            match crypto::p256_point_of(bytes.skip(2)) {
                Some(point) => Ok(point_jwk(point)),
                None => Err(ErrorView::Auth("invalid P-256 public key bytes"@)),
            }
        },
    }
}

/// The public JWK of an uncompressed P-256 point.
pub open spec fn point_jwk(point: Seq<u8>) -> JsonView {
    JsonView::Object(
        seq![
            ("kty"@, JsonView::Text("EC"@)),
            ("crv"@, JsonView::Text("P-256"@)),
            ("x"@, JsonView::Text(crypto::base64url_of(point.subrange(1, 33)))),
            ("y"@, JsonView::Text(crypto::base64url_of(point.subrange(33, 65)))),
        ],
    )
}

/// Writes the public JWK of an uncompressed P-256 point. If it is one, reading
/// the JWK gives the point back.
pub fn make_point_jwk(point: &[u8]) -> (jwk: Json)
    requires
        point@.len() == 65,
    ensures
        jwk@ == point_jwk(point@),
        point@[0] == 4 && crypto::p256_point_of(point@) == Some(point@) ==> jwk_point(jwk@) == Ok::<
            Seq<u8>,
            ErrorView,
        >(point@),
{
    let x = crypto::base64url_encode(vstd::slice::slice_subrange(point, 1, 33));
    let y = crypto::base64url_encode(vstd::slice::slice_subrange(point, 33, 65));
    let jwk = Json::Object(
        vec![
            ("kty".to_owned(), Json::Text("EC".to_owned())),
            ("crv".to_owned(), Json::Text("P-256".to_owned())),
            ("x".to_owned(), Json::Text(x)),
            ("y".to_owned(), Json::Text(y)),
        ],
    );
    proof {
        crate::json::lemma_json_views(jwk);
        let all = jwk@->Object_0;
        assert(all =~= point_jwk(point@)->Object_0);
        reveal_strlit("kty");
        reveal_strlit("crv");
        reveal_strlit("x");
        reveal_strlit("y");
        assert("kty"@[0] == 'k' && "crv"@[0] == 'c' && "x"@[0] == 'x' && "y"@[0] == 'y');
        crate::json::lemma_lookup_at(all, 2);
        crate::json::lemma_lookup_at(all, 3);
        if point@[0] == 4 {
            assert(seq![4u8] + point@.subrange(1, 33) + point@.subrange(33, 65) =~= point@);
        }
    }
    jwk
}

/// Converts a multibase-encoded P-256 public key into a JWK suitable for
/// `verify_credential`.
pub fn multikey_to_p256_jwk(public_key_multibase: &str) -> (jwk: Result<Json, AppError>)
    ensures
        crate::error::outcome(jwk) == multikey_jwk(public_key_multibase@),
{
    let bytes = match crypto::multibase_decode(public_key_multibase) {
        Ok(bytes) => bytes,
        Err(e) => {
            return Err(AppError::Auth(text::cat2("invalid multibase encoding: ", e.as_str())));
        },
    };
    if bytes.len() < 2 || bytes[0] != 0x80 || bytes[1] != 0x24 {
        return Err(AppError::Auth("public key is not a P-256 multicodec key".to_owned()));
    }
    let rest = vstd::slice::slice_subrange(bytes.as_slice(), 2, bytes.len());
    assert(rest@ =~= bytes@.skip(2));
    match crypto::p256_point(rest) {
        Some(point) => Ok(make_point_jwk(point.as_slice())),
        None => Err(AppError::Auth("invalid P-256 public key bytes".to_owned())),
    }
}

/// Who issued a credential, unverified.
pub open spec fn credential_issuer_of(token: Seq<char>) -> Result<Seq<char>, ErrorView> {
    let parts = text::split_on(token, '.');
    if parts.len() != 3 {
        Err(ErrorView::Auth("invalid credential format"@))
    } else {
        match part_value(parts[1]) {
            TokenPart::Undecodable => Err(ErrorView::Auth("invalid credential payload encoding"@)),
            TokenPart::NotJson => Err(ErrorView::Auth("invalid credential payload"@)),
            TokenPart::Value(payload) => match credential_of_json(payload) {
                Some(claims) => Ok(claims.iss),
                None => Err(ErrorView::Auth("invalid credential payload"@)),
            },
        }
    }
}

/// Who issued a credential, unverified: the DID whose document holds the key
/// that the credential must verify under.
pub fn credential_issuer(token: &str) -> (issuer: Result<String, AppError>)
    ensures
        crate::error::outcome(issuer) == credential_issuer_of(token@),
{
    let parts = text::split(token, '.');
    assert(text::texts(parts@).len() == parts@.len());
    if parts.len() != 3 {
        return Err(AppError::Auth("invalid credential format".to_owned()));
    }
    assert(text::texts(parts@)[1] == parts@[1]@);
    match read_part(parts[1].as_str()) {
        TokenPart::Undecodable => Err(
            AppError::Auth("invalid credential payload encoding".to_owned()),
        ),
        TokenPart::NotJson => Err(AppError::Auth("invalid credential payload".to_owned())),
        TokenPart::Value(payload) => match SpaceCredentialClaims::from_json(&payload) {
            Some(claims) => Ok(claims.iss),
            None => Err(AppError::Auth("invalid credential payload".to_owned())),
        },
    }
}

/// What becomes of an external credential at a given time, under its issuer's
/// DID document.
pub open spec fn external_verdict(
    token: Seq<char>,
    methods: Seq<profile::VerificationMethod>,
    now: u64,
) -> Result<CredentialView, ErrorView> {
    match space_key_of(methods) {
        Ok(key) => key_credential_verdict(token, key, now),
        Err(error) => Err(error),
    }
}

/// Verifies a space credential issued by an external space host at a given
/// time, against its issuer's DID document.
pub fn verify_external_credential_at(token: &str, issuer_doc: &DidDocument, now: u64) -> (result:
    Result<SpaceCredentialClaims, AppError>)
    ensures
        crate::error::outcome(result) == external_verdict(
            token@,
            issuer_doc.verification_method@,
            now,
        ),
{
    match resolve_space_key(issuer_doc) {
        Ok(key) => verify_credential_with_key_at(token, &key, now),
        Err(error) => Err(error),
    }
}

/// Verifies a space credential issued by an external space host now, against
/// the DID document of [`credential_issuer`].
pub fn verify_external_credential(token: &str, issuer_doc: &DidDocument) -> (result: Result<
    SpaceCredentialClaims,
    AppError,
>)
    ensures
        exists|now: u64| crate::error::outcome(result) == #[trigger] external_verdict(
            token@,
            issuer_doc.verification_method@,
            now,
        ),
{
    let now = crate::ambient::now_secs();
    verify_external_credential_at(token, issuer_doc, now)
}

/// A random nonce for a token: a UUID.
pub fn make_jti() -> (jti: String)
    ensures
        crate::ambient::is_uuid_v4(jti@),
{
    crate::ambient::random_uuid()
}

/// Delegation claims are read out of an object by their names, each under its own,
/// and just if it has all of them; and they are written under the same names.
pub proof fn law_delegation_claims_go_by_name(
    members: Seq<(Seq<char>, JsonView)>,
    claims: DelegationView,
)
    ensures
        ({
            let value = JsonView::Object(members);
            delegation_of_json(value) == Some(claims) <==> {
                &&& value.get_str("iss"@) == Some(claims.iss)
                &&& value.get_str("sub"@) == Some(claims.sub)
                &&& value.get_str("aud"@) == Some(claims.aud)
                &&& value.get_u64("iat"@) == Some(claims.iat)
                &&& value.get_u64("exp"@) == Some(claims.exp)
                &&& value.get_str("jti"@) == Some(claims.jti)
            }
        }),
        json_of_delegation(claims).get_str("iss"@) == Some(claims.iss),
        json_of_delegation(claims).get_str("sub"@) == Some(claims.sub),
        json_of_delegation(claims).get_str("aud"@) == Some(claims.aud),
        json_of_delegation(claims).get_u64("iat"@) == Some(claims.iat),
        json_of_delegation(claims).get_u64("exp"@) == Some(claims.exp),
        json_of_delegation(claims).get_str("jti"@) == Some(claims.jti),
{
    law_delegation_json_round_trip(claims);
}

/// Credential claims are read out of an object by their names, each under its own,
/// and just if it has all of them; and they are written under the same names.
pub proof fn law_credential_claims_go_by_name(
    members: Seq<(Seq<char>, JsonView)>,
    claims: CredentialView,
)
    ensures
        ({
            let value = JsonView::Object(members);
            credential_of_json(value) == Some(claims) <==> {
                &&& value.get_str("iss"@) == Some(claims.iss)
                &&& value.get_str("sub"@) == Some(claims.sub)
                &&& value.get_u64("iat"@) == Some(claims.iat)
                &&& value.get_u64("exp"@) == Some(claims.exp)
                &&& value.get_str("jti"@) == Some(claims.jti)
            }
        }),
        json_of_credential(claims).get_str("iss"@) == Some(claims.iss),
        json_of_credential(claims).get_str("sub"@) == Some(claims.sub),
        json_of_credential(claims).get_u64("iat"@) == Some(claims.iat),
        json_of_credential(claims).get_u64("exp"@) == Some(claims.exp),
        json_of_credential(claims).get_str("jti"@) == Some(claims.jti),
{
    law_credential_json_round_trip(claims);
}

/// Claims may also stand in a list, in their order, if it has no other items.
pub proof fn law_claims_may_stand_in_a_list(items: Seq<JsonView>, delegation: DelegationView, credential: CredentialView)
    ensures
        delegation_of_json(JsonView::List(items)) == Some(delegation) <==> items == seq![
            JsonView::Text(delegation.iss),
            JsonView::Text(delegation.sub),
            JsonView::Text(delegation.aud),
            JsonView::Unsigned(delegation.iat),
            JsonView::Unsigned(delegation.exp),
            JsonView::Text(delegation.jti),
        ],
        credential_of_json(JsonView::List(items)) == Some(credential) <==> items == seq![
            JsonView::Text(credential.iss),
            JsonView::Text(credential.sub),
            JsonView::Unsigned(credential.iat),
            JsonView::Unsigned(credential.exp),
            JsonView::Text(credential.jti),
        ],
{
    if delegation_of_json(JsonView::List(items)) == Some(delegation) {
        assert(items =~= seq![
            JsonView::Text(delegation.iss),
            JsonView::Text(delegation.sub),
            JsonView::Text(delegation.aud),
            JsonView::Unsigned(delegation.iat),
            JsonView::Unsigned(delegation.exp),
            JsonView::Text(delegation.jti),
        ]);
    }
    if credential_of_json(JsonView::List(items)) == Some(credential) {
        assert(items =~= seq![
            JsonView::Text(credential.iss),
            JsonView::Text(credential.sub),
            JsonView::Unsigned(credential.iat),
            JsonView::Unsigned(credential.exp),
            JsonView::Text(credential.jti),
        ]);
    }
}

/// A token's header says by which algorithm and key it is signed, and what kind of
/// token it is, each under its own name.
pub proof fn law_headers_go_by_name(alg: Seq<char>, typ: Seq<char>, kid: Seq<char>)
    ensures
        header_json(alg, typ, kid).get_str("alg"@) == Some(alg),
        header_json(alg, typ, kid).get_str("typ"@) == Some(typ),
        header_json(alg, typ, kid).get_str("kid"@) == Some(kid),
{
    lemma_header(alg, typ, kid);
}

/// A delegation token is a header that names the account's secp256k1 key and the
/// kind of token, the claims, and the secret's signature of both as they are
/// written.
pub proof fn law_what_a_delegation_token_is(claims: DelegationView, secret: Seq<u8>)
    ensures
        exists|header: JsonView|
            {
                let head = crypto::base64url_of(#[trigger] crate::json::json_rendered(header));
                let body = crypto::base64url_of(
                    crate::json::json_rendered(json_of_delegation(claims)),
                );
                let message = head + "."@ + body;
                &&& header.get_str("alg"@) == Some("ES256K"@)
                &&& header.get_str("typ"@) == Some("atproto-space-delegation+jwt"@)
                &&& header.get_str("kid"@) == Some("#atproto"@)
                &&& delegation_token(claims, secret) == message + "."@ + crypto::base64url_of(
                    crypto::k256_signature_of(secret, vstd::utf8::encode_utf8(message)),
                )
            },
{
    lemma_header("ES256K"@, DELEGATION_TOKEN_TYP@, "#atproto"@);
    let header = header_json("ES256K"@, DELEGATION_TOKEN_TYP@, "#atproto"@);
    let head = crypto::base64url_of(crate::json::json_rendered(header));
    assert(header.get_str("alg"@) == Some("ES256K"@));
}

/// A credential is a header that names the space's P-256 key and the kind of token,
/// the claims, and the secret's signature of both as they are written.
pub proof fn law_what_a_credential_is(claims: CredentialView, secret: Seq<u8>)
    ensures
        exists|header: JsonView|
            {
                let head = crypto::base64url_of(#[trigger] crate::json::json_rendered(header));
                let body = crypto::base64url_of(
                    crate::json::json_rendered(json_of_credential(claims)),
                );
                let message = head + "."@ + body;
                &&& header.get_str("alg"@) == Some("ES256"@)
                &&& header.get_str("typ"@) == Some("atproto-space-credential+jwt"@)
                &&& header.get_str("kid"@) == Some("#atproto_space"@)
                &&& credential_token(claims, secret) == message + "."@ + crypto::base64url_of(
                    crypto::p256_signature_of(secret, vstd::utf8::encode_utf8(message)),
                )
            },
{
    lemma_header("ES256"@, SPACE_CREDENTIAL_TYP@, "#atproto_space"@);
    let header = header_json("ES256"@, SPACE_CREDENTIAL_TYP@, "#atproto_space"@);
    let head = crypto::base64url_of(crate::json::json_rendered(header));
    assert(header.get_str("alg"@) == Some("ES256"@));
}

/// What a part of a token holds is the JSON that its base64 decodes to.
pub proof fn law_what_a_part_holds(part: Seq<char>, value: JsonView)
    ensures
        part_value(part) == TokenPart::Value(value) <==> (crypto::base64url_bytes(part) matches Some(bytes)
            && crate::json::json_parsed(bytes) == crate::json::json_ok(value)),
        part_value(part) == TokenPart::<JsonView>::Undecodable <==> crypto::base64url_bytes(part) is None,
{
}

/// A token shows, unverified, the kind that its header gives and the payload that
/// stands second of its three parts.
pub proof fn law_what_a_token_shows(token: Seq<char>, header: JsonView, payload: JsonView)
    ensures
        ({
            let parts = text::split_on(token, '.');
            &&& (part_value(parts[0]) == TokenPart::Value(header) ==> token_typ(token) == header.get_str(
                "typ"@,
            ))
            &&& (token_payload(token) == Some(payload) <==> parts.len() == 3 && part_value(parts[1])
                == TokenPart::Value(payload))
            &&& (token_payload(token) == Some(payload) ==> delegation_sub(token) == (
            match delegation_of_json(payload) {
                Some(claims) => Some(claims.sub),
                None => None,
            }) && credential_sub(token) == (match credential_of_json(payload) {
                Some(claims) => Some(claims.sub),
                None => None,
            }) && (credential_of_json(payload) matches Some(claims) ==> credential_issuer_of(token)
                == Ok::<Seq<char>, ErrorView>(claims.iss)))
            &&& (token_payload(token) is None ==> credential_issuer_of(token) is Err)
            &&& (credential_issuer_of(token) matches Err(error) ==> error is Auth)
        }),
{
}

/// A delegation token is accepted just if it has three parts, its header names the
/// algorithm and the kind, the signature is the key's over the first two parts as
/// they stand, and its claims have not expired and are for an accepted audience.
pub proof fn law_when_delegations_are_accepted(
    token: Seq<char>,
    verifying_key: Seq<u8>,
    accepted_aud: Seq<Seq<char>>,
    now: u64,
    claims: DelegationView,
)
    ensures
        delegation_verdict(token, verifying_key, accepted_aud, now) == Ok::<DelegationView, ErrorView>(
            claims,
        ) <==> {
            let parts = text::split_on(token, '.');
            &&& parts.len() == 3
            &&& part_value(parts[0]) matches TokenPart::Value(header) && header.get_str("alg"@) == Some(
                "ES256K"@,
            ) && header.get_str("typ"@) == Some("atproto-space-delegation+jwt"@)
            &&& crypto::base64url_bytes(parts[2]) matches Some(sig) && commit::k256_accepts_either(
                verifying_key,
                vstd::utf8::encode_utf8(parts[0] + "."@ + parts[1]),
                sig,
            )
            &&& part_value(parts[1]) matches TokenPart::Value(payload) && delegation_of_json(payload)
                == Some(claims)
            &&& now < claims.exp
            &&& accepted_aud.contains(claims.aud)
        },
{
}

/// A credential is accepted under a key just if it has three parts, its header
/// names the algorithm of the key's curve and the kind, the signature is the key's
/// over the first two parts as they stand, and its claims have not expired.
pub proof fn law_when_credentials_are_accepted(
    token: Seq<char>,
    key: SpaceKeyView,
    now: u64,
    claims: CredentialView,
)
    ensures
        key_credential_verdict(token, key, now) == Ok::<CredentialView, ErrorView>(claims) <==> {
            let parts = text::split_on(token, '.');
            let alg = if key is P256 {
                "ES256"@
            } else {
                "ES256K"@
            };
            &&& parts.len() == 3
            &&& part_value(parts[0]) matches TokenPart::Value(header) && header.get_str("alg"@) == Some(
                alg,
            ) && header.get_str("typ"@) == Some("atproto-space-credential+jwt"@)
            &&& crypto::base64url_bytes(parts[2]) matches Some(sig) && key.accepts(
                vstd::utf8::encode_utf8(parts[0] + "."@ + parts[1]),
                sig,
            )
            &&& part_value(parts[1]) matches TokenPart::Value(payload) && credential_of_json(payload)
                == Some(claims)
            &&& now < claims.exp
        },
        key_credential_verdict(token, key, now) matches Err(error) ==> error is Auth,
{
}

/// A credential is accepted under a JWK just if it is under the key that the JWK
/// is, and its signature has the form of one.
pub proof fn law_credentials_under_a_jwk(
    token: Seq<char>,
    public_jwk: JsonView,
    point: Seq<u8>,
    now: u64,
    claims: CredentialView,
)
    ensures
        jwk_point(public_jwk) == Ok::<Seq<u8>, ErrorView>(point) ==> (credential_verdict(
            token,
            public_jwk,
            now,
        ) == Ok::<CredentialView, ErrorView>(claims) <==> key_credential_verdict(
            token,
            SpaceKeyView::P256(point),
            now,
        ) == Ok::<CredentialView, ErrorView>(claims) && crypto::is_p256_signature(
            crypto::base64url_bytes(text::split_on(token, '.')[2])->0,
        )),
        jwk_point(public_jwk) is Err ==> credential_verdict(token, public_jwk, now) is Err,
        credential_verdict(token, public_jwk, now) matches Err(error) ==> error is Auth,
{
}

/// A credential from elsewhere is accepted just if it is under the key that its
/// issuer publishes for spaces.
pub proof fn law_external_credentials_need_the_published_key(
    token: Seq<char>,
    methods: Seq<profile::VerificationMethod>,
    now: u64,
    key: SpaceKeyView,
)
    ensures
        space_key_of(methods) == Ok::<SpaceKeyView, ErrorView>(key) ==> external_verdict(
            token,
            methods,
            now,
        ) == key_credential_verdict(token, key, now),
        space_key_of(methods) is Err ==> external_verdict(token, methods, now) is Err,
{
}

/// The secret of a private JWK is what its `d` decodes to, if that is one.
pub proof fn law_the_secret_of_a_jwk(private_jwk: JsonView, secret: Seq<u8>)
    ensures
        jwk_secret(private_jwk) == Ok::<Seq<u8>, ErrorView>(secret) <==> (private_jwk.get_str("d"@)
            matches Some(d) && crypto::base64url_bytes(d) == Some(secret) && crypto::p256_public_of(secret)
            is Some),
        jwk_secret(private_jwk) matches Err(error) ==> error is Internal,
{
}

/// The point of a public JWK is the one with the coordinates that its `x` and `y`
/// decode to.
pub proof fn law_the_point_of_a_jwk(jwk: JsonView, point: Seq<u8>)
    ensures
        jwk_point(jwk) == Ok::<Seq<u8>, ErrorView>(point) <==> {
            &&& jwk.get_str("x"@) matches Some(x)
            &&& jwk.get_str("y"@) matches Some(y)
            &&& crypto::base64url_bytes(x) matches Some(a)
            &&& crypto::base64url_bytes(y) matches Some(b)
            &&& crypto::p256_point_of(seq![4u8] + a + b) == Some(point)
        },
        jwk_point(jwk) matches Err(error) ==> error is Auth,
{
}

/// A multikey is of the curve that its first two bytes stand for, and of the point
/// that the rest is; of any other curve none is read.
pub proof fn law_multikeys_carry_their_curve(key: Seq<char>, bytes: Seq<u8>, point: Seq<u8>)
    requires
        crypto::multibase_bytes(key) matches Ok(decoded) && decoded == bytes,
    ensures
        multikey_of(key) == Ok::<SpaceKeyView, ErrorView>(SpaceKeyView::P256(point)) <==> bytes.len() >= 2
            && bytes[0] == 0x80 && bytes[1] == 0x24 && crypto::p256_point_of(bytes.skip(2)) == Some(point),
        multikey_of(key) == Ok::<SpaceKeyView, ErrorView>(SpaceKeyView::K256(point)) <==> bytes.len() >= 2
            && bytes[0] == 0xe7 && bytes[1] == 0x01 && crypto::k256_point_of(bytes.skip(2)) == Some(point),
        multikey_of(key) matches Err(error) ==> error is Auth,
        multikey_jwk(key) == Ok::<JsonView, ErrorView>(point_jwk(point)) <== multikey_of(key) == Ok::<
            SpaceKeyView,
            ErrorView,
        >(SpaceKeyView::P256(point)),
        multikey_jwk(key) is Ok <==> multikey_of(key) matches Ok(SpaceKeyView::P256(_)),
{
}

/// The public JWK of a point is of its curve and gives its coordinates.
pub proof fn law_the_jwk_of_a_point(point: Seq<u8>)
    ensures
        point_jwk(point).get_str("kty"@) == Some("EC"@),
        point_jwk(point).get_str("crv"@) == Some("P-256"@),
        point_jwk(point).get_str("x"@) == Some(crypto::base64url_of(point.subrange(1, 33))),
        point_jwk(point).get_str("y"@) == Some(crypto::base64url_of(point.subrange(33, 65))),
        point_jwk(point).get("d"@) is None,
{
    reveal_strlit("kty");
    reveal_strlit("crv");
    reveal_strlit("x");
    reveal_strlit("y");
    reveal_strlit("d");
    assert("kty"@.len() == 3 && "crv"@.len() == 3 && "x"@.len() == 1 && "y"@.len() == 1 && "d"@.len() == 1);
    assert("kty"@[0] == 'k' && "crv"@[0] == 'c' && "x"@[0] == 'x' && "y"@[0] == 'y' && "d"@[0] == 'd');
    let members = point_jwk(point)->Object_0;
    crate::json::lemma_lookup_at(members, 0);
    crate::json::lemma_lookup_at(members, 1);
    crate::json::lemma_lookup_at(members, 2);
    crate::json::lemma_lookup_at(members, 3);
    crate::json::lemma_lookup_absent(members, "d"@);
    assert(members[0].0 == "kty"@ && members[1].0 == "crv"@ && members[2].0 == "x"@ && members[3].0 == "y"@);
}

/// Without a dedicated entry the account's key is the space's, and without either
/// there is none.
pub proof fn law_the_account_key_stands_in(methods: Seq<profile::VerificationMethod>)
    requires
        forall|i: int|
            0 <= i < methods.len() ==> !text::has_suffix((#[trigger] methods[i]).id@, "#atproto_space"@),
    ensures
        match profile::method_index(methods, "#atproto"@) {
            Some(i) => match methods[i].public_key_multibase {
                Some(key) => space_key_of(methods) == multikey_of(key@),
                None => space_key_of(methods) is Err,
            },
            None => space_key_of(methods) is Err,
        },
        space_key_of(methods) matches Err(error) ==> error is Auth,
{
    profile::law_the_first_key_with_a_fragment_is_found(methods, "#atproto_space"@);
}

} // verus!
