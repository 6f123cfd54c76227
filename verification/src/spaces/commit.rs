//! Signed commits over a repo in a space.
//!
//! A commit signs a context of its space, author, revision and a random key,
//! and binds the repo's hash to that context with a tag. The signature leaves
//! the hash out, which keeps a leaked commit deniable: it proves that the
//! author signed a context, not what they wrote.
use vstd::prelude::*;

use crate::crypto;
use crate::crypto::P256SigningKey;
use crate::error::{AppError, ErrorView};
use crate::json::{Json, JsonView};
use crate::text;

verus! {

/// A commit over a repo.
#[derive(Debug)]
pub struct SignedCommit {
    pub ver: u32,
    pub hash: [u8; 32],
    pub ikm: [u8; 32],
    /// The signature of the context by the repo's signing key.
    pub sig: Vec<u8>,
    pub mac: [u8; 32],
    pub rev: String,
}

/// What a [`SignedCommit`] holds.
#[verifier::ext_equal]
pub struct CommitView {
    pub ver: u32,
    pub hash: Seq<u8>,
    pub ikm: Seq<u8>,
    pub sig: Seq<u8>,
    pub mac: Seq<u8>,
    pub rev: Seq<char>,
}

impl View for SignedCommit {
    type V = CommitView;

    open spec fn view(&self) -> CommitView {
        CommitView {
            ver: self.ver,
            hash: self.hash@,
            ikm: self.ikm@,
            sig: self.sig@,
            mac: self.mac@,
            rev: self.rev@,
        }
    }
}

/// What a lexicon `bytes` field holds.
///
/// The lexicon types these as `bytes`, which JSON renders as
/// `{"$bytes": "<standard base64>"}`. Padding is accepted and not required.
pub open spec fn lex_bytes(value: JsonView, field: Seq<char>) -> Result<Seq<u8>, ErrorView> {
    match value.get(field) {
        Some(inner) => match inner.get_str("$bytes"@) {
            Some(raw) => match crypto::base64_bytes(text::trimmed_end(raw, '=')) {
                Ok(bytes) => Ok(bytes),
                Err(e) => Err(
                    ErrorView::Internal("commit "@ + field + " is not base64: "@ + e),
                ),
            },
            None => Err(not_lex_bytes(field)),
        },
        None => Err(not_lex_bytes(field)),
    }
}

/// The failure for a field that holds no lexicon bytes.
pub open spec fn not_lex_bytes(field: Seq<char>) -> ErrorView {
    ErrorView::Internal("commit "@ + field + " is not a lexicon bytes value"@)
}

/// Decodes a lexicon `bytes` field of a signed commit.
pub fn decode_lex_bytes(value: &Json, field: &str) -> (bytes: Result<Vec<u8>, AppError>)
    ensures
        crate::error::outcome(bytes) == lex_bytes(value@, field@),
{
    let raw: Option<&str> = match value.get(field) {
        Some(inner) => inner.get_str("$bytes"),
        None => None,
    };
    match raw {
        Some(raw) => match crypto::base64_decode(text::trim_end_matches(raw, '=')) {
            Ok(bytes) => Ok(bytes),
            Err(e) => Err(
                AppError::Internal(text::cat4("commit ", field, " is not base64: ", e.as_str())),
            ),
        },
        None => Err(
            AppError::Internal(text::cat3("commit ", field, " is not a lexicon bytes value")),
        ),
    }
}

/// The lexicon `bytes` value of bytes.
pub open spec fn lex_value(bytes: Seq<u8>) -> JsonView {
    JsonView::Object(seq![("$bytes"@, JsonView::Text(crypto::base64_of(bytes)))])
}

/// Renders bytes as a lexicon `bytes` value, unpadded. Decoding a field with
/// the value gives the bytes back.
pub fn encode_lex_bytes(bytes: &[u8]) -> (value: Json)
    ensures
        value@ == lex_value(bytes@),
        forall|json: JsonView, field: Seq<char>| #[trigger]
            json.get(field) == Some(value@) ==> lex_bytes(json, field) == Ok::<Seq<u8>, ErrorView>(
                bytes@,
            ),
{
    let encoded = crypto::base64_encode(bytes);
    let members: Vec<(String, Json)> = vec![("$bytes".to_owned(), Json::Text(encoded))];
    let value = Json::Object(members);
    proof {
        crate::json::lemma_json_views(value);
        assert(value@->Object_0 =~= lex_value(bytes@)->Object_0);
        let one = value@->Object_0;
        assert(one.drop_last() =~= Seq::empty());
        reveal_with_fuel(crate::json::lookup, 2);
        assert(value@.get_str("$bytes"@) == Some(encoded@));
        assert(encoded@.len() > 0 ==> encoded@.contains(encoded@.last()));
        assert(text::trimmed_end(encoded@, '=') == encoded@);
    }
    value
}

/// A signing key resolved from a DID document, by its point.
///
/// Accounts sign with secp256k1 or NIST P-256, so a repo host must verify both.
/// The key of this service is P-256.
#[derive(Debug)]
pub enum SpaceVerifyingKey {
    P256(Vec<u8>),
    K256(Vec<u8>),
}

/// What a [`SpaceVerifyingKey`] is.
#[verifier::ext_equal]
pub enum SpaceKeyView {
    P256(Seq<u8>),
    K256(Seq<u8>),
}

impl View for SpaceVerifyingKey {
    type V = SpaceKeyView;

    open spec fn view(&self) -> SpaceKeyView {
        match self {
            SpaceVerifyingKey::P256(point) => SpaceKeyView::P256(point@),
            SpaceVerifyingKey::K256(point) => SpaceKeyView::K256(point@),
        }
    }
}

/// Whether a secp256k1 signature verifies in either of its two forms. Signers
/// are to use the one with the low `S`, and not every signer does.
pub open spec fn k256_accepts_either(point: Seq<u8>, message: Seq<u8>, sig: Seq<u8>) -> bool {
    match crypto::k256_low_s_of(sig) {
        Some(low) => crypto::k256_accepts(point, message, sig) || crypto::k256_accepts(
            point,
            message,
            low,
        ),
        None => false,
    }
}

/// Whether a secp256k1 signature verifies in either of its two forms.
pub fn k256_verify_either(point: &[u8], message: &[u8], sig: &[u8]) -> (yes: bool)
    ensures
        yes == k256_accepts_either(point@, message@, sig@),
{
    match crypto::k256_low_s(sig) {
        Some(low) => crypto::k256_verify(point, message, sig) || crypto::k256_verify(
            point,
            message,
            low.as_slice(),
        ),
        None => false,
    }
}

impl SpaceKeyView {
    /// Whether a signature of a message verifies under this key.
    pub open spec fn accepts(self, message: Seq<u8>, sig: Seq<u8>) -> bool {
        match self {
            SpaceKeyView::P256(point) => crypto::p256_accepts(point, message, sig),
            SpaceKeyView::K256(point) => k256_accepts_either(point, message, sig),
        }
    }
}

impl SpaceVerifyingKey {
    /// Verifies a signature of a message.
    pub fn verify(&self, message: &[u8], sig: &[u8]) -> (result: Result<(), AppError>)
        ensures
            crate::error::unit_outcome(result) == if self@.accepts(message@, sig@) {
                Ok::<(), ErrorView>(())
            } else {
                Err(ErrorView::Auth("commit signature verification failed"@))
            },
    {
        let ok = match self {
            SpaceVerifyingKey::P256(point) => crypto::p256_verify(point.as_slice(), message, sig),
            SpaceVerifyingKey::K256(point) => k256_verify_either(point.as_slice(), message, sig),
        };
        if ok {
            Ok(())
        } else {
            Err(AppError::Auth("commit signature verification failed".to_owned()))
        }
    }
}

/// The big-endian 16-bit prefix for a length.
pub open spec fn length_prefix(len: nat) -> Seq<u8> {
    seq![((len / 256) % 256) as u8, (len % 256) as u8]
}

/// A field of the context: its length, then its bytes.
pub open spec fn framed(bytes: Seq<u8>) -> Seq<u8> {
    length_prefix(bytes.len()) + bytes
}

/// The bytes of a text.
pub open spec fn utf8(text: Seq<char>) -> Seq<u8> {
    vstd::utf8::encode_utf8(text)
}

/// What a commit signs: a tag, then the space, the author, the revision and the
/// random key, each behind its length.
pub open spec fn context_of(
    space_uri: Seq<char>,
    author_did: Seq<char>,
    rev: Seq<char>,
    ikm: Seq<u8>,
) -> Seq<u8> {
    utf8("atproto-space-v1"@) + framed(utf8(space_uri)) + framed(utf8(author_did)) + framed(
        utf8(rev),
    ) + framed(ikm)
}

/// Appends a field behind its length.
fn push_framed(ctx: &mut Vec<u8>, bytes: &[u8])
    ensures
        final(ctx)@ == old(ctx)@ + framed(bytes@),
{
    let len = bytes.len();
    let ghost before = ctx@;
    ctx.push(((len / 256) % 256) as u8);
    ctx.push((len % 256) as u8);
    assert(ctx@ =~= before + length_prefix(bytes@.len()));
    ctx.extend_from_slice(bytes);
    assert(ctx@ =~= before + framed(bytes@));
}

/// What a commit signs.
pub fn build_context(space_uri: &str, author_did: &str, rev: &str, ikm: &[u8; 32]) -> (ctx: Vec<u8>)
    ensures
        ctx@ == context_of(space_uri@, author_did@, rev@, ikm@),
{
    let mut ctx: Vec<u8> = Vec::new();
    ctx.extend_from_slice("atproto-space-v1".as_bytes());
    assert(ctx@ =~= utf8("atproto-space-v1"@));
    push_framed(&mut ctx, space_uri.as_bytes());
    push_framed(&mut ctx, author_did.as_bytes());
    push_framed(&mut ctx, rev.as_bytes());
    push_framed(&mut ctx, ikm);
    ctx
}

/// The tag that binds a hash to a context: HMAC-SHA256 under a key expanded
/// from the random key, which is uniform already and needs no extract step.
pub open spec fn mac_of(ikm: Seq<u8>, ctx: Seq<u8>, hash: Seq<u8>) -> Seq<u8> {
    crypto::hmac_of(crypto::hkdf_expanded(ikm, ctx), hash)
}

/// Derives the tag's key from the random key and the context.
pub fn derive_mac_key(ikm: &[u8; 32], ctx: &[u8]) -> (key: Result<[u8; 32], AppError>)
    ensures
        key matches Ok(k) && k@ == crypto::hkdf_expanded(ikm@, ctx@),
{
    Ok(crypto::hkdf_expand(ikm, ctx))
}

/// The tag that binds a hash to a context.
pub fn compute_mac(ikm: &[u8; 32], ctx: &[u8], hash: &[u8; 32]) -> (mac: Result<[u8; 32], AppError>)
    ensures
        mac matches Ok(m) && m@ == mac_of(ikm@, ctx@, hash@),
{
    match derive_mac_key(ikm, ctx) {
        Ok(key) => Ok(crypto::hmac_sha256(&key, hash)),
        Err(error) => Err(error),
    }
}

/// The commit over a hash that a secret makes with a given random key.
pub open spec fn commit_of(
    hash: Seq<u8>,
    space_uri: Seq<char>,
    author_did: Seq<char>,
    rev: Seq<char>,
    secret: Seq<u8>,
    ikm: Seq<u8>,
) -> CommitView {
    let ctx = context_of(space_uri, author_did, rev, ikm);
    CommitView {
        ver: 1,
        hash,
        ikm,
        sig: crypto::p256_signature_of(secret, ctx),
        mac: mac_of(ikm, ctx, hash),
        rev,
    }
}

/// Signs a commit over a hash with a given random key. The commit verifies
/// under the signing key's public key.
pub fn sign_commit_with(
    hash: &[u8; 32],
    space_uri: &str,
    author_did: &str,
    rev: &str,
    signing_key: &P256SigningKey,
    ikm: [u8; 32],
) -> (commit: Result<SignedCommit, AppError>)
    ensures
        commit matches Ok(c) && c@ == commit_of(
            hash@,
            space_uri@,
            author_did@,
            rev@,
            signing_key@,
            ikm@,
        ) && crypto::p256_public_of(signing_key@) is Some && commit_verdict(
            c@,
            space_uri@,
            author_did@,
            SpaceKeyView::P256(crypto::p256_public_of(signing_key@)->0),
        ) == Ok::<(), ErrorView>(()),
{
    let ctx = build_context(space_uri, author_did, rev, &ikm);
    let mac = match compute_mac(&ikm, ctx.as_slice(), hash) {
        Ok(mac) => mac,
        Err(error) => return Err(error),
    };
    let sig = signing_key.sign(ctx.as_slice());
    Ok(SignedCommit { ver: 1, hash: *hash, ikm, sig, mac, rev: rev.to_owned() })
}

/// Signs a commit over a hash, with a fresh random key. Whatever the key, the
/// commit verifies under the signing key's public key.
pub fn sign_commit(
    hash: &[u8; 32],
    space_uri: &str,
    author_did: &str,
    rev: &str,
    signing_key: &P256SigningKey,
) -> (commit: Result<SignedCommit, AppError>)
    ensures
        commit matches Ok(c) && c@ == commit_of(
            hash@,
            space_uri@,
            author_did@,
            rev@,
            signing_key@,
            c.ikm@,
        ) && crypto::p256_public_of(signing_key@) is Some && commit_verdict(
            c@,
            space_uri@,
            author_did@,
            SpaceKeyView::P256(crypto::p256_public_of(signing_key@)->0),
        ) == Ok::<(), ErrorView>(()),
{
    let ikm = crate::ambient::random_32();
    sign_commit_with(hash, space_uri, author_did, rev, signing_key, ikm)
}

/// Whether a commit is authentic and then, and only then, whether it is intact.
///
/// The signature establishes who produced the context. The tag only means
/// something after that, because it is keyed from the public random key: anyone
/// holding the commit can compute a valid tag for any hash.
pub open spec fn commit_verdict(
    commit: CommitView,
    space_uri: Seq<char>,
    author_did: Seq<char>,
    key: SpaceKeyView,
) -> Result<(), ErrorView> {
    let ctx = context_of(space_uri, author_did, commit.rev, commit.ikm);
    if commit.ver != 1 {
        Err(
            ErrorView::BadRequest(
                "unsupported commit version: "@ + text::decimal_of(commit.ver as nat),
            ),
        )
    } else if !key.accepts(ctx, commit.sig) {
        Err(ErrorView::Auth("commit signature verification failed"@))
    } else if mac_of(commit.ikm, ctx, commit.hash) != commit.mac {
        Err(ErrorView::Auth("commit MAC verification failed — repo hash mismatch"@))
    } else {
        Ok(())
    }
}

/// Verifies a commit's authenticity, then its integrity.
pub fn verify_commit(
    commit: &SignedCommit,
    space_uri: &str,
    author_did: &str,
    key: &SpaceVerifyingKey,
) -> (result: Result<(), AppError>)
    ensures
        crate::error::unit_outcome(result) == commit_verdict(commit@, space_uri@, author_did@, key@),
{
    if commit.ver != 1 {
        let version = text::decimal(commit.ver as u64);
        return Err(
            AppError::BadRequest(text::cat2("unsupported commit version: ", version.as_str())),
        );
    }
    let ctx = build_context(space_uri, author_did, commit.rev.as_str(), &commit.ikm);
    match key.verify(ctx.as_slice(), commit.sig.as_slice()) {
        Ok(_) => {},
        Err(error) => return Err(error),
    }
    let expected = match compute_mac(&commit.ikm, ctx.as_slice(), &commit.hash) {
        Ok(mac) => mac,
        Err(error) => return Err(error),
    };
    if !crypto::ct_eq(&expected, &commit.mac) {
        return Err(
            AppError::Auth("commit MAC verification failed — repo hash mismatch".to_owned()),
        );
    }
    Ok(())
}

proof fn lemma_framed_cut(a: Seq<u8>, b: Seq<u8>, x: Seq<u8>, y: Seq<u8>)
    requires
        a.len() < 65536,
        b.len() < 65536,
        framed(a) + x == framed(b) + y,
    ensures
        a == b,
        x == y,
{
    let left = framed(a) + x;
    let right = framed(b) + y;
    assert(left[0] == ((a.len() / 256) % 256) as u8);
    assert(right[0] == ((b.len() / 256) % 256) as u8);
    assert(left[1] == (a.len() % 256) as u8);
    assert(right[1] == (b.len() % 256) as u8);
    assert(a.len() == b.len());
    assert(a =~= left.subrange(2, 2 + a.len() as int));
    assert(b =~= right.subrange(2, 2 + b.len() as int));
    assert(x =~= left.skip(2 + a.len() as int));
    assert(y =~= right.skip(2 + b.len() as int));
}

proof fn lemma_nest(t: Seq<u8>, a: Seq<u8>, b: Seq<u8>, c: Seq<u8>, d: Seq<u8>)
    ensures
        t + a + b + c + d == t + (a + (b + (c + (d + Seq::<u8>::empty())))),
        (t + (a + (b + (c + (d + Seq::<u8>::empty()))))).skip(t.len() as int) == a + (b + (c + (d
            + Seq::<u8>::empty()))),
{
    assert(t + a + b + c + d =~= t + (a + (b + (c + (d + Seq::<u8>::empty())))));
    assert((t + (a + (b + (c + (d + Seq::<u8>::empty()))))).skip(t.len() as int) =~= a + (b + (c + (d
        + Seq::<u8>::empty()))));
}

proof fn lemma_utf8_injective(a: Seq<char>, b: Seq<char>)
    requires
        utf8(a) == utf8(b),
    ensures
        a == b,
{
    vstd::utf8::encode_utf8_decode_utf8(a);
    vstd::utf8::encode_utf8_decode_utf8(b);
}

/// No two different contexts are the same bytes, as long as every field's
/// length fits its prefix: a signature for one space, author, revision and
/// random key is a signature for no other.
pub proof fn law_context_is_injective(
    space_a: Seq<char>,
    author_a: Seq<char>,
    rev_a: Seq<char>,
    ikm_a: Seq<u8>,
    space_b: Seq<char>,
    author_b: Seq<char>,
    rev_b: Seq<char>,
    ikm_b: Seq<u8>,
)
    requires
        utf8(space_a).len() < 65536,
        utf8(author_a).len() < 65536,
        utf8(rev_a).len() < 65536,
        ikm_a.len() < 65536,
        utf8(space_b).len() < 65536,
        utf8(author_b).len() < 65536,
        utf8(rev_b).len() < 65536,
        ikm_b.len() < 65536,
        context_of(space_a, author_a, rev_a, ikm_a) == context_of(space_b, author_b, rev_b, ikm_b),
    ensures
        space_a == space_b,
        author_a == author_b,
        rev_a == rev_b,
        ikm_a == ikm_b,
{
    let tag = utf8("atproto-space-v1"@);
    let none = Seq::<u8>::empty();
    let d_a = framed(ikm_a) + none;
    let d_b = framed(ikm_b) + none;
    let c_a = framed(utf8(rev_a)) + d_a;
    let c_b = framed(utf8(rev_b)) + d_b;
    let b_a = framed(utf8(author_a)) + c_a;
    let b_b = framed(utf8(author_b)) + c_b;
    let s_a = framed(utf8(space_a)) + b_a;
    let s_b = framed(utf8(space_b)) + b_b;
    lemma_nest(tag, framed(utf8(space_a)), framed(utf8(author_a)), framed(utf8(rev_a)), framed(ikm_a));
    lemma_nest(tag, framed(utf8(space_b)), framed(utf8(author_b)), framed(utf8(rev_b)), framed(ikm_b));
    lemma_framed_cut(utf8(space_a), utf8(space_b), b_a, b_b);
    lemma_framed_cut(utf8(author_a), utf8(author_b), c_a, c_b);
    lemma_framed_cut(utf8(rev_a), utf8(rev_b), d_a, d_b);
    lemma_framed_cut(ikm_a, ikm_b, none, none);
    lemma_utf8_injective(space_a, space_b);
    lemma_utf8_injective(author_a, author_b);
    lemma_utf8_injective(rev_a, rev_b);
}

/// The signature leaves the hash out: commits that differ in their hash alone
/// carry the same signature.
pub proof fn law_signature_leaves_the_hash_out(
    hash_a: Seq<u8>,
    hash_b: Seq<u8>,
    space_uri: Seq<char>,
    author_did: Seq<char>,
    rev: Seq<char>,
    secret: Seq<u8>,
    ikm: Seq<u8>,
)
    ensures
        commit_of(hash_a, space_uri, author_did, rev, secret, ikm).sig == commit_of(
            hash_b,
            space_uri,
            author_did,
            rev,
            secret,
            ikm,
        ).sig,
{
}

/// A commit that verifies still does so with another hash put in only if the
/// two hashes have the same tag.
pub proof fn law_swapped_hash_needs_the_same_tag(
    commit: CommitView,
    hash: Seq<u8>,
    space_uri: Seq<char>,
    author_did: Seq<char>,
    key: SpaceKeyView,
)
    requires
        commit_verdict(commit, space_uri, author_did, key) is Ok,
    ensures
        ({
            let ctx = context_of(space_uri, author_did, commit.rev, commit.ikm);
            commit_verdict((CommitView { hash, ..commit }), space_uri, author_did, key) is Ok <==> mac_of(
                commit.ikm,
                ctx,
                hash,
            ) == mac_of(commit.ikm, ctx, commit.hash)
        }),
{
}

/// A commit of another version than 1 is refused for that, whatever the rest of it.
pub proof fn law_other_versions_are_refused(
    commit: CommitView,
    space_uri: Seq<char>,
    author_did: Seq<char>,
    key: SpaceKeyView,
)
    requires
        commit.ver != 1,
    ensures
        commit_verdict(commit, space_uri, author_did, key) matches Err(error) && error is BadRequest,
{
}

/// A commit that verifies does not with another tag put in.
pub proof fn law_another_tag_is_refused(
    commit: CommitView,
    mac: Seq<u8>,
    space_uri: Seq<char>,
    author_did: Seq<char>,
    key: SpaceKeyView,
)
    requires
        commit_verdict(commit, space_uri, author_did, key) is Ok,
        mac != commit.mac,
    ensures
        commit_verdict((CommitView { mac, ..commit }), space_uri, author_did, key) matches Err(error)
            && error is Auth,
{
}

/// A commit that verifies for one space and author also does for another, or with
/// another revision or random key, only if the key accepts its signature for two
/// different messages.
pub proof fn law_moved_commit_needs_a_second_message(
    commit: CommitView,
    moved: CommitView,
    space_uri: Seq<char>,
    author_did: Seq<char>,
    other_space: Seq<char>,
    other_author: Seq<char>,
    key: SpaceKeyView,
)
    requires
        commit_verdict(commit, space_uri, author_did, key) is Ok,
        commit_verdict(moved, other_space, other_author, key) is Ok,
        moved.sig == commit.sig,
        space_uri != other_space || author_did != other_author || commit.rev != moved.rev || commit.ikm
            != moved.ikm,
        utf8(space_uri).len() < 65536,
        utf8(author_did).len() < 65536,
        utf8(commit.rev).len() < 65536,
        commit.ikm.len() < 65536,
        utf8(other_space).len() < 65536,
        utf8(other_author).len() < 65536,
        utf8(moved.rev).len() < 65536,
        moved.ikm.len() < 65536,
    ensures
        ({
            let ctx = context_of(space_uri, author_did, commit.rev, commit.ikm);
            let other = context_of(other_space, other_author, moved.rev, moved.ikm);
            ctx != other && key.accepts(ctx, commit.sig) && key.accepts(other, commit.sig)
        }),
{
    if context_of(space_uri, author_did, commit.rev, commit.ikm) == context_of(
        other_space,
        other_author,
        moved.rev,
        moved.ikm,
    ) {
        law_context_is_injective(
            space_uri,
            author_did,
            commit.rev,
            commit.ikm,
            other_space,
            other_author,
            moved.rev,
            moved.ikm,
        );
    }
}

/// What is read off the front of bytes as a field behind its length, and the rest.
pub open spec fn read_framed(bytes: Seq<u8>) -> Option<(Seq<u8>, Seq<u8>)> {
    if bytes.len() < 2 {
        None
    } else {
        let len = bytes[0] * 256 + bytes[1];
        if bytes.len() < 2 + len {
            None
        } else {
            Some((bytes.subrange(2, 2 + len), bytes.skip(2 + len)))
        }
    }
}

proof fn lemma_read_framed(field: Seq<u8>, rest: Seq<u8>)
    requires
        field.len() < 65536,
    ensures
        read_framed(framed(field) + rest) == Some((field, rest)),
{
    let n = field.len();
    let bytes = framed(field) + rest;
    assert(bytes[0] == ((n / 256) % 256) as u8 && bytes[1] == (n % 256) as u8);
    assert((n / 256) % 256 == n / 256) by (nonlinear_arith)
        requires
            n < 65536,
    ;
    assert(bytes[0] * 256 + bytes[1] == n);
    assert(bytes.subrange(2, 2 + n as int) =~= field);
    assert(bytes.skip(2 + n as int) =~= rest);
}

/// Whoever reads what a commit signs finds, behind the name of its format, the
/// space, the author, the revision and the random key, in this order and nothing
/// else.
pub proof fn law_contexts_read_back(
    space_uri: Seq<char>,
    author_did: Seq<char>,
    rev: Seq<char>,
    ikm: Seq<u8>,
)
    requires
        utf8(space_uri).len() < 65536,
        utf8(author_did).len() < 65536,
        utf8(rev).len() < 65536,
        ikm.len() < 65536,
    ensures
        ({
            let ctx = context_of(space_uri, author_did, rev, ikm);
            let tag = vstd::utf8::encode_utf8("atproto-space-v1"@);
            &&& ctx.take(tag.len() as int) == tag
            &&& read_framed(ctx.skip(tag.len() as int)) matches Some((space, behind_space))
            &&& space == vstd::utf8::encode_utf8(space_uri)
            &&& read_framed(behind_space) matches Some((author, behind_author))
            &&& author == vstd::utf8::encode_utf8(author_did)
            &&& read_framed(behind_author) matches Some((revision, behind_rev))
            &&& revision == vstd::utf8::encode_utf8(rev)
            &&& read_framed(behind_rev) == Some((ikm, Seq::<u8>::empty()))
        }),
{
    let tag = utf8("atproto-space-v1"@);
    let ctx = context_of(space_uri, author_did, rev, ikm);
    let none = Seq::<u8>::empty();
    let (a, b, c, d) = (
        framed(utf8(space_uri)),
        framed(utf8(author_did)),
        framed(utf8(rev)),
        framed(ikm),
    );
    lemma_nest(tag, a, b, c, d);
    assert(ctx.take(tag.len() as int) =~= tag);
    lemma_read_framed(utf8(space_uri), b + (c + (d + none)));
    lemma_read_framed(utf8(author_did), c + (d + none));
    lemma_read_framed(utf8(rev), d + none);
    lemma_read_framed(ikm, none);
}

/// A commit is taken just if it is of version 1, its signature is the key's over
/// its context, and its tag is the one of its hash under the key that is expanded
/// from the random key and the context.
pub proof fn law_when_commits_are_taken(
    commit: CommitView,
    space_uri: Seq<char>,
    author_did: Seq<char>,
    key: SpaceKeyView,
)
    ensures
        ({
            let ctx = context_of(space_uri, author_did, commit.rev, commit.ikm);
            let signed = match key {
                SpaceKeyView::P256(point) => crypto::p256_accepts(point, ctx, commit.sig),
                SpaceKeyView::K256(point) => crypto::k256_low_s_of(commit.sig) matches Some(low) && (
                crypto::k256_accepts(point, ctx, commit.sig) || crypto::k256_accepts(point, ctx, low)),
            };
            let verdict = commit_verdict(commit, space_uri, author_did, key);
            &&& (verdict is Ok <==> commit.ver == 1 && signed && commit.mac == crypto::hmac_of(
                crypto::hkdf_expanded(commit.ikm, ctx),
                commit.hash,
            ))
            &&& (commit.ver == 1 && verdict is Err ==> verdict->Err_0 is Auth)
        }),
{
}

/// A commit that is made carries what it was made over: the hash, the revision and
/// the random key, with the secret's signature of the context and the tag of the
/// hash.
pub proof fn law_commits_carry_what_they_are_over(
    hash: Seq<u8>,
    space_uri: Seq<char>,
    author_did: Seq<char>,
    rev: Seq<char>,
    secret: Seq<u8>,
    ikm: Seq<u8>,
)
    ensures
        ({
            let made = commit_of(hash, space_uri, author_did, rev, secret, ikm);
            let ctx = context_of(space_uri, author_did, rev, ikm);
            &&& made.ver == 1
            &&& made.hash == hash
            &&& made.rev == rev
            &&& made.ikm == ikm
            &&& made.sig == crypto::p256_signature_of(secret, ctx)
            &&& made.mac == crypto::hmac_of(crypto::hkdf_expanded(ikm, ctx), hash)
        }),
{
}

/// Bytes in JSON are the base64 text under `$bytes`, with or without padding, and
/// nothing else is bytes.
pub proof fn law_bytes_in_json(value: JsonView, field: Seq<char>, inner: JsonView, raw: Seq<char>, bytes: Seq<u8>)
    ensures
        value.get(field) is None ==> lex_bytes(value, field) is Err,
        value.get(field) == Some(inner) && inner.get_str("$bytes"@) is None ==> lex_bytes(value, field)
            is Err,
        value.get(field) == Some(inner) && inner.get_str("$bytes"@) == Some(raw) ==> (lex_bytes(
            value,
            field,
        ) == Ok::<Seq<u8>, ErrorView>(bytes) <==> (crypto::base64_bytes(text::trimmed_end(raw, '='))
            matches Ok(decoded) && decoded == bytes)),
        lex_value(bytes).get_str("$bytes"@) == Some(crypto::base64_of(bytes)),
{
    let members = lex_value(bytes)->Object_0;
    assert(members[0].0 == "$bytes"@);
    crate::json::lemma_lookup_at(members, 0);
}

} // verus!
