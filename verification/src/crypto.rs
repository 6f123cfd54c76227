//! The cryptographic primitives, by name.
//!
//! What a digest, a tag or a signature is on given bytes is left to the crates
//! that compute it; here it has a name, and the short facts that the rest of
//! the library builds on.
use vstd::prelude::*;

use base64::Engine;
use p256::ecdsa::signature::{Signer, Verifier};
use sha2::Digest;

verus! {

/// The contents of optional bytes.
pub open spec fn opt_bytes(bytes: Option<Vec<u8>>) -> Option<Seq<u8>> {
    match bytes {
        Some(b) => Some(b@),
        None => None,
    }
}

/// Bytes that were decoded.
pub open spec fn decoded(bytes: Seq<u8>) -> Result<Seq<u8>, Seq<char>> {
    Ok(bytes)
}

/// The text of an error in place of bytes.
pub open spec fn undecodable(text: Seq<char>) -> Result<Seq<u8>, Seq<char>> {
    Err(text)
}

/// The SHA-256 digest of bytes.
pub uninterp spec fn sha256_of(bytes: Seq<u8>) -> Seq<u8>;

/// The SHA-256 digest of bytes, with `sha2::Sha256::digest`.
///
/// Trusted: it is a function of the bytes.
#[verifier::external_body]
pub(crate) fn sha256(bytes: &[u8]) -> (digest: [u8; 32])
    ensures
        digest@ == sha256_of(bytes@),
{
    sha2::Sha256::digest(bytes).into()
}

/// The 32 bytes of HKDF-Expand with SHA-256 under a pseudorandom key.
pub uninterp spec fn hkdf_expanded(prk: Seq<u8>, info: Seq<u8>) -> Seq<u8>;

/// HKDF-Expand with SHA-256, with `hkdf::Hkdf::from_prk` and `expand`.
///
/// Neither fails here: the key has the length of the hash, and so has the
/// output. Trusted: the output is a function of the key and the info.
#[verifier::external_body]
pub(crate) fn hkdf_expand(prk: &[u8; 32], info: &[u8]) -> (okm: [u8; 32])
    ensures
        okm@ == hkdf_expanded(prk@, info@),
{
    let mut okm = [0u8; 32];
    let hkdf = hkdf::Hkdf::<sha2::Sha256>::from_prk(prk).expect("the key has the length of the hash");
    hkdf.expand(info, &mut okm).expect("the output has the length of the hash");
    okm
}

/// The HMAC-SHA256 tag of a message under a key.
pub uninterp spec fn hmac_of(key: Seq<u8>, message: Seq<u8>) -> Seq<u8>;

/// HMAC-SHA256, with `hmac::Hmac`, which takes a key of any length.
///
/// Trusted: the tag is a function of the key and the message.
#[verifier::external_body]
pub(crate) fn hmac_sha256(key: &[u8; 32], message: &[u8]) -> (tag: [u8; 32])
    ensures
        tag@ == hmac_of(key@, message@),
{
    let mut mac = <hmac::Hmac<sha2::Sha256> as hmac::KeyInit>::new_from_slice(key).expect("any length");
    hmac::Mac::update(&mut mac, message);
    hmac::Mac::finalize(mac).into_bytes().into()
}

/// The public key of a P-256 secret, as an uncompressed SEC1 point, if the
/// bytes are a secret.
pub uninterp spec fn p256_public_of(secret: Seq<u8>) -> Option<Seq<u8>>;

/// The uncompressed SEC1 form of a P-256 point, if the bytes are one.
pub uninterp spec fn p256_point_of(sec1: Seq<u8>) -> Option<Seq<u8>>;

/// The signature that a P-256 secret makes of a message.
pub uninterp spec fn p256_signature_of(secret: Seq<u8>, message: Seq<u8>) -> Seq<u8>;

/// Whether bytes have the form of a P-256 signature.
pub uninterp spec fn is_p256_signature(signature: Seq<u8>) -> bool;

/// Whether a signature of a message verifies under a P-256 point.
pub uninterp spec fn p256_accepts(sec1: Seq<u8>, message: Seq<u8>, signature: Seq<u8>) -> bool;

/// The public key of a P-256 secret, with `SigningKey::from_slice` and
/// `verifying_key`.
///
/// Trusted: it is a function of the secret, and it is a point of 65 bytes that
/// begins with a 4, whose uncompressed form is itself.
#[verifier::external_body]
pub(crate) fn p256_public(secret: &[u8]) -> (point: Option<Vec<u8>>)
    ensures
        opt_bytes(point) == p256_public_of(secret@),
        point matches Some(p) ==> p@.len() == 65 && p@[0] == 4 && p256_point_of(p@) == Some(p@),
{
    let key = p256::ecdsa::SigningKey::from_slice(secret).ok()?;
    Some(key.verifying_key().to_sec1_point(false).as_bytes().to_vec())
}

/// The uncompressed form of a P-256 point, with
/// `VerifyingKey::from_sec1_bytes` and `to_sec1_point`.
///
/// Trusted: it is a function of the bytes, and has 65 bytes.
#[verifier::external_body]
pub(crate) fn p256_point(sec1: &[u8]) -> (point: Option<Vec<u8>>)
    ensures
        opt_bytes(point) == p256_point_of(sec1@),
        point matches Some(p) ==> p@.len() == 65,
{
    let key = p256::ecdsa::VerifyingKey::from_sec1_bytes(sec1).ok()?;
    Some(key.to_sec1_point(false).as_bytes().to_vec())
}

/// The compressed public key of a P-256 secret, if the bytes are a secret.
pub uninterp spec fn p256_compressed_of(secret: Seq<u8>) -> Option<Seq<u8>>;

/// The compressed public key of a P-256 secret, with `SigningKey::from_slice`,
/// `verifying_key` and `to_sec1_point`.
///
/// Trusted: there is one just if the bytes are a secret, it is a function of the
/// secret, and it is a form of the point that is the public key.
#[verifier::external_body]
pub(crate) fn p256_compressed(secret: &[u8]) -> (point: Option<Vec<u8>>)
    ensures
        opt_bytes(point) == p256_compressed_of(secret@),
        point is Some <==> p256_public_of(secret@) is Some,
        point matches Some(p) ==> p256_point_of(p@) == p256_public_of(secret@),
{
    let key = p256::ecdsa::SigningKey::from_slice(secret).ok()?;
    Some(key.verifying_key().to_sec1_point(true).as_bytes().to_vec())
}

/// Signs with a P-256 secret, with `SigningKey::from_slice` and `sign`, which
/// is deterministic.
///
/// Trusted: there is a signature just if the bytes are a secret, it is a
/// function of the secret and the message, and it verifies under the secret's
/// public key.
#[verifier::external_body]
pub(crate) fn p256_sign(secret: &[u8], message: &[u8]) -> (signature: Option<Vec<u8>>)
    ensures
        signature is Some <==> p256_public_of(secret@) is Some,
        signature matches Some(s) ==> s@ == p256_signature_of(secret@, message@) && is_p256_signature(s@)
            && p256_accepts(p256_public_of(secret@)->0, message@, s@),
{
    let key = p256::ecdsa::SigningKey::from_slice(secret).ok()?;
    let signature: p256::ecdsa::Signature = key.sign(message);
    Some(signature.to_bytes().to_vec())
}

/// Whether bytes have the form of a P-256 signature, with
/// `Signature::from_slice`.
///
/// Trusted: it is a function of the bytes.
#[verifier::external_body]
pub(crate) fn p256_signature_form(signature: &[u8]) -> (yes: bool)
    ensures
        yes == is_p256_signature(signature@),
{
    p256::ecdsa::Signature::from_slice(signature).is_ok()
}

/// Verifies under a P-256 point, with `VerifyingKey::verify`. Bytes that are no
/// point, or no signature, do not verify.
///
/// Trusted: it is a function of the point, the message and the signature.
#[verifier::external_body]
pub(crate) fn p256_verify(sec1: &[u8], message: &[u8], signature: &[u8]) -> (yes: bool)
    ensures
        yes == p256_accepts(sec1@, message@, signature@),
{
    let key = p256::ecdsa::VerifyingKey::from_sec1_bytes(sec1);
    let signature = p256::ecdsa::Signature::from_slice(signature);
    matches!((key, signature), (Ok(k), Ok(s)) if k.verify(message, &s).is_ok())
}

/// The public key of a secp256k1 secret, as an uncompressed SEC1 point, if the
/// bytes are a secret.
pub uninterp spec fn k256_public_of(secret: Seq<u8>) -> Option<Seq<u8>>;

/// The uncompressed SEC1 form of a secp256k1 point, if the bytes are one.
pub uninterp spec fn k256_point_of(sec1: Seq<u8>) -> Option<Seq<u8>>;

/// The signature that a secp256k1 secret makes of a message.
pub uninterp spec fn k256_signature_of(secret: Seq<u8>, message: Seq<u8>) -> Seq<u8>;

/// A secp256k1 signature in the form with the low `S`, if the bytes are one.
pub uninterp spec fn k256_low_s_of(signature: Seq<u8>) -> Option<Seq<u8>>;

/// Whether a signature of a message verifies under a secp256k1 point.
pub uninterp spec fn k256_accepts(sec1: Seq<u8>, message: Seq<u8>, signature: Seq<u8>) -> bool;

/// The public key of a secp256k1 secret, with `SigningKey::from_slice` and
/// `verifying_key`.
///
/// Trusted: it is a function of the secret.
#[verifier::external_body]
pub(crate) fn k256_public(secret: &[u8]) -> (point: Option<Vec<u8>>)
    ensures
        opt_bytes(point) == k256_public_of(secret@),
{
    let key = k256::ecdsa::SigningKey::from_slice(secret).ok()?;
    Some(key.verifying_key().to_sec1_point(false).as_bytes().to_vec())
}

/// The uncompressed form of a secp256k1 point, with
/// `VerifyingKey::from_sec1_bytes` and `to_sec1_point`.
///
/// Trusted: it is a function of the bytes.
#[verifier::external_body]
pub(crate) fn k256_point(sec1: &[u8]) -> (point: Option<Vec<u8>>)
    ensures
        opt_bytes(point) == k256_point_of(sec1@),
{
    let key = k256::ecdsa::VerifyingKey::from_sec1_bytes(sec1).ok()?;
    Some(key.to_sec1_point(false).as_bytes().to_vec())
}

/// Signs with a secp256k1 secret, with `SigningKey::from_slice` and `sign`,
/// which is deterministic.
///
/// Trusted: there is a signature just if the bytes are a secret, it is a
/// function of the secret and the message, it has the form of a signature, and
/// it verifies under the secret's public key.
#[verifier::external_body]
pub(crate) fn k256_sign(secret: &[u8], message: &[u8]) -> (signature: Option<Vec<u8>>)
    ensures
        signature is Some <==> k256_public_of(secret@) is Some,
        signature matches Some(s) ==> s@ == k256_signature_of(secret@, message@) && k256_low_s_of(s@) is Some
            && k256_accepts(k256_public_of(secret@)->0, message@, s@),
{
    let key = k256::ecdsa::SigningKey::from_slice(secret).ok()?;
    let signature: k256::ecdsa::Signature = key.sign(message);
    Some(signature.to_bytes().to_vec())
}

/// The low-`S` form of a secp256k1 signature, with `Signature::normalize_s`.
///
/// Trusted: it is a function of the bytes.
#[verifier::external_body]
pub(crate) fn k256_low_s(signature: &[u8]) -> (low: Option<Vec<u8>>)
    ensures
        opt_bytes(low) == k256_low_s_of(signature@),
{
    let signature = k256::ecdsa::Signature::from_slice(signature).ok()?;
    Some(signature.normalize_s().to_bytes().to_vec())
}

/// Verifies under a secp256k1 point, with `VerifyingKey::verify`. Bytes that
/// are no point, or no signature, do not verify.
///
/// Trusted: it is a function of the point, the message and the signature.
#[verifier::external_body]
pub(crate) fn k256_verify(sec1: &[u8], message: &[u8], signature: &[u8]) -> (yes: bool)
    ensures
        yes == k256_accepts(sec1@, message@, signature@),
{
    let key = k256::ecdsa::VerifyingKey::from_sec1_bytes(sec1);
    let signature = k256::ecdsa::Signature::from_slice(signature);
    matches!((key, signature), (Ok(k), Ok(s)) if k.verify(message, &s).is_ok())
}

/// The text of bytes in unpadded URL-safe base64.
pub uninterp spec fn base64url_of(bytes: Seq<u8>) -> Seq<char>;

/// The bytes of a text in unpadded URL-safe base64, if it is one.
pub uninterp spec fn base64url_bytes(text: Seq<char>) -> Option<Seq<u8>>;

/// The text of bytes in unpadded standard base64.
pub uninterp spec fn base64_of(bytes: Seq<u8>) -> Seq<char>;

/// The bytes of a text in unpadded standard base64, or the text of the error.
pub uninterp spec fn base64_bytes(text: Seq<char>) -> Result<Seq<u8>, Seq<char>>;

/// Encodes, with base64's `URL_SAFE_NO_PAD` engine.
///
/// Trusted: the text is a function of the bytes, holds no full stop, and decodes
/// to the bytes.
#[verifier::external_body]
pub(crate) fn base64url_encode(bytes: &[u8]) -> (text: String)
    ensures
        text@ == base64url_of(bytes@),
        base64url_bytes(text@) == Some(bytes@),
        !text@.contains('.'),
{
    base64::engine::general_purpose::URL_SAFE_NO_PAD.encode(bytes)
}

/// Decodes, with base64's `URL_SAFE_NO_PAD` engine.
///
/// Trusted: the bytes are a function of the text.
#[verifier::external_body]
pub(crate) fn base64url_decode(text: &str) -> (bytes: Option<Vec<u8>>)
    ensures
        opt_bytes(bytes) == base64url_bytes(text@),
{
    base64::engine::general_purpose::URL_SAFE_NO_PAD.decode(text).ok()
}

/// Encodes, with base64's `STANDARD_NO_PAD` engine.
///
/// Trusted: the text is a function of the bytes, has no padding, and decodes to
/// the bytes.
#[verifier::external_body]
pub(crate) fn base64_encode(bytes: &[u8]) -> (text: String)
    ensures
        text@ == base64_of(bytes@),
        base64_bytes(text@) == decoded(bytes@),
        !text@.contains('='),
{
    base64::engine::general_purpose::STANDARD_NO_PAD.encode(bytes)
}

/// Decodes, with base64's `STANDARD_NO_PAD` engine.
///
/// Trusted: the bytes, or the text of the error, are a function of the text.
#[verifier::external_body]
pub(crate) fn base64_decode(text: &str) -> (bytes: Result<Vec<u8>, String>)
    ensures
        match bytes {
            Ok(b) => base64_bytes(text@) == decoded(b@),
            Err(e) => base64_bytes(text@) == undecodable(e@),
        },
{
    base64::engine::general_purpose::STANDARD_NO_PAD.decode(text).map_err(|e| e.to_string())
}

/// The bytes of a multibase text, or the text of the error.
pub uninterp spec fn multibase_bytes(text: Seq<char>) -> Result<Seq<u8>, Seq<char>>;

/// Decodes multibase, with `multibase::decode`.
///
/// Trusted: the bytes, or the text of the error, are a function of the text.
#[verifier::external_body]
pub(crate) fn multibase_decode(text: &str) -> (bytes: Result<Vec<u8>, String>)
    ensures
        match bytes {
            Ok(b) => multibase_bytes(text@) == decoded(b@),
            Err(e) => multibase_bytes(text@) == undecodable(e@),
        },
{
    multibase::decode(text).map(|(_, bytes)| bytes).map_err(|e| e.to_string())
}

/// The text of bytes in multibase, with base 58.
pub uninterp spec fn multibase_of(bytes: Seq<u8>) -> Seq<char>;

/// Encodes multibase with base 58, with `multibase::encode`.
///
/// Trusted: the text is a function of the bytes, and decodes to the bytes.
#[verifier::external_body]
pub(crate) fn multibase_encode(bytes: &[u8]) -> (text: String)
    ensures
        text@ == multibase_of(bytes@),
        multibase_bytes(text@) == decoded(bytes@),
{
    multibase::encode(multibase::Base::Base58Btc, bytes)
}

/// The bytes of a text in padded standard base64, or the text of the error.
pub uninterp spec fn base64_padded_bytes(text: Seq<char>) -> Result<Seq<u8>, Seq<char>>;

/// Decodes, with base64's `STANDARD` engine.
///
/// Trusted: the bytes, or the text of the error, are a function of the text.
#[verifier::external_body]
pub(crate) fn base64_padded_decode(text: &str) -> (bytes: Result<Vec<u8>, String>)
    ensures
        match bytes {
            Ok(b) => base64_padded_bytes(text@) == decoded(b@),
            Err(e) => base64_padded_bytes(text@) == undecodable(e@),
        },
{
    base64::engine::general_purpose::STANDARD.decode(text).map_err(|e| e.to_string())
}

/// A P-256 secret key.
pub struct P256SigningKey {
    secret: Vec<u8>,
    public: Vec<u8>,
}

impl View for P256SigningKey {
    type V = Seq<u8>;

    /// The secret's bytes.
    closed spec fn view(&self) -> Seq<u8> {
        self.secret@
    }
}

impl P256SigningKey {
    #[verifier::type_invariant]
    spec fn is_pair(self) -> bool {
        &&& p256_public_of(self.secret@) == Some(self.public@)
        &&& self.public@.len() == 65
        &&& self.public@[0] == 4
        &&& p256_point_of(self.public@) == Some(self.public@)
    }

    /// Takes a secret's bytes, if they are one.
    pub fn from_slice(bytes: &[u8]) -> (key: Option<P256SigningKey>)
        ensures
            key is Some <==> p256_public_of(bytes@) is Some,
            key matches Some(k) ==> k@ == bytes@,
    {
        match p256_public(bytes) {
            Some(public) => {
                let secret = vstd::slice::slice_to_vec(bytes);
                Some(P256SigningKey { secret, public })
            },
            None => None,
        }
    }

    /// The public key, as an uncompressed point.
    pub fn public_key(&self) -> (point: Vec<u8>)
        ensures
            p256_public_of(self@) == Some(point@),
            point@.len() == 65,
            point@[0] == 4,
            p256_point_of(point@) == Some(point@),
    {
        proof {
            use_type_invariant(self);
        }
        vstd::slice::slice_to_vec(self.public.as_slice())
    }

    /// Signs a message.
    pub fn sign(&self, message: &[u8]) -> (signature: Vec<u8>)
        ensures
            p256_public_of(self@) is Some,
            signature@ == p256_signature_of(self@, message@),
            is_p256_signature(signature@),
            p256_accepts(p256_public_of(self@)->0, message@, signature@),
    {
        proof {
            use_type_invariant(self);
        }
        match p256_sign(self.secret.as_slice(), message) {
            Some(signature) => signature,
            None => Vec::new(),
        }
    }
}

/// A secp256k1 secret key.
pub struct K256SigningKey {
    secret: Vec<u8>,
    public: Vec<u8>,
}

impl View for K256SigningKey {
    type V = Seq<u8>;

    /// The secret's bytes.
    closed spec fn view(&self) -> Seq<u8> {
        self.secret@
    }
}

impl K256SigningKey {
    #[verifier::type_invariant]
    spec fn is_pair(self) -> bool {
        k256_public_of(self.secret@) == Some(self.public@)
    }

    /// Takes a secret's bytes, if they are one.
    pub fn from_slice(bytes: &[u8]) -> (key: Option<K256SigningKey>)
        ensures
            key is Some <==> k256_public_of(bytes@) is Some,
            key matches Some(k) ==> k@ == bytes@,
    {
        match k256_public(bytes) {
            Some(public) => {
                let secret = vstd::slice::slice_to_vec(bytes);
                Some(K256SigningKey { secret, public })
            },
            None => None,
        }
    }

    /// The public key, as an uncompressed point.
    pub fn public_key(&self) -> (point: Vec<u8>)
        ensures
            k256_public_of(self@) == Some(point@),
    {
        proof {
            use_type_invariant(self);
        }
        vstd::slice::slice_to_vec(self.public.as_slice())
    }

    /// Signs a message.
    pub fn sign(&self, message: &[u8]) -> (signature: Vec<u8>)
        ensures
            k256_public_of(self@) is Some,
            signature@ == k256_signature_of(self@, message@),
            k256_low_s_of(signature@) is Some,
            k256_accepts(k256_public_of(self@)->0, message@, signature@),
    {
        proof {
            use_type_invariant(self);
        }
        match k256_sign(self.secret.as_slice(), message) {
            Some(signature) => signature,
            None => Vec::new(),
        }
    }
}

/// Whether two byte strings are equal, comparing every byte whatever the
/// earlier ones were.
pub fn ct_eq(a: &[u8], b: &[u8]) -> (same: bool)
    ensures
        same == (a@ == b@),
{
    if a.len() != b.len() {
        return false;
    }
    let mut diff: u8 = 0;
    assert(a@.take(0) =~= b@.take(0));
    for i in 0..a.len()
        invariant
            a@.len() == b@.len(),
            diff == 0 <==> a@.take(i as int) == b@.take(i as int),
    {
        let x: u8 = a[i];
        let y: u8 = b[i];
        let next: u8 = diff | (x ^ y);
        assert(next == 0 <==> (diff == 0 && x == y)) by (bit_vector)
            requires
                next == diff | (x ^ y),
        ;
        assert(a@.take(i + 1) =~= a@.take(i as int).push(x));
        assert(b@.take(i + 1) =~= b@.take(i as int).push(y));
        assert(a@.take(i + 1).drop_last() =~= a@.take(i as int));
        assert(b@.take(i + 1).drop_last() =~= b@.take(i as int));
        assert(a@.take(i + 1).last() == x);
        assert(b@.take(i + 1).last() == y);
        diff = next;
    }
    assert(a@.take(a@.len() as int) =~= a@);
    assert(b@.take(b@.len() as int) =~= b@);
    diff == 0
}

/// Copies 32 bytes into an array.
pub fn array_32(bytes: &[u8]) -> (array: [u8; 32])
    requires
        bytes@.len() == 32,
    ensures
        array@ == bytes@,
{
    let mut array: [u8; 32] = [0u8; 32];
    for i in 0..32usize
        invariant
            bytes@.len() == 32,
            array@.len() == 32,
            forall|j: int| 0 <= j < i ==> array@[j] == bytes@[j],
    {
        array[i] = bytes[i];
    }
    assert(array@ =~= bytes@);
    array
}

/// The hexadecimal SHA-256 digest of a text, under which secrets are stored.
pub open spec fn text_hash(text: Seq<char>) -> Seq<char> {
    crate::text::hex_of(sha256_of(vstd::utf8::encode_utf8(text)))
}

/// The hexadecimal SHA-256 digest of a text.
pub fn hash_text(text: &str) -> (hash: String)
    ensures
        hash@ == text_hash(text@),
{
    let digest = sha256(text.as_bytes());
    crate::text::hex(&digest)
}

} // verus!
