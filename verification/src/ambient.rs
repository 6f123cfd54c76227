//! What the machine provides: the time, chance, and identifiers made of it.
use vstd::prelude::*;

use rand::Rng;

verus! {

/// The seconds since the Unix epoch, with `std::time::SystemTime::now`.
///
/// Trusted to say nothing: the time is whatever the machine's clock shows.
#[verifier::external_body]
pub(crate) fn now_secs() -> (now: u64) {
    std::time::SystemTime::now().duration_since(std::time::UNIX_EPOCH).map(|d| d.as_secs()).unwrap_or(0)
}

/// The seconds since the Unix epoch and the nanoseconds behind them, with
/// `chrono::Utc::now`.
///
/// Trusted to say nothing: the time is whatever the machine's clock shows.
#[verifier::external_body]
pub(crate) fn now_instant() -> (now: (i64, u32)) {
    let now = chrono::Utc::now();
    (now.timestamp(), now.timestamp_subsec_nanos())
}

/// The RFC 3339 text of a number of seconds since the Unix epoch, if the time
/// is in range.
pub uninterp spec fn rfc3339_of(secs: i64) -> Option<Seq<char>>;

/// How many whole seconds before an instant the time in an RFC 3339 text is, if
/// the text is one and the time is not after the instant.
pub uninterp spec fn age_secs_of(text: Seq<char>, now_secs: i64, now_nanos: u32) -> Option<u64>;

/// Writes a time, with `chrono::DateTime::from_timestamp` and `to_rfc3339`.
///
/// Trusted: the text is a function of the seconds.
#[verifier::external_body]
fn rfc3339_text(secs: i64) -> (text: Option<String>)
    ensures
        crate::text::opt_text(text) == rfc3339_of(secs),
{
    chrono::DateTime::from_timestamp(secs, 0).map(|time| time.to_rfc3339())
}

/// The age of a time, with `chrono::DateTime::parse_from_rfc3339`,
/// `signed_duration_since` and `to_std`.
///
/// Trusted: it is a function of the text and the instant.
#[verifier::external_body]
pub(crate) fn rfc3339_age_secs(text: &str, now_secs: i64, now_nanos: u32) -> (age: Option<u64>)
    ensures
        age == age_secs_of(text@, now_secs, now_nanos),
{
    let now = chrono::DateTime::from_timestamp(now_secs, now_nanos)?;
    let then = chrono::DateTime::parse_from_rfc3339(text).ok()?.with_timezone(&chrono::Utc);
    now.signed_duration_since(then).to_std().ok().map(|age| age.as_secs())
}

/// The text of an expiry: empty if the time is out of range.
pub open spec fn expiry_text(secs: u64) -> Seq<char> {
    match rfc3339_of(secs as i64) {
        Some(text) => text,
        None => Seq::empty(),
    }
}

/// Writes an expiry.
pub fn format_expiry(secs: u64) -> (text: String)
    ensures
        text@ == expiry_text(secs),
{
    match rfc3339_text(secs as i64) {
        Some(text) => text,
        None => String::new(),
    }
}

/// Random bytes, with `rand::rng`.
///
/// Trusted: there are as many as were asked for. Which ones is chance.
#[verifier::external_body]
pub(crate) fn random_bytes(count: usize) -> (bytes: Vec<u8>)
    ensures
        bytes@.len() == count,
{
    let mut bytes = vec![0u8; count];
    rand::rng().fill_bytes(&mut bytes);
    bytes
}

/// 32 random bytes.
pub fn random_32() -> (bytes: [u8; 32]) {
    let bytes = random_bytes(32);
    crate::crypto::array_32(bytes.as_slice())
}

/// A lower-case hexadecimal digit.
pub open spec fn is_hex_digit(c: char) -> bool {
    '0' <= c <= '9' || 'a' <= c <= 'f'
}

/// The hyphenated form of a random UUID: 36 characters, hyphens at four places,
/// a 4 for the version, and hexadecimal digits elsewhere.
pub open spec fn is_uuid_v4(text: Seq<char>) -> bool {
    &&& text.len() == 36
    &&& text[14] == '4'
    &&& forall|i: int|
        0 <= i < 36 ==> if i == 8 || i == 13 || i == 18 || i == 23 {
            #[trigger] text[i] == '-'
        } else {
            is_hex_digit(text[i])
        }
}

/// A random UUID in its hyphenated form, with `uuid::Uuid::new_v4`.
///
/// Trusted: it has the form of one. Which one is chance.
#[verifier::external_body]
pub(crate) fn random_uuid() -> (text: String)
    ensures
        is_uuid_v4(text@),
{
    uuid::Uuid::new_v4().to_string()
}

} // verus!
