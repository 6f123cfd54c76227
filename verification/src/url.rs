//! Percent encoding.
use vstd::prelude::*;

verus! {

/// Whether percent encoding leaves a byte as it is: letters, digits, and four
/// marks.
pub open spec fn is_unreserved(byte: u8) -> bool {
    48 <= byte <= 57 || 65 <= byte <= 90 || 97 <= byte <= 122 || byte == 45 || byte == 46 || byte == 95
        || byte == 126
}

/// An upper-case hexadecimal digit.
pub open spec fn hex_digit(n: int) -> char {
    if n < 10 {
        (48 + n) as char
    } else {
        (55 + n) as char
    }
}

/// Bytes in percent encoding: an unreserved byte stands for itself, any other is
/// a percent sign and two upper-case hexadecimal digits.
pub open spec fn percent_encoded(bytes: Seq<u8>) -> Seq<char>
    decreases bytes.len(),
{
    if bytes.len() == 0 {
        Seq::empty()
    } else {
        let byte = bytes.last();
        percent_encoded(bytes.drop_last()) + if is_unreserved(byte) {
            seq![byte as char]
        } else {
            seq!['%', hex_digit(byte as int / 16), hex_digit(byte as int % 16)]
        }
    }
}

/// A text in percent encoding.
pub open spec fn encoded(text: Seq<char>) -> Seq<char> {
    percent_encoded(vstd::utf8::encode_utf8(text))
}

/// What a percent-encoded text stands for, if the bytes it stands for are text.
pub uninterp spec fn percent_decoded(text: Seq<char>) -> Option<Seq<char>>;

/// Encodes, with `urlencoding::encode`.
///
/// Trusted: each byte but letters, digits and `-_.~` becomes a percent sign and
/// two upper-case hexadecimal digits.
#[verifier::external_body]
pub(crate) fn encode(text: &str) -> (out: String)
    ensures
        out@ == encoded(text@),
{
    urlencoding::encode(text).into_owned()
}

/// Decodes, with `urlencoding::decode`.
///
/// Trusted: the text, if there is one, is a function of the encoded text.
#[verifier::external_body]
pub(crate) fn decode(text: &str) -> (out: Option<String>)
    ensures
        crate::text::opt_text(out) == percent_decoded(text@),
{
    urlencoding::decode(text).ok().map(|out| out.into_owned())
}

} // verus!
