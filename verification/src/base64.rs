//! Trusted interface to the `base64` crate's standard engine (alphabet
//! `A-Z a-z 0-9 + /`, with `=` padding).
//!
//! Nothing here is proved: each item states what the crate's documentation
//! and source show of one call. Encoding is stated in full; decoding, with
//! its rules on padding and trailing bits, is named.

use vstd::prelude::*;

use base64::Engine;

verus! {

/// The standard alphabet's character for the 6-bit value `v`.
pub open spec fn base64_char(v: int) -> char {
    if v < 26 {
        (65 + v) as char
    } else if v < 52 {
        (97 + (v - 26)) as char
    } else if v < 62 {
        (48 + (v - 52)) as char
    } else if v == 62 {
        '+'
    } else {
        '/'
    }
}

/// The standard base64 text of `data`: each group of 3 bytes as the 4
/// characters of its four 6-bit values, high bits first; a last group of 1
/// or 2 bytes as 2 or 3 characters (its bits followed by zero bits) and `=`
/// padding to 4.
pub open spec fn base64_encoded(data: Seq<u8>) -> Seq<char>
    decreases data.len(),
{
    if data.len() == 0 {
        Seq::empty()
    } else if data.len() == 1 {
        let a = data[0] as int;
        seq![base64_char(a / 4), base64_char((a % 4) * 16), '=', '=']
    } else if data.len() == 2 {
        let a = data[0] as int;
        let b = data[1] as int;
        seq![base64_char(a / 4), base64_char((a % 4) * 16 + b / 16), base64_char((b % 16) * 4), '=']
    } else {
        let a = data[0] as int;
        let b = data[1] as int;
        let c = data[2] as int;
        seq![base64_char(a / 4), base64_char((a % 4) * 16 + b / 16), base64_char((b % 16) * 4 + c / 64), base64_char(c % 64)]
            + base64_encoded(data.subrange(3, data.len() as int))
    }
}

/// The bytes the standard engine decodes from the text `text` (given as
/// its bytes), or `None` where it is not valid padded base64.
pub uninterp spec fn base64_decoded(text: Seq<u8>) -> Option<Seq<u8>>;

/// Calls `STANDARD.encode(data)`. Claims that the result is the standard
/// base64 text of `data` (RFC 4648 with padding, as the crate documents),
/// and that decoding it gives `data` back. The
/// input is bounded so that the encoded length, which the crate computes
/// with checked arithmetic and panics on overflow, fits a `usize`.
#[verifier::external_body]
pub(crate) fn standard_encode(data: &[u8]) -> (s: String)
    requires
        data@.len() <= usize::MAX / 2,
    ensures
        s@ == base64_encoded(data@),
        base64_decoded(vstd::utf8::encode_utf8(s@)) == Some(data@),
{
    base64::engine::general_purpose::STANDARD.encode(data)
}

/// Calls `STANDARD.decode(text)`. Claims only that the result is the named
/// outcome, with the error's text on failure.
#[verifier::external_body]
pub(crate) fn standard_decode(text: &[u8]) -> (r: Result<Vec<u8>, String>)
    ensures
        (r is Ok) == (base64_decoded(text@) is Some),
        r matches Ok(v) ==> base64_decoded(text@) == Some(v@),
{
    base64::engine::general_purpose::STANDARD.decode(text).map_err(|e| format!("{e}"))
}

} // verus!
