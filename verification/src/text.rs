//! Lines of text: UTF-8 decoding and whitespace trimming.

use vstd::prelude::*;
use vstd::utf8::*;

verus! {

/// Whether `c` has the Unicode `White_Space` property, the definition of
/// whitespace that `char::is_whitespace` and `str::trim` use.
pub open spec fn is_unicode_whitespace(c: char) -> bool {
    let u = c as u32;
    ||| 0x09 <= u <= 0x0D
    ||| u == 0x20
    ||| u == 0x85
    ||| u == 0xA0
    ||| u == 0x1680
    ||| 0x2000 <= u <= 0x200A
    ||| u == 0x2028
    ||| u == 0x2029
    ||| u == 0x202F
    ||| u == 0x205F
    ||| u == 0x3000
}

/// `s` without its leading whitespace.
pub open spec fn trim_start(s: Seq<char>) -> Seq<char>
    decreases s.len(),
{
    if s.len() > 0 && is_unicode_whitespace(s[0]) {
        trim_start(s.drop_first())
    } else {
        s
    }
}

/// `s` without its trailing whitespace.
pub open spec fn trim_end(s: Seq<char>) -> Seq<char>
    decreases s.len(),
{
    if s.len() > 0 && is_unicode_whitespace(s.last()) {
        trim_end(s.drop_last())
    } else {
        s
    }
}

/// `s` without its leading and trailing whitespace.
pub open spec fn trim(s: Seq<char>) -> Seq<char> {
    trim_end(trim_start(s))
}

/// The UTF-8 bytes of the text that `line` encodes, with leading and trailing
/// whitespace removed (meaningful when `line` is valid UTF-8).
pub open spec fn trimmed_bytes(line: Seq<u8>) -> Seq<u8> {
    encode_utf8(trim(decode_utf8(line)))
}

/// Reads `bytes` as UTF-8 text.
///
/// Calls `std::str::from_utf8`; the contract claims that it succeeds exactly
/// on well-formed UTF-8 (vstd's `valid_utf8`) and that the text it gives
/// holds the characters those bytes encode.
#[verifier::external_body]
fn utf8_text<'a>(bytes: &'a [u8]) -> (r: Option<&'a str>)
    ensures
        r is Some <==> valid_utf8(bytes@),
        r matches Some(s) ==> s@ == decode_utf8(bytes@),
{
    std::str::from_utf8(bytes).ok()
}

/// Removes leading and trailing whitespace.
///
/// Calls `str::trim`; the contract claims that the result is the text
/// without the leading and trailing characters that have the Unicode
/// `White_Space` property.
#[verifier::external_body]
fn trim_text<'a>(s: &'a str) -> (r: &'a str)
    ensures
        r@ == trim(s@),
{
    s.trim()
}

/// The trimmed UTF-8 bytes of a line, or `None` when the line is not valid
/// UTF-8.
pub fn trimmed_line<'a>(line: &'a [u8]) -> (r: Option<&'a [u8]>)
    ensures
        r is Some <==> valid_utf8(line@),
        r matches Some(t) ==> t@ == trimmed_bytes(line@),
{
    match utf8_text(line) {
        None => None,
        Some(text) => Some(trim_text(text).as_bytes()),
    }
}

} // verus!
