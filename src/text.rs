//! Small text and unit helpers.
use vstd::prelude::*;

verus! {

/// Whole megabytes in a byte count (decimal megabytes, rounded down).
pub fn byte_to_mb(x: u64) -> (r: u64)
    ensures
        r == x / 1_000_000,
{
    x / 1_000_000
}

/// The first `max_chars` characters of `s`, or all of `s` when it is shorter.
pub fn truncate(s: &str, max_chars: usize) -> (r: &str)
    ensures
        s@.len() <= max_chars ==> r@ == s@,
        s@.len() > max_chars ==> r@ == s@.subrange(0, max_chars as int),
{
    let n = s.unicode_len();
    if n <= max_chars {
        s
    } else {
        s.substring_char(0, max_chars)
    }
}

} // verus!

verus! {

/// Relies on `String::push`: the character is appended at the end.
#[verifier::external_body]
pub(crate) fn push_char(s: &mut String, c: char)
    ensures
        final(s)@ == old(s)@.push(c),
{
    s.push(c)
}

/// Relies on `char::from_u32`: a Unicode scalar value gives that character,
/// any other code gives `None`.
#[verifier::external_body]
pub(crate) fn char_from_code(code: u32) -> (r: Option<char>)
    ensures
        (code <= 0xD7FF || (0xE000 <= code && code <= 0x10FFFF)) ==> r == Some(code as char),
        !(code <= 0xD7FF || (0xE000 <= code && code <= 0x10FFFF)) ==> r is None,
{
    char::from_u32(code)
}

} // verus!
