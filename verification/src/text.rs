//! Byte-string and UTF-8 helpers: the standard library's conversions that the
//! library relies on, with what their documentation promises.

use vstd::prelude::*;

verus! {

use vstd::utf8::{valid_utf8, decode_utf8};
use vstd::string::StringSliceAdditionalSpecFns;

/// The error `core::str::from_utf8` returns for bytes that are not UTF-8.
#[verifier::external_type_specification]
#[verifier::external_body]
pub struct ExUtf8Error(core::str::Utf8Error);

/// Calls `core::str::from_utf8`. Its documentation: the bytes are returned as
/// a string slice when they are valid UTF-8, and an error otherwise.
#[verifier::external_body]
pub(crate) fn str_from_utf8(v: &[u8]) -> (r: Result<&str, core::str::Utf8Error>)
    ensures
        r is Ok <==> valid_utf8(v@),
        r is Ok ==> r->Ok_0.spec_bytes() == v@ && r->Ok_0@ == decode_utf8(v@),
{
    core::str::from_utf8(v)
}

/// Calls `String::push`, which appends `c` to the end of `s`.
#[verifier::external_body]
pub(crate) fn string_push(s: &mut String, c: char)
    ensures
        final(s)@ == old(s)@.push(c),
{
    s.push(c)
}

/// Calls `String::push_str`, which appends `t` to the end of `s`.
#[verifier::external_body]
pub(crate) fn string_push_str(s: &mut String, t: &str)
    ensures
        final(s)@ == old(s)@ + t@,
{
    s.push_str(t)
}

/// Calls `char::from_u32`: the character with code point `x`, or `None`
/// when `x` is a surrogate or beyond `0x10FFFF`.
#[verifier::external_body]
pub(crate) fn char_from_u32(x: u32) -> (r: Option<char>)
    ensures
        r is Some <==> (x < 0xD800 || (0xE000 <= x && x <= 0x10FFFF)),
        r matches Some(c) ==> c as u32 == x,
{
    char::from_u32(x)
}

} // verus!
