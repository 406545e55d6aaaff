//! Trusted boundary to the standard library: the few string and character
//! operations that vstd gives no specification for. Everything else in this
//! crate is verified against these contracts.

use vstd::prelude::*;

verus! {

/// What `str::to_lowercase` returns for a given character sequence; the
/// result depends on the characters alone.
pub uninterp spec fn lower_of(s: Seq<char>) -> Seq<char>;

/// Relies on `str::to_lowercase`: Unicode lowercasing of the whole string.
/// An empty input stays empty.
#[verifier::external_body]
pub(crate) fn to_lowercase(s: &str) -> (r: String)
    ensures
        r@ == lower_of(s@),
        s@.len() == 0 ==> r@.len() == 0,
{
    s.to_lowercase()
}

/// Relies on `String::from_utf8`: accepts exactly the valid UTF-8 byte
/// strings and decodes them, as `vstd::utf8` states validity and decoding.
#[verifier::external_body]
pub(crate) fn utf8_to_string(bytes: &Vec<u8>) -> (r: Option<String>)
    ensures
        match r {
            Some(s) => vstd::utf8::valid_utf8(bytes@) && s@ == vstd::utf8::decode_utf8(bytes@),
            None => !vstd::utf8::valid_utf8(bytes@),
        },
{
    match String::from_utf8(bytes.clone()) {
        Ok(s) => Some(s),
        Err(_) => None,
    }
}

/// Relies on `String::push`: appends one character at the end.
#[verifier::external_body]
pub(crate) fn push_char(s: &mut String, c: char)
    ensures
        final(s)@ == old(s)@.push(c),
{
    s.push(c);
}

/// Relies on `char::from_u32`: `Some` exactly at Unicode scalar values, and
/// the returned character carries that value.
#[verifier::external_body]
pub(crate) fn char_from_u32(v: u32) -> (r: Option<char>)
    ensures
        (r is Some) == vstd::utf8::is_scalar(v),
        r matches Some(c) ==> c as u32 == v,
{
    char::from_u32(v)
}

} // verus!
