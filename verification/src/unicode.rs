//! Conversions between scalar values and text that only the standard
//! library can perform: checked `char` construction and UTF-8 validation.
//! Their contracts are stated over vstd's UTF-8 model.

use vstd::prelude::*;

verus! {

/// A `u32` names a Unicode scalar value exactly when it lies below the
/// surrogate range or between it and the last code point.
pub open spec fn is_unicode_scalar(u: u32) -> bool {
    u < 0xD800 || (0xE000 <= u && u <= 0x10FFFF)
}

/// Relies on `char::from_u32`: it returns `Some` exactly for Unicode scalar
/// values, and the returned character casts back to the argument.
#[verifier::external_body]
pub fn char_from_u32(u: u32) -> (r: Option<char>)
    ensures
        r is Some <==> is_unicode_scalar(u),
        r matches Some(c) ==> c as u32 == u,
{
    char::from_u32(u)
}

/// Relies on `String::from_utf8`: it succeeds exactly on valid UTF-8, and
/// the returned string holds exactly the characters those bytes encode.
#[verifier::external_body]
pub fn string_from_utf8(bytes: Vec<u8>) -> (r: Option<String>)
    ensures
        r is Some <==> vstd::utf8::valid_utf8(bytes@),
        r matches Some(s) ==> s@ == vstd::utf8::decode_utf8(bytes@),
{
    match String::from_utf8(bytes) {
        Ok(s) => Some(s),
        Err(_) => None,
    }
}

} // verus!
