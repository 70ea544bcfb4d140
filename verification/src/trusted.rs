//! Contracts for outside functions the library relies on.

use vstd::prelude::*;

verus! {

/// Relies on `alloc::string::String::push`: appends the given character to
/// the end of the string.
pub assume_specification[ String::push ](s: &mut String, c: char)
    ensures
        final(s)@ == old(s)@.push(c),
;

/// Relies on `core::str::from_utf8`: returns `Ok` exactly when the bytes
/// are valid UTF-8, and then decodes them; the result is copied into an
/// owned `String`.
#[verifier::external_body]
pub(crate) fn utf8_to_string(b: &[u8]) -> (r: Option<String>)
    ensures
        r is Some <==> vstd::utf8::valid_utf8(b@),
        r matches Some(s) ==> s@ == vstd::utf8::decode_utf8(b@),
{
    match core::str::from_utf8(b) {
        Ok(s) => Some(s.to_string()),
        Err(_) => None,
    }
}

/// Relies on `uuid::Uuid::now_v7` and its `Display` impl: a freshly drawn
/// time-ordered UUID rendered in hyphenated form, which is 36 characters
/// long. Nothing further can be promised of a value drawn from the clock
/// and from randomness.
#[verifier::external_body]
pub(crate) fn new_request_id() -> (r: String)
    ensures
        r@.len() == 36,
{
    uuid::Uuid::now_v7().to_string()
}

} // verus!
