//! Small trusted bridges between byte-level results and `String`/`char`
//! values, shared by the rest of the library.

use vstd::prelude::*;

verus! {

/// Relies on std's `String::push`: appends exactly the one character.
#[verifier::external_body]
pub(crate) fn push_char(s: &mut String, c: char)
    ensures
        final(s)@ == old(s)@.push(c),
{
    s.push(c);
}

/// Relies on std's `String::from_utf8`: returns `Ok` exactly when the bytes
/// are valid UTF-8, and the returned string consists of exactly those bytes.
#[verifier::external_body]
pub(crate) fn bytes_to_string(v: Vec<u8>) -> (r: Option<String>)
    ensures
        r is Some <==> vstd::utf8::valid_utf8(v@),
        r is Some ==> vstd::utf8::encode_utf8(r->0@) == v@,
{
    String::from_utf8(v).ok()
}

} // verus!
