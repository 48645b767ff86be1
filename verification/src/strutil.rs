//! Small trusted bridges to `std` string operations that vstd leaves
//! unspecified.

use vstd::prelude::*;

verus! {

/// Relies on `String::push`: appends the given character to the end of the
/// string.
#[verifier::external_body]
pub(crate) fn push_char(s: &mut String, c: char)
    ensures
        final (s)@ == old(s)@ + seq![c],
{
    s.push(c);
}

/// Relies on `String::from_utf8`: returns the decoded string exactly when the
/// bytes are a valid UTF-8 encoding, and the decoding is of the whole input.
#[verifier::external_body]
pub(crate) fn decode_utf8_vec(data: &Vec<u8>) -> (r: Option<String>)
    ensures
        r is Some <==> vstd::utf8::valid_utf8(data@),
        r matches Some(s) ==> s@ == vstd::utf8::decode_utf8(data@),
{
    String::from_utf8(data.clone()).ok()
}

} // verus!
