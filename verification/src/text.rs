//! Bytes and text: the one place where bytes become a `String`.

use vstd::prelude::*;
use vstd::utf8::*;

verus! {

/// Decodes bytes as UTF-8 text.
///
/// Trusted: this is `String::from_utf8` of the standard library. The contract
/// claims that it succeeds exactly on well-formed UTF-8, and that the string
/// then holds the characters that the bytes encode.
#[verifier::external_body]
pub(crate) fn decode_text(bytes: Vec<u8>) -> (res: Option<String>)
    ensures
        res is Some <==> valid_utf8(bytes@),
        res matches Some(s) ==> s@ == decode_utf8(bytes@),
{
    String::from_utf8(bytes).ok()
}

} // verus!
