use vstd::prelude::*;

use crate::errors::DecodeError;

verus! {

/// The characters that lossy UTF-8 conversion yields on the given bytes:
/// a function of the bytes alone.
pub uninterp spec fn lossy_utf8(bytes: Seq<u8>) -> Seq<char>;

/// Relies on `String::from_utf8`: it succeeds exactly on valid UTF-8 and
/// then returns the decoded characters.
#[verifier::external_body]
pub(crate) fn utf8_to_string(b: &Vec<u8>) -> (r: Result<String, DecodeError>)
    ensures
        r is Ok <==> vstd::utf8::valid_utf8(b@),
        r matches Ok(s) ==> s@ == vstd::utf8::decode_utf8(b@),
        r matches Err(e) ==> e == DecodeError::InvalidUtf8,
{
    match String::from_utf8(b.clone()) {
        Ok(s) => Ok(s),
        Err(_) => Err(DecodeError::InvalidUtf8),
    }
}

/// Relies on `String::from_utf8_lossy`: the result depends on the bytes
/// alone, and valid UTF-8 comes through unchanged.
#[verifier::external_body]
pub(crate) fn utf8_lossy_to_string(b: &Vec<u8>) -> (r: String)
    ensures
        r@ == lossy_utf8(b@),
        vstd::utf8::valid_utf8(b@) ==> r@ == vstd::utf8::decode_utf8(b@),
{
    String::from_utf8_lossy(b.as_slice()).into_owned()
}

} // verus!
