//! Trusted boundary to the base64 codec used by the wire format.

use base64::Engine;
use vstd::prelude::*;

verus! {

use crate::error::Error;

/// The text that standard base64 makes of a byte string.
pub uninterp spec fn b64_of(bytes: Seq<u8>) -> Seq<char>;

/// The bytes that standard base64 reads back out of a text, if it is a
/// canonical encoding at all.
pub uninterp spec fn b64_bytes_of(s: Seq<char>) -> Option<Seq<u8>>;

/// Relies on base64's standard engine: `encode` is a pure function of the
/// bytes, and decoding its output returns those bytes.
#[verifier::external_body]
pub(crate) fn b64_encode(bytes: &Vec<u8>) -> (r: String)
    ensures
        r@ == b64_of(bytes@),
        b64_bytes_of(r@) == Some(bytes@),
{
    base64::engine::general_purpose::STANDARD.encode(bytes)
}

/// Relies on base64's standard engine: `decode` requires canonical padding
/// and rejects stray trailing bits, so it succeeds exactly on canonical
/// encodings and returns the encoded bytes.
#[verifier::external_body]
pub(crate) fn b64_decode(s: &str) -> (r: Result<Vec<u8>, Error>)
    ensures
        r matches Ok(b) ==> b64_bytes_of(s@) == Some(b@),
        r is Err ==> b64_bytes_of(s@) is None,
{
    match base64::engine::general_purpose::STANDARD.decode(s) {
        Ok(b) => Ok(b),
        Err(_) => Err(Error::MalformedInput),
    }
}

} // verus!
