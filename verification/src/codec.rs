//! Calls into the outside crates that the library's logic relies on:
//! base64 for terminal payloads and getrandom for fresh session identifiers.
use base64::Engine;
use vstd::prelude::*;

verus! {

/// What `base64::engine::general_purpose::STANDARD.decode` gives for the
/// UTF-8 bytes of a text: the decoded bytes, or nothing when the text is not
/// canonical padded standard base64.
pub uninterp spec fn base64_decoding(text: Seq<char>) -> Option<Seq<u8>>;

/// What `base64::engine::general_purpose::STANDARD.encode` gives for bytes.
pub uninterp spec fn base64_encoding(bytes: Seq<u8>) -> Seq<char>;

/// Calls `STANDARD.decode` (base64 0.22). The contract states only that the
/// result is the named decoding of the text; an error of the crate becomes
/// `None`.
#[verifier::external_body]
pub(crate) fn base64_decode(text: &str) -> (r: Option<Vec<u8>>)
    ensures
        match r {
            Some(v) => base64_decoding(text@) == Some(v@),
            None => base64_decoding(text@) is None,
        },
{
    match base64::engine::general_purpose::STANDARD.decode(text) {
        Ok(bytes) => Some(bytes),
        Err(_) => None,
    }
}

/// Calls `STANDARD.encode` (base64 0.22). The contract claims that the result
/// is the named encoding, and that `STANDARD.decode` gives the bytes back from
/// it, which the crate's padded standard alphabet guarantees.
#[verifier::external_body]
pub(crate) fn base64_encode(bytes: &[u8]) -> (r: String)
    ensures
        r@ == base64_encoding(bytes@),
        base64_decoding(r@) == Some(bytes@),
{
    base64::engine::general_purpose::STANDARD.encode(bytes)
}

/// Terminal bytes as the standard padded base64 that the protocol carries;
/// decoding the text gives the bytes back.
pub fn payload_base64(bytes: &[u8]) -> (r: String)
    ensures
        r@ == base64_encoding(bytes@),
        base64_decoding(r@) == Some(bytes@),
{
    base64_encode(bytes)
}

/// Calls `getrandom::fill` (getrandom 0.3) on a fresh buffer of `len` bytes.
/// Of the outcome the contract states only its length: the bytes come from
/// the operating system, and an error of the crate becomes `None`.
#[verifier::external_body]
pub(crate) fn random_bytes(len: usize) -> (r: Option<Vec<u8>>)
    ensures
        r matches Some(v) ==> v.len() == len,
{
    let mut buffer = vec![0_u8; len];
    match getrandom::fill(&mut buffer) {
        Ok(()) => Some(buffer),
        Err(_) => None,
    }
}

} // verus!
