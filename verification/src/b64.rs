//! Base64 payload decoding. Command arguments that carry JSON or log
//! messages arrive base64-encoded; they are decoded here and the decoded
//! bytes are read as UTF-8 text, with invalid sequences replaced.

use vstd::prelude::*;
use base64::Engine;
use crate::error::Error;

verus! {

/// What standard base64 decoding returns for a text: decoded bytes, or
/// nothing when the text is not valid base64. The result depends on the
/// text alone.
pub uninterp spec fn b64_decode_of(s: Seq<char>) -> Option<Seq<u8>>;

/// Relies on `base64::engine::general_purpose::STANDARD`'s `decode`: the
/// standard alphabet with padding.
#[verifier::external_body]
fn b64_decode_raw(s: &str) -> (r: Option<Vec<u8>>)
    ensures
        match (r, b64_decode_of(s@)) {
            (Some(v), Some(bs)) => v@ == bs,
            (None, None) => true,
            _ => false,
        },
{
    match base64::engine::general_purpose::STANDARD.decode(s) {
        Ok(v) => Some(v),
        Err(_) => None,
    }
}

/// What lossy UTF-8 reading returns for a byte sequence: its text, with
/// invalid sequences replaced. The result depends on the bytes alone.
pub uninterp spec fn utf8_lossy_of(bs: Seq<u8>) -> Seq<char>;

/// Relies on `String::from_utf8_lossy`: invalid sequences become
/// replacement characters.
#[verifier::external_body]
pub(crate) fn utf8_lossy(bs: &Vec<u8>) -> (r: String)
    ensures
        r@ == utf8_lossy_of(bs@),
{
    String::from_utf8_lossy(bs).to_string()
}

/// The text of a base64 payload, if it decodes.
pub open spec fn payload_of(s: Seq<char>) -> Option<Seq<char>> {
    match b64_decode_of(s) {
        Some(bs) => Some(utf8_lossy_of(bs)),
        None => None,
    }
}

/// Decodes one base64 payload into text, reporting the offending text on
/// failure.
pub fn decode_payload(s: &String) -> (r: Result<String, Error>)
    ensures
        match payload_of(s@) {
            Some(t) => r is Ok && r->Ok_0@ == t,
            None => r == Result::<String, Error>::Err(Error::InvalidBase64(*s)),
        },
{
    match b64_decode_raw(s.as_str()) {
        Some(bs) => Ok(utf8_lossy(&bs)),
        None => Err(Error::InvalidBase64(s.clone())),
    }
}

} // verus!
