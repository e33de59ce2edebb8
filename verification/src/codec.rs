//! Byte encodings: base64, done by the `base64` crate, and UTF-8 decoding,
//! done by `std`, both reached through the trusted items below.
use vstd::prelude::*;

use base64::Engine;
use vstd::utf8::{decode_utf8, valid_utf8};

verus! {

/// What `base64::engine::general_purpose::STANDARD` writes for the bytes.
pub uninterp spec fn base64_standard(bytes: Seq<u8>) -> Seq<char>;

/// What `STANDARD.decode` reads from the UTF-8 bytes of a text: the bytes,
/// or the error's text.
pub uninterp spec fn base64_standard_decoding(text: Seq<char>) -> Result<Seq<u8>, Seq<char>>;

/// What `base64::engine::general_purpose::URL_SAFE_NO_PAD` writes for the
/// UTF-8 bytes of a text.
pub uninterp spec fn base64_url_nopad_of_text(text: Seq<char>) -> Seq<char>;

/// Calls `STANDARD.encode`; the text is named `base64_standard`.
#[verifier::external_body]
pub(crate) fn base64_encode(bytes: &[u8]) -> (r: String)
    ensures
        r@ == base64_standard(bytes@),
{
    base64::engine::general_purpose::STANDARD.encode(bytes)
}

/// Calls `STANDARD.decode` on the text's bytes; the outcome is named
/// `base64_standard_decoding`.
#[verifier::external_body]
pub(crate) fn base64_decode(text: &str) -> (r: Result<Vec<u8>, String>)
    ensures
        match r {
            Ok(b) => base64_standard_decoding(text@) == Ok::<Seq<u8>, Seq<char>>(b@),
            Err(e) => base64_standard_decoding(text@) == Err::<Seq<u8>, Seq<char>>(e@),
        },
{
    match base64::engine::general_purpose::STANDARD.decode(text.as_bytes()) {
        Ok(bytes) => Ok(bytes),
        Err(err) => Err(err.to_string()),
    }
}

/// Calls `URL_SAFE_NO_PAD.encode` on the text's bytes; the text is named
/// `base64_url_nopad_of_text`.
#[verifier::external_body]
pub(crate) fn base64_url_nopad_encode_text(text: &str) -> (r: String)
    ensures
        r@ == base64_url_nopad_of_text(text@),
{
    base64::engine::general_purpose::URL_SAFE_NO_PAD.encode(text.as_bytes())
}

/// What `String::from_utf8_lossy` makes of the bytes.
pub uninterp spec fn utf8_lossy_text(bytes: Seq<u8>) -> Seq<char>;

/// Calls `String::from_utf8_lossy`; the text is named `utf8_lossy_text`.
/// As `std` documents, bytes that are valid UTF-8 come back as the text
/// they encode; what stands in place of invalid sequences is not stated.
#[verifier::external_body]
pub(crate) fn utf8_lossy(bytes: &[u8]) -> (r: String)
    ensures
        r@ == utf8_lossy_text(bytes@),
        valid_utf8(bytes@) ==> r@ == decode_utf8(bytes@),
{
    String::from_utf8_lossy(bytes).into_owned()
}

/// Calls `String::from_utf8`: the text when the bytes are valid UTF-8.
#[verifier::external_body]
pub(crate) fn utf8_decode(bytes: Vec<u8>) -> (r: Option<String>)
    ensures
        match r {
            Some(s) => valid_utf8(bytes@) && s@ == decode_utf8(bytes@),
            None => !valid_utf8(bytes@),
        },
{
    String::from_utf8(bytes).ok()
}

} // verus!
