//! Base64 and UTF-8.
use base64::Engine;
use vstd::prelude::*;
use vstd::utf8::{decode_utf8, valid_utf8};

verus! {

/// The text that `base64::engine::general_purpose::STANDARD` encodes bytes to.
pub uninterp spec fn base64_text(bytes: Seq<u8>) -> Seq<char>;

/// The bytes that `base64::engine::general_purpose::STANDARD` decodes a text
/// to, if it is one of its encodings.
pub uninterp spec fn base64_bytes(text: Seq<char>) -> Option<Seq<u8>>;

/// The text that `base64::engine::general_purpose::URL_SAFE_NO_PAD` encodes
/// bytes to.
pub uninterp spec fn url_base64_text(bytes: Seq<u8>) -> Seq<char>;

/// The bytes that `base64::engine::general_purpose::URL_SAFE_NO_PAD` decodes a
/// text to, if it is one of its encodings.
pub uninterp spec fn url_base64_bytes(text: Seq<char>) -> Option<Seq<u8>>;

/// Encodes bytes with `Engine::encode` of `STANDARD`. Decoding the result with
/// the same engine gives the bytes back.
#[verifier::external_body]
pub(crate) fn base64_encode(bytes: &[u8]) -> (r: String)
    ensures
        r@ == base64_text(bytes@),
        base64_bytes(r@) == Some(bytes@),
{
    base64::engine::general_purpose::STANDARD.encode(bytes)
}

/// What `base64::engine::general_purpose::STANDARD` says of a text that is none
/// of its encodings.
pub uninterp spec fn base64_error_text(text: Seq<char>) -> Seq<char>;

/// Decodes a text with `Engine::decode` of `STANDARD`, or tells what its error
/// displays as.
#[verifier::external_body]
pub(crate) fn base64_decode_or_error(text: &str) -> (r: Result<Vec<u8>, String>)
    ensures
        match r {
            Ok(bytes) => base64_bytes(text@) == Some(bytes@),
            Err(e) => base64_bytes(text@) is None && e@ == base64_error_text(text@),
        },
{
    base64::engine::general_purpose::STANDARD.decode(text).map_err(|e| e.to_string())
}

/// Decodes a text, where it is an encoding.
pub(crate) fn base64_decode(text: &str) -> (r: Option<Vec<u8>>)
    ensures
        match r {
            Some(bytes) => base64_bytes(text@) == Some(bytes@),
            None => base64_bytes(text@) is None,
        },
{
    match base64_decode_or_error(text) {
        Ok(bytes) => Some(bytes),
        Err(_) => None,
    }
}

/// Encodes bytes with `Engine::encode` of `URL_SAFE_NO_PAD`, in letters,
/// digits, hyphens and underscores, four for three bytes and no more than are
/// needed for the rest. Decoding the result with the same engine gives the
/// bytes back.
#[verifier::external_body]
pub(crate) fn url_base64_encode(bytes: &[u8]) -> (r: String)
    ensures
        r@ == url_base64_text(bytes@),
        url_base64_bytes(r@) == Some(bytes@),
        r@.len() == (4 * bytes@.len() + 2) / 3,
        forall|i: int| 0 <= i < r@.len() ==> #[trigger] r@[i] != '.',
{
    base64::engine::general_purpose::URL_SAFE_NO_PAD.encode(bytes)
}

/// Decodes a text with `Engine::decode` of `URL_SAFE_NO_PAD`.
#[verifier::external_body]
pub(crate) fn url_base64_decode(text: &str) -> (r: Option<Vec<u8>>)
    ensures
        match r {
            Some(bytes) => url_base64_bytes(text@) == Some(bytes@),
            None => url_base64_bytes(text@) is None,
        },
{
    base64::engine::general_purpose::URL_SAFE_NO_PAD.decode(text).ok()
}

/// Reads bytes as text with `String::from_utf8`, which accepts exactly the
/// bytes that are valid UTF-8.
#[verifier::external_body]
pub(crate) fn text_of_utf8(bytes: Vec<u8>) -> (r: Option<String>)
    ensures
        match r {
            Some(text) => valid_utf8(bytes@) && text@ == decode_utf8(bytes@),
            None => !valid_utf8(bytes@),
        },
{
    String::from_utf8(bytes).ok()
}

} // verus!
