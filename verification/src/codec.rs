//! Base64, in the URL-safe alphabet and without padding, as `base64` does it.

use vstd::prelude::*;

verus! {

/// The text that `base64`'s `URL_SAFE_NO_PAD` engine encodes bytes to.
pub uninterp spec fn url_safe_base64(bytes: Seq<u8>) -> Seq<char>;

/// The bytes that `base64`'s `URL_SAFE_NO_PAD` engine decodes a text to;
/// `None` where the text is not such an encoding.
pub uninterp spec fn url_safe_base64_decoded(text: Seq<char>) -> Option<Seq<u8>>;

/// Encodes with `base64::Engine::encode` on `URL_SAFE_NO_PAD`. The engine
/// panics only where the length of the output overflows `usize`, which no
/// slice is long enough for.
#[verifier::external_body]
pub(crate) fn encode_base64(bytes: &[u8]) -> (r: String)
    ensures
        r@ == url_safe_base64(bytes@),
{
    base64::Engine::encode(&base64::engine::general_purpose::URL_SAFE_NO_PAD, bytes)
}

/// Decodes with `base64::Engine::decode` on `URL_SAFE_NO_PAD`; `None` where
/// the engine reports an error.
#[verifier::external_body]
pub(crate) fn decode_base64(text: &str) -> (r: Option<Vec<u8>>)
    ensures
        match r {
            Some(bytes) => url_safe_base64_decoded(text@) == Some(bytes@),
            None => url_safe_base64_decoded(text@) is None,
        },
{
    match base64::Engine::decode(&base64::engine::general_purpose::URL_SAFE_NO_PAD, text) {
        Ok(bytes) => Some(bytes),
        Err(_) => None,
    }
}

} // verus!
