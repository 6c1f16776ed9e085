//! Base64 text for binary data kept in the settings store and in icon data URIs.

use base64::Engine;
use vstd::prelude::*;

verus! {

/// The name for what the `base64` crate's standard engine encodes a byte string to.
pub uninterp spec fn base64_text(bytes: Seq<u8>) -> Seq<char>;

/// The name for what the `base64` crate's standard engine decodes a text to (`None` when
/// it is not valid padded standard base64).
pub uninterp spec fn base64_bytes(text: Seq<char>) -> Option<Seq<u8>>;

/// Calls `base64::engine::general_purpose::STANDARD.encode`. The result is named
/// [`base64_text`]; decoding it with the same engine gives the input back, as the crate
/// documents for its canonical, padded encoding. The crate panics when the encoded length
/// overflows `usize`, which the bound rules out.
#[verifier::external_body]
pub(crate) fn encode_base64(bytes: &[u8]) -> (r: String)
    requires
        bytes@.len() <= usize::MAX / 2,
    ensures
        r@ == base64_text(bytes@),
        base64_bytes(r@) == Some(bytes@),
{
    base64::engine::general_purpose::STANDARD.encode(bytes)
}

/// Calls `base64::engine::general_purpose::STANDARD.decode` on the text's bytes; the
/// result is named [`base64_bytes`], with the crate's error mapped to `None`.
#[verifier::external_body]
pub(crate) fn decode_base64(text: &str) -> (r: Option<Vec<u8>>)
    ensures
        match r {
            Some(v) => base64_bytes(text@) == Some(v@),
            None => base64_bytes(text@).is_none(),
        },
{
    base64::engine::general_purpose::STANDARD.decode(text).ok()
}

/// The `data:` URI of a PNG image: `data:image/png;base64,` followed by its base64 text.
pub fn png_data_uri(png: &[u8]) -> (r: String)
    requires
        png@.len() <= usize::MAX / 2,
    ensures
        r@ == "data:image/png;base64,"@ + base64_text(png@),
{
    let b64 = encode_base64(png);
    crate::text::concat("data:image/png;base64,", b64.as_str())
}

} // verus!
