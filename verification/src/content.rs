//! File content as the panel's messages carry it: base64 text.

use vstd::prelude::*;

verus! {

/// The base64 text of bytes, in the standard alphabet and with padding.
pub uninterp spec fn base64_text(bytes: Seq<u8>) -> Seq<char>;

/// The bytes that a base64 text stands for, if it is well-formed.
pub uninterp spec fn base64_bytes(text: Seq<char>) -> Option<Seq<u8>>;

/// Encodes bytes with `Engine::encode` of the `base64` crate's `STANDARD`
/// engine. The contract names the text and claims that the same engine's
/// `decode` gives the bytes back. `encode` panics where the text would not fit
/// in memory: it has four characters for each three bytes begun.
#[verifier::external_body]
pub(crate) fn encode_base64(bytes: &[u8]) -> (out: String)
    requires
        (bytes@.len() + 2) / 3 * 4 <= isize::MAX,
    ensures
        out@ == base64_text(bytes@),
        base64_bytes(out@) == Some(bytes@),
{
    base64::Engine::encode(&base64::engine::general_purpose::STANDARD, bytes)
}

/// Decodes a text with `Engine::decode` of the `base64` crate's `STANDARD`
/// engine. The contract names the result: the bytes, or that the text is not
/// well-formed. Which texts are well-formed, and why one is not, is left
/// unsaid.
#[verifier::external_body]
pub(crate) fn decode_base64(text: &str) -> (out: Option<Vec<u8>>)
    ensures
        match out {
            Some(bytes) => base64_bytes(text@) == Some(bytes@),
            None => base64_bytes(text@) is None,
        },
{
    base64::Engine::decode(&base64::engine::general_purpose::STANDARD, text).ok()
}

} // verus!
