//! Binary data as text: standard base64, padded.

use base64::engine::general_purpose::STANDARD;
use base64::Engine;

use vstd::prelude::*;

verus! {

/// Why a text is no base64 text.
#[verifier::external_type_specification]
#[verifier::external_body]
pub struct ExDecodeError(base64::DecodeError);

/// The base64 text of a list of bytes.
pub uninterp spec fn base64_text(bytes: Seq<u8>) -> Seq<char>;

/// The bytes that a text stands for, if it is a base64 text.
pub uninterp spec fn base64_bytes(text: Seq<char>) -> Option<Seq<u8>>;

/// The length of the base64 text of `n` bytes.
pub open spec fn base64_len(n: int) -> int {
    4 * ((n + 2) / 3)
}

/// `Engine::encode` of the standard alphabet with padding. Its result depends on the bytes alone,
/// each three bytes, also where they are not complete, give four characters, and decoding takes
/// them back. It panics where that length is more than can be allocated.
#[verifier::external_body]
pub(crate) fn encode(bytes: &[u8]) -> (r: String)
    requires
        base64_len(bytes@.len() as int) <= isize::MAX,
    ensures
        r@ == base64_text(bytes@),
        r@.len() == base64_len(bytes@.len() as int),
        base64_bytes(r@) == Some(bytes@),
{
    STANDARD.encode(bytes)
}

/// `Engine::decode` of the standard alphabet with padding. Its result depends on the text alone.
/// It takes what `Engine::encode` gives, and nothing else: a text that is not padded, or that has
/// bits set behind the last byte, is refused.
#[verifier::external_body]
pub(crate) fn decode(text: &str) -> (r: Result<Vec<u8>, base64::DecodeError>)
    ensures
        r is Ok <==> base64_bytes(text@) is Some,
        r matches Ok(bytes) ==> base64_bytes(text@) == Some(bytes@),
        r matches Ok(bytes) ==> base64_text(bytes@) == text@,
{
    STANDARD.decode(text)
}

} // verus!
