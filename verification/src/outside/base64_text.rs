//! Base64, from `base64`.

use vstd::prelude::*;

verus! {

/// The standard Base64 character of a six-bit number.
pub open spec fn base64_char(n: int) -> char {
    "ABCDEFGHIJKLMNOPQRSTUVWXYZabcdefghijklmnopqrstuvwxyz0123456789+/"@[n]
}

/// The number that three bytes hold, first byte highest.
pub open spec fn triple(bytes: Seq<u8>, k: int) -> int {
    bytes[3 * k] * 0x10000 + bytes[3 * k + 1] * 0x100 + bytes[3 * k + 2]
}

/// The Base64 text of whole triples of bytes: each triple gives four characters, its highest
/// six bits first.
pub open spec fn base64_text(bytes: Seq<u8>) -> Seq<char> {
    Seq::new(
        (bytes.len() / 3 * 4) as nat,
        |i: int|
            {
                let n = triple(bytes, i / 4);
                if i % 4 == 0 {
                    base64_char(n / 0x40000)
                } else if i % 4 == 1 {
                    base64_char(n / 0x1000 % 64)
                } else if i % 4 == 2 {
                    base64_char(n / 0x40 % 64)
                } else {
                    base64_char(n % 64)
                }
            },
    )
}

/// `base64`'s `STANDARD_NO_PAD.encode` of whole triples of bytes: their standard Base64 text.
#[verifier::external_body]
pub(crate) fn encode(bytes: &[u8]) -> (r: String)
    requires
        bytes@.len() % 3 == 0,
        bytes@.len() <= 0xFFFF,
    ensures
        r@ == base64_text(bytes@),
{
    base64::Engine::encode(&base64::engine::general_purpose::STANDARD_NO_PAD, bytes)
}

} // verus!
