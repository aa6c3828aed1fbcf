//! SHA-256 and HMAC-SHA256, from `hmac-sha256`.

use vstd::prelude::*;

verus! {

/// The SHA-256 digest of some bytes.
pub uninterp spec fn sha256(bytes: Seq<u8>) -> Seq<u8>;

/// The HMAC-SHA256 tag of a message under a key.
pub uninterp spec fn hmac_sha256_tag(message: Seq<u8>, key: Seq<u8>) -> Seq<u8>;

/// `hmac_sha256::Hash::hash`: the SHA-256 digest of `bytes`.
#[verifier::external_body]
pub(crate) fn hash(bytes: &[u8]) -> (r: [u8; 32])
    ensures
        r@ == sha256(bytes@),
{
    hmac_sha256::Hash::hash(bytes)
}

/// `hmac_sha256::HMAC::mac`: the HMAC-SHA256 tag of `message` under `key`.
#[verifier::external_body]
pub(crate) fn mac(message: &[u8], key: &[u8]) -> (r: [u8; 32])
    ensures
        r@ == hmac_sha256_tag(message@, key@),
{
    hmac_sha256::HMAC::mac(message, key)
}

} // verus!
