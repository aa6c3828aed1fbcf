//! The AES-256 block cipher, from `aes`.

use vstd::prelude::*;

verus! {

/// The block into which AES-256 encrypts a block.
pub uninterp spec fn aes256_encrypted(key: Seq<u8>, block: Seq<u8>) -> Seq<u8>;

/// The block into which AES-256 decrypts a block.
pub uninterp spec fn aes256_decrypted(key: Seq<u8>, block: Seq<u8>) -> Seq<u8>;

/// `aes::Aes256`'s `encrypt_block`: AES-256 of one block, which decryption under the same key
/// undoes.
#[verifier::external_body]
pub(crate) fn encrypt_block(key: &[u8; 32], block: &[u8; 16]) -> (r: [u8; 16])
    ensures
        r@ == aes256_encrypted(key@, block@),
        aes256_decrypted(key@, r@) == block@,
{
    let cipher: aes::Aes256 = aes::cipher::KeyInit::new(&aes::cipher::Array::from(*key));
    let mut data = aes::cipher::Array::from(*block);
    aes::cipher::BlockCipherEncrypt::encrypt_block(&cipher, &mut data);
    data.into()
}

/// `aes::Aes256`'s `decrypt_block`: the inverse of AES-256 on one block. Encryption under the
/// same key undoes it, and no other block encrypts to the given one: under one key, AES is a
/// permutation of the blocks.
#[verifier::external_body]
pub(crate) fn decrypt_block(key: &[u8; 32], block: &[u8; 16]) -> (r: [u8; 16])
    ensures
        r@ == aes256_decrypted(key@, block@),
        aes256_encrypted(key@, r@) == block@,
        forall|plain: Seq<u8>|
            plain.len() == 16 && #[trigger] aes256_encrypted(key@, plain) == block@ ==> plain
                == r@,
{
    let cipher: aes::Aes256 = aes::cipher::KeyInit::new(&aes::cipher::Array::from(*key));
    let mut data = aes::cipher::Array::from(*block);
    aes::cipher::BlockCipherDecrypt::decrypt_block(&cipher, &mut data);
    data.into()
}

} // verus!
