//! AES-256-CBC with a zero IV and without padding, as PIN protocol v1 uses it.

use crate::outside::cipher;
use crate::text;
use vstd::prelude::*;

verus! {

/// The bitwise exclusive or of two blocks.
pub open spec fn xored(a: Seq<u8>, b: Seq<u8>) -> Seq<u8> {
    Seq::new(16, |i: int| a[i] ^ b[i])
}

/// The block of zeros that the first block is chained to.
pub open spec fn zero_block() -> Seq<u8> {
    Seq::new(16, |i: int| 0u8)
}

/// Whole blocks, encrypted: each block is first xored with the encrypted one before it.
pub open spec fn encrypted(key: Seq<u8>, before: Seq<u8>, plaintext: Seq<u8>) -> Seq<u8>
    decreases plaintext.len(),
{
    if plaintext.len() < 16 {
        Seq::empty()
    } else {
        let block = cipher::aes256_encrypted(key, xored(plaintext.take(16), before));
        block + encrypted(key, block, plaintext.skip(16))
    }
}

/// Whole blocks, decrypted: each block is then xored with the encrypted one before it.
pub open spec fn decrypted(key: Seq<u8>, before: Seq<u8>, ciphertext: Seq<u8>) -> Seq<u8>
    decreases ciphertext.len(),
{
    if ciphertext.len() < 16 {
        Seq::empty()
    } else {
        let block = ciphertext.take(16);
        xored(cipher::aes256_decrypted(key, block), before) + decrypted(
            key,
            block,
            ciphertext.skip(16),
        )
    }
}

/// Whether a ciphertext is what a plaintext of whole blocks encrypts to, block by block.
pub open spec fn seals(
    key: Seq<u8>,
    before: Seq<u8>,
    plaintext: Seq<u8>,
    ciphertext: Seq<u8>,
) -> bool
    decreases ciphertext.len(),
{
    &&& plaintext.len() == ciphertext.len()
    &&& ciphertext.len() >= 16 ==> ciphertext.take(16) == cipher::aes256_encrypted(
        key,
        xored(plaintext.take(16), before),
    ) && seals(key, ciphertext.take(16), plaintext.skip(16), ciphertext.skip(16))
}

/// Decryption keeps the length of whole blocks.
pub proof fn lemma_decrypted_len(key: Seq<u8>, before: Seq<u8>, ciphertext: Seq<u8>)
    requires
        ciphertext.len() % 16 == 0,
    ensures
        decrypted(key, before, ciphertext).len() == ciphertext.len(),
    decreases ciphertext.len(),
{
    if ciphertext.len() >= 16 {
        lemma_decrypted_len(key, ciphertext.take(16), ciphertext.skip(16));
    }
}

/// Xoring twice with the same block changes nothing.
proof fn lemma_xor_twice(a: Seq<u8>, b: Seq<u8>)
    requires
        a.len() == 16,
        b.len() == 16,
    ensures
        xored(xored(a, b), b) == a,
{
    assert forall|i: int| 0 <= i < 16 implies xored(xored(a, b), b)[i] == a[i] by {
        let x = a[i];
        let y = b[i];
        assert((x ^ y) ^ y == x) by (bit_vector);
    }
    assert(xored(xored(a, b), b) =~= a);
}

/// The first block of a longer ciphertext.
proof fn lemma_decrypted_step(key: Seq<u8>, before: Seq<u8>, block: Seq<u8>, tail: Seq<u8>)
    requires
        block.len() == 16,
    ensures
        decrypted(key, before, block + tail) == xored(cipher::aes256_decrypted(key, block), before)
            + decrypted(key, block, tail),
{
    assert((block + tail).take(16) =~= block);
    assert((block + tail).skip(16) =~= tail);
}

/// The first block of a longer plaintext.
proof fn lemma_encrypted_step(key: Seq<u8>, before: Seq<u8>, block: Seq<u8>, tail: Seq<u8>)
    requires
        block.len() == 16,
    ensures
        encrypted(key, before, block + tail) == cipher::aes256_encrypted(key, xored(block, before))
            + encrypted(key, cipher::aes256_encrypted(key, xored(block, before)), tail),
{
    assert((block + tail).take(16) =~= block);
    assert((block + tail).skip(16) =~= tail);
}

fn xor_blocks(a: &[u8], b: &[u8; 16]) -> (r: [u8; 16])
    requires
        a@.len() == 16,
    ensures
        r@ == xored(a@, b@),
{
    let mut out: [u8; 16] = [0; 16];
    let mut i: usize = 0;
    while i < 16
        invariant
            i <= 16,
            a@.len() == 16,
            forall|j: int| 0 <= j < i ==> out@[j] == a@[j] ^ b@[j],
        decreases 16 - i,
    {
        out[i] = a[i] ^ b[i];
        i += 1;
    }
    assert(out@ =~= xored(a@, b@));
    out
}

/// AES-256-CBC encrypt with zero IV. Decryption under the same key gives the plaintext back.
pub fn aes256_cbc_encrypt(key: &[u8; 32], plaintext: &[u8]) -> (r: Vec<u8>)
    requires
        plaintext@.len() % 16 == 0,
    ensures
        r@ == encrypted(key@, zero_block(), plaintext@),
        r@.len() == plaintext@.len(),
        decrypted(key@, zero_block(), r@) == plaintext@,
        seals(key@, zero_block(), plaintext@, r@),
{
    let mut out: Vec<u8> = Vec::new();
    let mut before: [u8; 16] = [0; 16];
    let mut done: usize = 0;
    assert(before@ =~= zero_block());
    assert(plaintext@.skip(0) =~= plaintext@);
    assert(out@ + encrypted(key@, before@, plaintext@.skip(0)) =~= encrypted(
        key@,
        zero_block(),
        plaintext@,
    ));
    assert forall|tail: Seq<u8>| #[trigger]
        decrypted(key@, zero_block(), out@ + tail) == plaintext@.take(0) + decrypted(
            key@,
            before@,
            tail,
        ) by {
        assert(out@ + tail =~= tail);
        assert(plaintext@.take(0) + decrypted(key@, before@, tail) =~= decrypted(
            key@,
            before@,
            tail,
        ));
    }
    assert forall|tail: Seq<u8>|
        seals(key@, before@, plaintext@.skip(0), tail) implies #[trigger] seals(
        key@,
        zero_block(),
        plaintext@,
        out@ + tail,
    ) by {
        assert(out@ + tail =~= tail);
    }
    while done < plaintext.len()
        invariant
            done <= plaintext@.len(),
            done % 16 == 0,
            plaintext@.len() % 16 == 0,
            out@.len() == done,
            out@ + encrypted(key@, before@, plaintext@.skip(done as int)) == encrypted(
                key@,
                zero_block(),
                plaintext@,
            ),
            forall|tail: Seq<u8>| #[trigger]
                decrypted(key@, zero_block(), out@ + tail) == plaintext@.take(done as int)
                    + decrypted(key@, before@, tail),
            forall|tail: Seq<u8>|
                seals(key@, before@, plaintext@.skip(done as int), tail) ==> #[trigger] seals(
                    key@,
                    zero_block(),
                    plaintext@,
                    out@ + tail,
                ),
        decreases plaintext.len() - done,
    {
        let chunk = vstd::slice::slice_subrange(plaintext, done, done + 16);
        let mixed = xor_blocks(chunk, &before);
        let block = cipher::encrypt_block(key, &mixed);
        let ghost sofar = out@;
        text::push_bytes(&mut out, block.as_slice());
        proof {
            let rest = plaintext@.skip(done as int);
            assert(rest.take(16) =~= chunk@);
            assert(rest.skip(16) =~= plaintext@.skip(done + 16));
            assert(out@ + encrypted(key@, block@, plaintext@.skip(done + 16)) =~= sofar
                + encrypted(key@, before@, rest));
            assert forall|tail: Seq<u8>| #[trigger]
                decrypted(key@, zero_block(), out@ + tail) == plaintext@.take(done + 16)
                    + decrypted(key@, block@, tail) by {
                assert(out@ + tail =~= sofar + (block@ + tail));
                lemma_decrypted_step(key@, before@, block@, tail);
                lemma_xor_twice(chunk@, before@);
                assert(plaintext@.take(done as int) + (chunk@ + decrypted(key@, block@, tail))
                    =~= plaintext@.take(done + 16) + decrypted(key@, block@, tail));
            }
            assert forall|tail: Seq<u8>|
                seals(key@, block@, plaintext@.skip(done + 16), tail) implies #[trigger] seals(
                key@,
                zero_block(),
                plaintext@,
                out@ + tail,
            ) by {
                assert((block@ + tail).take(16) =~= block@);
                assert((block@ + tail).skip(16) =~= tail);
                assert(seals(key@, before@, rest, block@ + tail));
                assert(out@ + tail =~= sofar + (block@ + tail));
            }
        }
        before = block;
        done += 16;
    }
    proof {
        assert(out@ + encrypted(key@, before@, plaintext@.skip(done as int)) =~= out@);
        let none = Seq::<u8>::empty();
        assert(out@ + none =~= out@);
        assert(decrypted(key@, zero_block(), out@ + none) == plaintext@.take(done as int)
            + decrypted(key@, before@, none));
        assert(plaintext@.take(done as int) + decrypted(key@, before@, none) =~= plaintext@);
        assert(seals(key@, before@, plaintext@.skip(done as int), none));
    }
    out
}

/// AES-256-CBC decrypt with zero IV. Encryption under the same key gives the ciphertext back,
/// and whatever plaintext the ciphertext was made from is the one that comes out.
pub fn aes256_cbc_decrypt(key: &[u8; 32], ciphertext: &[u8]) -> (r: Vec<u8>)
    requires
        ciphertext@.len() % 16 == 0,
    ensures
        r@ == decrypted(key@, zero_block(), ciphertext@),
        r@.len() == ciphertext@.len(),
        encrypted(key@, zero_block(), r@) == ciphertext@,
        forall|plaintext: Seq<u8>| #[trigger]
            seals(key@, zero_block(), plaintext, ciphertext@) ==> plaintext == r@,
{
    let mut out: Vec<u8> = Vec::new();
    let mut before: [u8; 16] = [0; 16];
    let mut done: usize = 0;
    assert(before@ =~= zero_block());
    assert(ciphertext@.skip(0) =~= ciphertext@);
    assert(out@ + decrypted(key@, before@, ciphertext@.skip(0)) =~= decrypted(
        key@,
        zero_block(),
        ciphertext@,
    ));
    assert forall|tail: Seq<u8>| #[trigger]
        encrypted(key@, zero_block(), out@ + tail) == ciphertext@.take(0) + encrypted(
            key@,
            before@,
            tail,
        ) by {
        assert(out@ + tail =~= tail);
        assert(ciphertext@.take(0) + encrypted(key@, before@, tail) =~= encrypted(
            key@,
            before@,
            tail,
        ));
    }
    assert forall|source: Seq<u8>| #[trigger]
        seals(key@, zero_block(), source, ciphertext@) implies source.take(0) == out@ && seals(
        key@,
        before@,
        source.skip(0),
        ciphertext@.skip(0),
    ) by {
        assert(source.take(0) =~= out@);
        assert(source.skip(0) =~= source);
    }
    while done < ciphertext.len()
        invariant
            done <= ciphertext@.len(),
            done % 16 == 0,
            ciphertext@.len() % 16 == 0,
            out@.len() == done,
            out@ + decrypted(key@, before@, ciphertext@.skip(done as int)) == decrypted(
                key@,
                zero_block(),
                ciphertext@,
            ),
            forall|tail: Seq<u8>| #[trigger]
                encrypted(key@, zero_block(), out@ + tail) == ciphertext@.take(done as int)
                    + encrypted(key@, before@, tail),
            forall|source: Seq<u8>| #[trigger]
                seals(key@, zero_block(), source, ciphertext@) ==> source.take(done as int) == out@
                    && seals(
                    key@,
                    before@,
                    source.skip(done as int),
                    ciphertext@.skip(done as int),
                ),
        decreases ciphertext.len() - done,
    {
        let chunk = vstd::slice::slice_subrange(ciphertext, done, done + 16);
        let block = text::to_array::<16>(chunk);
        let opened = cipher::decrypt_block(key, &block);
        let plain = xor_blocks(opened.as_slice(), &before);
        let ghost sofar = out@;
        text::push_bytes(&mut out, plain.as_slice());
        proof {
            let rest = ciphertext@.skip(done as int);
            assert(rest.take(16) =~= chunk@);
            assert(rest.skip(16) =~= ciphertext@.skip(done + 16));
            assert(out@ + decrypted(key@, block@, ciphertext@.skip(done + 16)) =~= sofar
                + decrypted(key@, before@, rest));
            assert forall|tail: Seq<u8>| #[trigger]
                encrypted(key@, zero_block(), out@ + tail) == ciphertext@.take(done + 16)
                    + encrypted(key@, block@, tail) by {
                assert(out@ + tail =~= sofar + (plain@ + tail));
                lemma_encrypted_step(key@, before@, plain@, tail);
                lemma_xor_twice(opened@, before@);
                assert(ciphertext@.take(done as int) + (block@ + encrypted(key@, block@, tail))
                    =~= ciphertext@.take(done + 16) + encrypted(key@, block@, tail));
            }
            assert forall|source: Seq<u8>| #[trigger]
                seals(key@, zero_block(), source, ciphertext@) implies source.take(done + 16)
                == out@ && seals(
                key@,
                block@,
                source.skip(done + 16),
                ciphertext@.skip(done + 16),
            ) by {
                let left = source.skip(done as int);
                let next = left.take(16);
                assert(xored(next, before@) == opened@);
                lemma_xor_twice(next, before@);
                assert(next == plain@);
                assert(source.take(done + 16) =~= source.take(done as int) + next);
                assert(left.skip(16) =~= source.skip(done + 16));
            }
        }
        before = block;
        done += 16;
    }
    proof {
        assert(out@ + decrypted(key@, before@, ciphertext@.skip(done as int)) =~= out@);
        let none = Seq::<u8>::empty();
        assert(out@ + none =~= out@);
        assert(encrypted(key@, zero_block(), out@ + none) == ciphertext@.take(done as int)
            + encrypted(key@, before@, none));
        assert(ciphertext@.take(done as int) + encrypted(key@, before@, none) =~= ciphertext@);
        assert forall|source: Seq<u8>| #[trigger]
            seals(key@, zero_block(), source, ciphertext@) implies source == out@ by {
            assert(source.take(done as int) =~= source);
        }
    }
    out
}

} // verus!
