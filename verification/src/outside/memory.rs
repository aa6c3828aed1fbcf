//! Wiping secrets, with `zeroize`.

use vstd::prelude::*;

verus! {

/// `zeroize::Zeroize` on a byte array: every byte becomes zero.
#[verifier::external_body]
pub(crate) fn wipe_array<const N: usize>(bytes: &mut [u8; N])
    ensures
        final(bytes)@ == Seq::new(N as nat, |i: int| 0u8),
    opens_invariants none
    no_unwind
{
    zeroize::Zeroize::zeroize(bytes);
}

/// `zeroize::Zeroize` on a byte vector: its bytes are overwritten and it ends up empty.
#[verifier::external_body]
pub(crate) fn wipe_vec(bytes: &mut Vec<u8>)
    ensures
        final(bytes)@ == Seq::<u8>::empty(),
    opens_invariants none
    no_unwind
{
    zeroize::Zeroize::zeroize(bytes);
}

} // verus!
