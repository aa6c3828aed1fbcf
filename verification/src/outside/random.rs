//! Random bytes.

use vstd::prelude::*;

verus! {

/// `rand::Rng::fill_bytes` of the thread's generator, on a vector of `count` bytes: it fills
/// all of them. Which bytes come is chance, and nothing is said of them. A system that gives no
/// randomness makes the generator panic.
#[verifier::external_body]
pub(crate) fn random_bytes(count: usize) -> (r: Vec<u8>)
    ensures
        r@.len() == count,
{
    let mut bytes: Vec<u8> = vec![0; count];
    rand::Rng::fill_bytes(&mut rand::rng(), &mut bytes);
    bytes
}

} // verus!
