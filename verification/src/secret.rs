//! Key material that is wiped when it goes out of use.

use crate::outside::memory;
use vstd::prelude::*;

verus! {

/// A 32-byte key, overwritten with zeros on drop.
pub struct SecretKey32 {
    bytes: [u8; 32],
}

impl View for SecretKey32 {
    type V = Seq<u8>;

    closed spec fn view(&self) -> Seq<u8> {
        self.bytes@
    }
}

impl SecretKey32 {
    /// Take charge of the given bytes.
    pub fn new(bytes: [u8; 32]) -> (r: SecretKey32)
        ensures
            r@ == bytes@,
    {
        SecretKey32 { bytes }
    }

    /// Borrow the bytes.
    pub fn as_bytes(&self) -> (r: &[u8; 32])
        ensures
            r@ == self@,
    {
        &self.bytes
    }
}

impl Drop for SecretKey32 {
    fn drop(&mut self)
        ensures
            final(self)@ == Seq::new(32, |i: int| 0u8),
        opens_invariants none
        no_unwind
    {
        memory::wipe_array(&mut self.bytes);
    }
}

} // verus!
