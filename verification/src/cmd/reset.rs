//! `authenticatorReset` (CTAP2 command `0x07`).
//!
//! Wipes every credential, the PIN, and most internal state on the device. There is no
//! parameter map; the wire payload is just the command byte, and the response has no body.

use vstd::prelude::*;

verus! {

/// CTAP2 command byte for `authenticatorReset`.
pub const COMMAND: u8 = 0x07;

/// The request to reset.
///
/// Most authenticators enforce two constraints the caller has to meet: the command must arrive
/// within ~10 seconds of the device being plugged in, and the user must touch the device within
/// ~30 seconds of the command being received. Outside either window the device returns a CTAP
/// error and refuses the reset.
pub fn request() -> (r: Vec<u8>)
    ensures
        r@ == seq![COMMAND],
{
    let mut payload: Vec<u8> = Vec::new();
    payload.push(COMMAND);
    payload
}

} // verus!
