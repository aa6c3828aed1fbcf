//! CTAPHID command bytes.

use vstd::prelude::*;

verus! {

/// `CTAPHID_INIT`: channel allocation handshake.
pub const CTAPHID_INIT: u8 = 0x86;

/// `CTAPHID_CBOR`: wraps a CTAP2 CBOR-encoded command.
pub const CTAPHID_CBOR: u8 = 0x90;

/// `CTAPHID_CANCEL`: cancels an in-flight operation.
pub const CTAPHID_CANCEL: u8 = 0x91;

/// `CTAPHID_WINK`: blink or buzz the device. Optional.
pub const CTAPHID_WINK: u8 = 0x88;

/// `CTAPHID_KEEPALIVE`: heartbeat during user-presence waits.
pub const CTAPHID_KEEPALIVE: u8 = 0xBB;

/// `CTAPHID_ERROR`: transport-level error frame.
pub const CTAPHID_ERROR: u8 = 0xBF;

} // verus!
