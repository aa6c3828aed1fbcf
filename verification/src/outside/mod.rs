//! The calls that leave the library. Each function here makes one call into an outside crate;
//! its contract is taken on trust, and everything else in the library is proved from it.

pub mod base64_text;
pub mod cipher;
pub mod curve;
pub mod digest;
pub mod item;
pub mod memory;
pub mod random;
