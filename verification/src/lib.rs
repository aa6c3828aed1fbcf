//! A CTAP2 client for FIDO2 authenticators over USB HID: the protocol itself, without the
//! device. Every function maps plain values to plain values, so that the code that owns the
//! HID handle only has to move reports back and forth.
//!
//! - [`cmd`] builds the requests of each command and reads its responses;
//!   [`cmd::make_credential::call`] and [`cmd::get_assertion::call_hmac_secret`] are the headline
//!   operations.
//! - [`hid`] cuts a request into reports and puts the reply together.
//! - [`device`] says which devices are authenticators with `hmac-secret`.
//! - [`pin`] is for callers that build their own PIN-protected commands.
//! - [`cose`] verifies signatures with credential public keys.
//! - [`cbor`] holds the values that requests and responses are made of.
//! - [`error`] is the typed error tree.
//! - [`laws`] says what holds of it all.

pub mod cbor;
pub mod cmd;
pub mod cose;
pub mod device;
pub mod error;
pub mod hid;
pub mod laws;
pub mod outside;
pub mod pin;
pub mod secret;
pub mod text;

pub use cmd::MakeCredentialOptions;
pub use cose::CredentialPublicKey;
pub use error::CtapStatus;
pub use error::Error;
