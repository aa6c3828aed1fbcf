//! `authenticatorGetNextAssertion` (CTAP2 0x08).

use crate::cmd::get_assertion;
use crate::cmd::get_assertion::Assertion;
use crate::error::Error;
use vstd::prelude::*;

verus! {

/// CTAP2 command byte for `authenticatorGetNextAssertion`.
pub const COMMAND: u8 = 0x08;

/// The request for the next assertion in a multi-credential `getAssertion` sequence: the
/// command byte alone.
///
/// Send it once per remaining credential after the initial `getAssertion` response reports
/// `number_of_credentials > 1`, on the same authenticator and within the device's idle timeout.
pub fn request() -> (r: Vec<u8>)
    ensures
        r@ == seq![COMMAND],
{
    let mut payload: Vec<u8> = Vec::new();
    payload.push(COMMAND);
    payload
}

/// Parse the response to [`request`], which has the shape of a `getAssertion` response.
///
/// # Errors
///
/// As for [`get_assertion::parse_response`].
pub fn parse_response(response: &[u8]) -> (r: Result<Assertion, Error>)
    ensures
        crate::error::agrees(r, get_assertion::assertion_in(response@)),
{
    get_assertion::parse_response(response)
}

} // verus!
