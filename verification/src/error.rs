//! Typed errors for every CTAP status byte.

use crate::text;
use vstd::prelude::*;

verus! {

/// CTAP2 / CTAPHID status codes that callers might want to distinguish.
///
/// Anything besides PIN retry, credential probing, and timeout handling collapses to
/// [`CtapStatus::Other`] with the raw byte.
#[derive(Copy, Clone, Debug, PartialEq, Eq, Structural)]
pub enum CtapStatus {
    /// 0x00: success.
    Success,
    /// 0x01: invalid command.
    InvalidCommand,
    /// 0x06: CTAPHID channel busy. Only ever arrives in a `CTAPHID_ERROR` frame.
    ChannelBusy,
    /// 0x11: CBOR map value had an unexpected major type.
    CborUnexpectedType,
    /// 0x12: CBOR parse failure.
    InvalidCbor,
    /// 0x13: required CBOR parameter was missing.
    MissingParameter,
    /// 0x27: operation denied (often "user touched cancel" or policy refusal).
    OperationDenied,
    /// 0x2D: in-flight operation was cancelled via `CTAPHID_CANCEL`.
    KeepaliveCancel,
    /// 0x2E: no credentials match the request.
    NoCredentials,
    /// 0x2F: user action timeout (no touch in time).
    UserActionTimeout,
    /// 0x31: PIN is invalid.
    PinInvalid,
    /// 0x32: PIN is blocked (all retries exhausted).
    PinBlocked,
    /// 0x33: pinUvAuthParam failed validation.
    PinAuthInvalid,
    /// 0x34: pinUvAuth blocked for this boot.
    PinAuthBlocked,
    /// 0x35: authenticator does not have a PIN set.
    PinNotSet,
    /// 0x36: PIN is required for this operation.
    PinRequired,
    /// 0x37: PIN policy violation (e.g. PIN too short).
    PinPolicyViolation,
    /// Any other CTAP byte.
    Other(u8),
}

/// The status that a wire byte stands for.
pub open spec fn status_of(byte: u8) -> CtapStatus {
    match byte {
        0x00 => CtapStatus::Success,
        0x01 => CtapStatus::InvalidCommand,
        0x06 => CtapStatus::ChannelBusy,
        0x11 => CtapStatus::CborUnexpectedType,
        0x12 => CtapStatus::InvalidCbor,
        0x13 => CtapStatus::MissingParameter,
        0x27 => CtapStatus::OperationDenied,
        0x2D => CtapStatus::KeepaliveCancel,
        0x2E => CtapStatus::NoCredentials,
        0x2F => CtapStatus::UserActionTimeout,
        0x31 => CtapStatus::PinInvalid,
        0x32 => CtapStatus::PinBlocked,
        0x33 => CtapStatus::PinAuthInvalid,
        0x34 => CtapStatus::PinAuthBlocked,
        0x35 => CtapStatus::PinNotSet,
        0x36 => CtapStatus::PinRequired,
        0x37 => CtapStatus::PinPolicyViolation,
        other => CtapStatus::Other(other),
    }
}

/// The wire byte of a status.
pub open spec fn byte_of(status: CtapStatus) -> u8 {
    match status {
        CtapStatus::Success => 0x00,
        CtapStatus::InvalidCommand => 0x01,
        CtapStatus::ChannelBusy => 0x06,
        CtapStatus::CborUnexpectedType => 0x11,
        CtapStatus::InvalidCbor => 0x12,
        CtapStatus::MissingParameter => 0x13,
        CtapStatus::OperationDenied => 0x27,
        CtapStatus::KeepaliveCancel => 0x2D,
        CtapStatus::NoCredentials => 0x2E,
        CtapStatus::UserActionTimeout => 0x2F,
        CtapStatus::PinInvalid => 0x31,
        CtapStatus::PinBlocked => 0x32,
        CtapStatus::PinAuthInvalid => 0x33,
        CtapStatus::PinAuthBlocked => 0x34,
        CtapStatus::PinNotSet => 0x35,
        CtapStatus::PinRequired => 0x36,
        CtapStatus::PinPolicyViolation => 0x37,
        CtapStatus::Other(byte) => byte,
    }
}

/// The text of a status: its byte as two upper-case hexadecimal digits.
pub open spec fn status_text(status: CtapStatus) -> Seq<char> {
    "CTAP status 0x"@ + seq![
        hex_high(byte_of(status)),
        hex_low(byte_of(status)),
    ]
}

/// The high hexadecimal digit of a byte.
pub open spec fn hex_high(byte: u8) -> char {
    text::hex_digit((byte / 16) as nat)
}

/// The low hexadecimal digit of a byte.
pub open spec fn hex_low(byte: u8) -> char {
    text::hex_digit((byte % 16) as nat)
}

impl CtapStatus {
    /// Build a status from a raw CTAP response byte.
    pub fn from_byte(byte: u8) -> (r: CtapStatus)
        ensures
            r == status_of(byte),
    {
        match byte {
            0x00 => CtapStatus::Success,
            0x01 => CtapStatus::InvalidCommand,
            0x06 => CtapStatus::ChannelBusy,
            0x11 => CtapStatus::CborUnexpectedType,
            0x12 => CtapStatus::InvalidCbor,
            0x13 => CtapStatus::MissingParameter,
            0x27 => CtapStatus::OperationDenied,
            0x2D => CtapStatus::KeepaliveCancel,
            0x2E => CtapStatus::NoCredentials,
            0x2F => CtapStatus::UserActionTimeout,
            0x31 => CtapStatus::PinInvalid,
            0x32 => CtapStatus::PinBlocked,
            0x33 => CtapStatus::PinAuthInvalid,
            0x34 => CtapStatus::PinAuthBlocked,
            0x35 => CtapStatus::PinNotSet,
            0x36 => CtapStatus::PinRequired,
            0x37 => CtapStatus::PinPolicyViolation,
            other => CtapStatus::Other(other),
        }
    }

    /// Raw byte the authenticator sent on the wire.
    pub fn as_byte(self) -> (r: u8)
        ensures
            r == byte_of(self),
    {
        match self {
            CtapStatus::Success => 0x00,
            CtapStatus::InvalidCommand => 0x01,
            CtapStatus::ChannelBusy => 0x06,
            CtapStatus::CborUnexpectedType => 0x11,
            CtapStatus::InvalidCbor => 0x12,
            CtapStatus::MissingParameter => 0x13,
            CtapStatus::OperationDenied => 0x27,
            CtapStatus::KeepaliveCancel => 0x2D,
            CtapStatus::NoCredentials => 0x2E,
            CtapStatus::UserActionTimeout => 0x2F,
            CtapStatus::PinInvalid => 0x31,
            CtapStatus::PinBlocked => 0x32,
            CtapStatus::PinAuthInvalid => 0x33,
            CtapStatus::PinAuthBlocked => 0x34,
            CtapStatus::PinNotSet => 0x35,
            CtapStatus::PinRequired => 0x36,
            CtapStatus::PinPolicyViolation => 0x37,
            CtapStatus::Other(byte) => byte,
        }
    }

    /// The status as a message, such as `CTAP status 0x2E`.
    pub fn message(self) -> (r: String)
        ensures
            r@ == status_text(self),
    {
        let byte = self.as_byte();
        let mut out = "CTAP status 0x".to_owned();
        out.append(text::hex_digit_text(byte / 16));
        out.append(text::hex_digit_text(byte % 16));
        assert(out@ =~= status_text(self));
        out
    }
}

impl From<u8> for CtapStatus {
    fn from(byte: u8) -> (r: CtapStatus) {
        CtapStatus::from_byte(byte)
    }
}

impl vstd::std_specs::convert::FromSpecImpl<u8> for CtapStatus {
    open spec fn obeys_from_spec() -> bool {
        true
    }

    open spec fn from_spec(byte: u8) -> CtapStatus {
        status_of(byte)
    }
}

impl From<CtapStatus> for u8 {
    fn from(status: CtapStatus) -> (r: u8) {
        status.as_byte()
    }
}

impl vstd::std_specs::convert::FromSpecImpl<CtapStatus> for u8 {
    open spec fn obeys_from_spec() -> bool {
        true
    }

    open spec fn from_spec(status: CtapStatus) -> u8 {
        byte_of(status)
    }
}

/// Every byte survives the way through [`CtapStatus`] and back: typed variants encode to the
/// byte they came from, and unknown bytes flow through [`CtapStatus::Other`] unchanged.
pub proof fn law_status_round_trip(byte: u8)
    ensures
        byte_of(status_of(byte)) == byte,
{
}

/// No two bytes share a status.
pub proof fn law_status_injective(a: u8, b: u8)
    requires
        status_of(a) == status_of(b),
    ensures
        a == b,
{
}

/// `std::io::Error`, carried by [`Error::Io`] and never looked into.
#[verifier::external_type_specification]
#[verifier::external_body]
pub struct ExIoError(std::io::Error);

/// Top-level error type.
#[derive(Debug)]
pub enum Error {
    /// The authenticator returned a non-success CTAP status.
    Ctap(CtapStatus),
    /// An extension output was requested but the device didn't return one.
    MissingExtension(&'static str),
    /// The host couldn't reach the device (USB / HID I/O).
    Io(std::io::Error),
    /// hidapi error during enumeration or open.
    Hid(String),
    /// CBOR encoding/decoding failure.
    Cbor(String),
    /// PIN protocol step produced an unexpected result.
    Pin(&'static str),
    /// A response field had an unexpected type or shape.
    Parse(&'static str),
}

/// What an [`Error`] says, with the cause of an I/O failure left out: it comes from outside the
/// library. So does the message of a CBOR failure that is the reader's: a contract that expects
/// one leaves its words open.
pub enum Fault {
    Ctap(CtapStatus),
    MissingExtension(Seq<char>),
    Io,
    Hid(Seq<char>),
    /// The message, where the library words it.
    Cbor(Option<Seq<char>>),
    Pin(Seq<char>),
    Parse(Seq<char>),
}

impl View for Error {
    type V = Fault;

    open spec fn view(&self) -> Fault {
        match *self {
            Error::Ctap(status) => Fault::Ctap(status),
            Error::MissingExtension(name) => Fault::MissingExtension(name@),
            Error::Io(_) => Fault::Io,
            Error::Hid(message) => Fault::Hid(message@),
            Error::Cbor(message) => Fault::Cbor(Some(message@)),
            Error::Pin(message) => Fault::Pin(message@),
            Error::Parse(message) => Fault::Parse(message@),
        }
    }
}

/// A result as its callers can tell it apart: the view of the value, or what the error says.
pub open spec fn seen<T: View>(r: Result<T, Error>) -> Result<T::V, Fault> {
    match r {
        Ok(value) => Ok(value@),
        Err(err) => Err(err@),
    }
}

/// Whether an error reports the given fault. Where the words are the reader's, any do.
pub open spec fn reports(err: Error, fault: Fault) -> bool {
    err@ == fault || (fault == Fault::Cbor(None) && err is Cbor)
}

/// Whether a result is the expected one: the value with the given view, or an error that reports
/// the given fault.
pub open spec fn agrees<T: View>(r: Result<T, Error>, expected: Result<T::V, Fault>) -> bool {
    match expected {
        Ok(value) => r matches Ok(held) && held@ == value,
        Err(fault) => r matches Err(err) && reports(err, fault),
    }
}

/// `std::io::Error`'s `Display` text. It depends on the operating system, so nothing is
/// stated of it.
#[verifier::external_body]
fn io_error_text(err: &std::io::Error) -> (r: String) {
    err.to_string()
}

impl Error {
    /// The error as a message, each kind behind its own prefix.
    pub fn message(&self) -> (r: String)
        ensures
            match *self {
                Error::Ctap(status) => r@ == status_text(status),
                Error::MissingExtension(name) => r@ == "device omitted required extension: "@
                    + name@,
                Error::Io(_) => "hid io: "@.is_prefix_of(r@),
                Error::Hid(message) => r@ == "hidapi: "@ + message@,
                Error::Cbor(message) => r@ == "cbor: "@ + message@,
                Error::Pin(message) => r@ == "pin protocol: "@ + message@,
                Error::Parse(message) => r@ == "parse: "@ + message@,
            },
    {
        match self {
            Error::Ctap(status) => status.message(),
            Error::MissingExtension(name) => "device omitted required extension: ".to_owned().concat(
                name,
            ),
            Error::Io(err) => "hid io: ".to_owned().concat(io_error_text(err).as_str()),
            Error::Hid(message) => "hidapi: ".to_owned().concat(message.as_str()),
            Error::Cbor(message) => "cbor: ".to_owned().concat(message.as_str()),
            Error::Pin(message) => "pin protocol: ".to_owned().concat(message),
            Error::Parse(message) => "parse: ".to_owned().concat(message),
        }
    }
}

impl From<std::io::Error> for Error {
    fn from(err: std::io::Error) -> (r: Error) {
        Error::Io(err)
    }
}

impl vstd::std_specs::convert::FromSpecImpl<std::io::Error> for Error {
    open spec fn obeys_from_spec() -> bool {
        true
    }

    open spec fn from_spec(err: std::io::Error) -> Error {
        Error::Io(err)
    }
}

} // verus!
