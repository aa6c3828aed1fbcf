//! Numbers in words, status bytes and errors.

use crate::error;
use crate::error::{CtapStatus, Error, Fault};
use crate::text;
use vstd::prelude::*;

verus! {

/// The number that decimal digits say, highest digit first.
pub open spec fn number_said(digits: Seq<char>) -> int
    decreases digits.len(),
{
    if digits.len() == 0 {
        0
    } else {
        10 * number_said(digits.drop_last()) + (digits.last() as int - '0' as int)
    }
}

/// The digits of a number say that number, and there is none too many.
pub proof fn law_decimal_says_the_number(n: nat)
    ensures
        number_said(text::decimal(n)) == n,
        text::decimal(n).len() >= 1,
        n > 0 ==> text::decimal(n)[0] != '0',
        n == 0 ==> text::decimal(n).len() == 1,
        forall|i: int|
            0 <= i < text::decimal(n).len() ==> '0' as int <= (#[trigger] text::decimal(
                n,
            )[i]) as int <= '9' as int,
    decreases n,
{
    let digits = text::decimal(n);
    if n < 10 {
        assert(digits.drop_last() =~= Seq::empty());
        assert(number_said(digits.drop_last()) == 0);
    } else {
        law_decimal_says_the_number(n / 10);
        assert(digits.drop_last() =~= text::decimal(n / 10));
    }
}

/// The value of an upper-case hexadecimal digit; none of any other character.
pub open spec fn nibble_said(digit: char) -> Option<int> {
    if '0' as int <= digit as int <= '9' as int {
        Some(digit as int - '0' as int)
    } else if 'A' as int <= digit as int <= 'F' as int {
        Some(digit as int - 'A' as int + 10)
    } else {
        None
    }
}

/// The message of a status ends in two upper-case hexadecimal digits that say its byte.
pub proof fn law_status_message_says_the_byte(status: CtapStatus)
    ensures
        ({
            let message = error::status_text(status);
            let lead = "CTAP status 0x"@.len();
            &&& message.len() == lead + 2
            &&& message.take(lead as int) == "CTAP status 0x"@
            &&& nibble_said(message[lead as int]) == Some((error::byte_of(status) / 16) as int)
            &&& nibble_said(message[lead as int + 1]) == Some((error::byte_of(status) % 16) as int)
        }),
{
    let message = error::status_text(status);
    let lead = "CTAP status 0x"@.len();
    assert(message.take(lead as int) =~= "CTAP status 0x"@);
}

/// Each status stands for the byte that CTAP gives it, and for no other.
pub proof fn law_status_bytes(byte: u8)
    ensures
        (error::status_of(byte) == CtapStatus::Success) == (byte == 0x00),
        (error::status_of(byte) == CtapStatus::InvalidCommand) == (byte == 0x01),
        (error::status_of(byte) == CtapStatus::ChannelBusy) == (byte == 0x06),
        (error::status_of(byte) == CtapStatus::CborUnexpectedType) == (byte == 0x11),
        (error::status_of(byte) == CtapStatus::InvalidCbor) == (byte == 0x12),
        (error::status_of(byte) == CtapStatus::MissingParameter) == (byte == 0x13),
        (error::status_of(byte) == CtapStatus::OperationDenied) == (byte == 0x27),
        (error::status_of(byte) == CtapStatus::KeepaliveCancel) == (byte == 0x2D),
        (error::status_of(byte) == CtapStatus::NoCredentials) == (byte == 0x2E),
        (error::status_of(byte) == CtapStatus::UserActionTimeout) == (byte == 0x2F),
        (error::status_of(byte) == CtapStatus::PinInvalid) == (byte == 0x31),
        (error::status_of(byte) == CtapStatus::PinBlocked) == (byte == 0x32),
        (error::status_of(byte) == CtapStatus::PinAuthInvalid) == (byte == 0x33),
        (error::status_of(byte) == CtapStatus::PinAuthBlocked) == (byte == 0x34),
        (error::status_of(byte) == CtapStatus::PinNotSet) == (byte == 0x35),
        (error::status_of(byte) == CtapStatus::PinRequired) == (byte == 0x36),
        (error::status_of(byte) == CtapStatus::PinPolicyViolation) == (byte == 0x37),
        error::status_of(byte) matches CtapStatus::Other(other) ==> other == byte,
        error::byte_of(error::status_of(byte)) == byte,
{
}

/// A status that no byte but its own gives has that byte.
pub proof fn law_typed_statuses_have_their_bytes(status: CtapStatus)
    ensures
        status !is Other ==> error::status_of(error::byte_of(status)) == status,
        status matches CtapStatus::Other(byte) ==> error::byte_of(status) == byte,
{
}

/// What an error says is its kind and its words.
pub proof fn law_errors_say_their_words(err: Error)
    ensures
        match err {
            Error::Ctap(status) => err@ == Fault::Ctap(status),
            Error::MissingExtension(name) => err@ == Fault::MissingExtension(name@),
            Error::Io(_) => err@ == Fault::Io,
            Error::Hid(message) => err@ == Fault::Hid(message@),
            Error::Cbor(message) => err@ == Fault::Cbor(Some(message@)),
            Error::Pin(message) => err@ == Fault::Pin(message@),
            Error::Parse(message) => err@ == Fault::Parse(message@),
        },
{
}

/// A result that agrees with an expected one succeeds where that does, with the same value, and
/// fails where that does, with the same fault; only the words of a reader are open.
pub proof fn law_agreement_is_exact<T: View>(r: Result<T, Error>, expected: Result<T::V, Fault>)
    ensures
        error::agrees(r, expected) ==> match (r, expected) {
            (Ok(held), Ok(value)) => held@ == value,
            (Err(err), Err(fault)) => err@ == fault || (fault == Fault::Cbor(None) && err is Cbor),
            _ => false,
        },
        error::seen(r) == expected ==> match (r, expected) {
            (Ok(held), Ok(value)) => held@ == value,
            (Err(err), Err(fault)) => err@ == fault,
            _ => false,
        },
        forall|err: Error, fault: Fault| #[trigger]
            error::reports(err, fault) ==> err@ == fault || (fault == Fault::Cbor(None) && err
                is Cbor),
{
}

/// Options of text, strings and bytes hold what they say.
pub proof fn law_optional_views(name: Option<String>, text: Option<&str>, bytes: Option<Vec<u8>>)
    ensures
        match name {
            Some(held) => text::text_view(name) == Some(held@),
            None => text::text_view(name) is None,
        },
        match text {
            Some(held) => text::str_view(text) == Some(held@),
            None => text::str_view(text) is None,
        },
        match bytes {
            Some(held) => text::bytes_view(bytes) == Some(held@),
            None => text::bytes_view(bytes) is None,
        },
{
}

} // verus!
