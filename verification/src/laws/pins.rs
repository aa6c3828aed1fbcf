//! PIN protocol v1: the key agreement, the token and the cipher under both.

use crate::cbor;
use crate::cbor::CborValue;
use crate::cmd::Turn;
use crate::error;
use crate::error::Fault;
use crate::outside::{cipher, curve, digest};
use crate::pin;
use crate::pin::{cbc, PinExchange, PinSession, PinToken, Session};
use vstd::prelude::*;

verus! {

/// The numbers of `clientPin`.
pub proof fn law_pin_numbers()
    ensures
        pin::CLIENT_PIN_COMMAND == 6,
        pin::GET_PIN_RETRIES == 1,
        pin::GET_KEY_AGREEMENT == 2,
        pin::SET_PIN == 3,
        pin::CHANGE_PIN == 4,
        pin::GET_PIN_TOKEN == 5,
        pin::PROTOCOL_V1 == 1,
{
}

/// A bare subcommand is protocol one under 1 and its number under 2, and no more.
pub proof fn law_bare_subcommands(subcommand: u8, key: CborValue)
    ensures
        cbor::field(pin::subcommand_parameters(subcommand), key) == (if key == CborValue::Integer(
            1,
        ) {
            Some(CborValue::Integer(1))
        } else if key == CborValue::Integer(2) {
            Some(CborValue::Integer(subcommand as int))
        } else {
            None
        }),
        pin::subcommand_parameters(subcommand) matches CborValue::Mapping(entries) && entries.len()
            == 2 && entries[0].0 == CborValue::Integer(1),
{
    let entries = pin::subcommand_parameters(subcommand)->Mapping_0;
    if key == CborValue::Integer(1) {
        cbor::lemma_position_is(entries, key, 0);
    } else if key == CborValue::Integer(2) {
        cbor::lemma_position_is(entries, key, 1);
    } else {
        cbor::lemma_position_is(entries, key, 2);
    }
}

/// The attempts left are the number under 3, where it fits a byte.
pub proof fn law_retries_are_the_number_under_three(map: CborValue, retries: u8)
    ensures
        pin::retries_of(map) == Ok::<u8, Fault>(retries) <==> cbor::field(
            map,
            CborValue::Integer(3),
        ) == Some(CborValue::Integer(retries as int)),
        cbor::field(map, CborValue::Integer(3)) matches Some(CborValue::Integer(i)) ==> (!(0 <= i
            <= 255) ==> pin::retries_of(map) == Err::<u8, Fault>(
            Fault::Pin("getPinRetries value out of u8 range"@),
        )),
        !(cbor::field(map, CborValue::Integer(3)) matches Some(CborValue::Integer(_)))
            ==> pin::retries_of(map) == Err::<u8, Fault>(
            Fault::Pin("getPinRetries response missing pinRetries"@),
        ),
{
}

/// A key for key agreement holds the kind of key, the algorithm, the curve and both coordinates,
/// each under its number and in this order, and no more.
pub proof fn law_agreement_key_fields(x: Seq<u8>, y: Seq<u8>, key: CborValue)
    ensures
        cbor::field(pin::agreement_key(x, y), key) == (if key == CborValue::Integer(1) {
            Some(CborValue::Integer(2))
        } else if key == CborValue::Integer(3) {
            Some(CborValue::Integer(-25))
        } else if key == CborValue::Integer(-1) {
            Some(CborValue::Integer(1))
        } else if key == CborValue::Integer(-2) {
            Some(CborValue::Bytes(x))
        } else if key == CborValue::Integer(-3) {
            Some(CborValue::Bytes(y))
        } else {
            None
        }),
        pin::agreement_key(x, y) matches CborValue::Mapping(entries) && entries.len() == 5
            && entries[0].0 == CborValue::Integer(1) && entries[1].0 == CborValue::Integer(3)
            && entries[2].0 == CborValue::Integer(-1) && entries[3].0 == CborValue::Integer(-2),
{
    let entries = pin::agreement_key(x, y)->Mapping_0;
    if key == CborValue::Integer(1) {
        cbor::lemma_position_is(entries, key, 0);
    } else if key == CborValue::Integer(3) {
        cbor::lemma_position_is(entries, key, 1);
    } else if key == CborValue::Integer(-1) {
        cbor::lemma_position_is(entries, key, 2);
    } else if key == CborValue::Integer(-2) {
        cbor::lemma_position_is(entries, key, 3);
    } else if key == CborValue::Integer(-3) {
        cbor::lemma_position_is(entries, key, 4);
    } else {
        cbor::lemma_position_is(entries, key, 5);
    }
}

/// A device's key gives its point exactly where it is of the kind, algorithm and curve of key
/// agreement, has both coordinates of 32 bytes, and they lie on the curve.
pub proof fn law_agreement_points(cose: CborValue, x: Seq<u8>, y: Seq<u8>)
    ensures
        pin::coordinates_of(cose) == Ok::<(Seq<u8>, Seq<u8>), Fault>((x, y)) <==> {
            &&& cbor::field(cose, CborValue::Integer(1)) == Some(CborValue::Integer(2))
            &&& cbor::field(cose, CborValue::Integer(3)) == Some(CborValue::Integer(-25))
            &&& cbor::field(cose, CborValue::Integer(-1)) == Some(CborValue::Integer(1))
            &&& cbor::field(cose, CborValue::Integer(-2)) == Some(CborValue::Bytes(x))
            &&& cbor::field(cose, CborValue::Integer(-3)) == Some(CborValue::Bytes(y))
            &&& x.len() == 32
            &&& y.len() == 32
        },
        pin::agreement_point(cose) == Ok::<(Seq<u8>, Seq<u8>), Fault>((x, y)) <==>
            pin::coordinates_of(cose) == Ok::<(Seq<u8>, Seq<u8>), Fault>((x, y))
            && curve::p256_on_curve(x, y),
        pin::coordinates_of(cose) == Ok::<(Seq<u8>, Seq<u8>), Fault>((x, y))
            && !curve::p256_on_curve(x, y) ==> pin::agreement_point(cose) == Err::<
            (Seq<u8>, Seq<u8>),
            Fault,
        >(Fault::Pin("authenticator pubkey is not on curve"@)),
        pin::agreement_point(cose) matches Err(fault) ==> fault is Pin,
{
}

/// The first thing that is wrong with a device's key is the one that is told.
pub proof fn law_first_problem_of_an_agreement_key_is_told(cose: CborValue)
    ensures
        ({
            let kty = cbor::field(cose, CborValue::Integer(1));
            let alg = cbor::field(cose, CborValue::Integer(3));
            let crv = cbor::field(cose, CborValue::Integer(-1));
            let x = cbor::field(cose, CborValue::Integer(-2));
            let y = cbor::field(cose, CborValue::Integer(-3));
            let told = |text: Seq<char>|
                pin::coordinates_of(cose) == Err::<(Seq<u8>, Seq<u8>), Fault>(Fault::Pin(text));
            let kty_good = kty == Some(CborValue::Integer(2));
            let alg_good = kty_good && alg == Some(CborValue::Integer(-25));
            let crv_good = alg_good && crv == Some(CborValue::Integer(1));
            &&& !(kty matches Some(CborValue::Integer(_))) ==> told("COSE key missing kty"@)
            &&& kty is Some && kty->0 is Integer && !kty_good ==> told("COSE key kty is not EC2"@)
            &&& kty_good && !(alg matches Some(CborValue::Integer(_))) ==> told(
                "COSE key missing alg"@,
            )
            &&& kty_good && alg is Some && alg->0 is Integer && !alg_good ==> told(
                "COSE key alg is not ECDH-ES+HKDF-256"@,
            )
            &&& alg_good && !(crv matches Some(CborValue::Integer(_))) ==> told(
                "COSE key missing crv"@,
            )
            &&& alg_good && crv is Some && crv->0 is Integer && !crv_good ==> told(
                "COSE key crv is not P-256"@,
            )
            &&& crv_good && !(x matches Some(CborValue::Bytes(_))) ==> told(
                "COSE key missing x coordinate"@,
            )
            &&& crv_good && (x matches Some(CborValue::Bytes(_))) && !(y matches Some(
                CborValue::Bytes(_),
            )) ==> told("COSE key missing y coordinate"@)
            &&& crv_good && x is Some && x->0 is Bytes && y is Some && y->0 is Bytes && !(
            x->0->Bytes_0.len() == 32 && y->0->Bytes_0.len() == 32) ==> told(
                "COSE key coordinates wrong length"@,
            )
        }),
{
}

/// A session holds the platform's own point and the digest of what its secret and the device's
/// point agree on; the device's point is the one in the key under 1 of the response.
pub proof fn law_session_is_the_agreement(
    secret: Seq<u8>,
    response: Seq<u8>,
    map: CborValue,
    cose: CborValue,
    x: Seq<u8>,
    y: Seq<u8>,
)
    requires
        cbor::whole_item(response) == Ok::<CborValue, Fault>(map),
    ensures
        cbor::field(map, CborValue::Integer(1)) is None ==> pin::established(secret, response)
            == Err::<Session, Fault>(
            Fault::Pin("getKeyAgreement response missing key agreement field"@),
        ),
        cbor::field(map, CborValue::Integer(1)) == Some(cose) ==> {
            &&& pin::agreement_point(cose) == Ok::<(Seq<u8>, Seq<u8>), Fault>((x, y)) ==> (
            pin::established(secret, response) matches Ok(session) && session.shared
                == digest::sha256(curve::p256_shared(secret, x, y)->0) && session.x == (
            curve::p256_public(secret)->0).0 && session.y == (curve::p256_public(secret)->0).1)
            &&& pin::agreement_point(cose) matches Err(fault) ==> pin::established(secret, response)
                == Err::<Session, Fault>(fault)
        },
{
}

/// What is no CBOR item fails alike, whatever it answers.
pub proof fn law_undecodable_responses_fail(secret: Seq<u8>, shared: Seq<u8>, response: Seq<u8>)
    ensures
        cbor::whole_item(response) matches Err(fault) ==> pin::established(secret, response)
            == Err::<Session, Fault>(fault) && pin::token_in(shared, response) == Err::<
            Seq<u8>,
            Fault,
        >(fault),
{
}

/// A PIN is hashed as a whole: its bytes are its UTF-8 encoding, from which it can be told.
pub proof fn law_pin_is_hashed_whole(pin: Seq<char>)
    ensures
        vstd::utf8::decode_utf8(pin::pin_bytes(pin)) == pin,
        pin::pin_bytes(pin) == vstd::utf8::encode_utf8(pin),
{
    vstd::utf8::encode_utf8_decode_utf8(pin);
}

/// No two PINs are hashed from the same bytes.
pub proof fn law_no_two_pins_share_their_bytes(a: Seq<char>, b: Seq<char>)
    requires
        pin::pin_bytes(a) == pin::pin_bytes(b),
    ensures
        a == b,
{
    law_pin_is_hashed_whole(a);
    law_pin_is_hashed_whole(b);
}

/// The exchange of a PIN for a token is protocol one, subcommand five, the platform's key, and
/// under 6 the first sixteen bytes of the PIN's digest, encrypted; nothing else.
pub proof fn law_token_parameters_by_number(session: Session, pin: Seq<char>, key: CborValue)
    ensures
        cbor::field(pin::token_parameters(session, pin), key) == (if key == CborValue::Integer(1) {
            Some(CborValue::Integer(1))
        } else if key == CborValue::Integer(2) {
            Some(CborValue::Integer(5))
        } else if key == CborValue::Integer(3) {
            Some(pin::agreement_key(session.x, session.y))
        } else if key == CborValue::Integer(6) {
            Some(
                CborValue::Bytes(
                    cbc::encrypted(
                        session.shared,
                        Seq::new(16, |i: int| 0u8),
                        digest::sha256(vstd::utf8::encode_utf8(pin)).take(16),
                    ),
                ),
            )
        } else {
            None
        }),
        pin::token_parameters(session, pin) matches CborValue::Mapping(entries) && entries.len()
            == 4 && entries[0].0 == CborValue::Integer(1) && entries[1].0 == CborValue::Integer(2)
            && entries[2].0 == CborValue::Integer(3),
{
    let entries = pin::token_parameters(session, pin)->Mapping_0;
    assert(cbc::zero_block() =~= Seq::new(16, |i: int| 0u8));
    if key == CborValue::Integer(1) {
        cbor::lemma_position_is(entries, key, 0);
    } else if key == CborValue::Integer(2) {
        cbor::lemma_position_is(entries, key, 1);
    } else if key == CborValue::Integer(3) {
        cbor::lemma_position_is(entries, key, 2);
    } else if key == CborValue::Integer(6) {
        cbor::lemma_position_is(entries, key, 3);
    } else {
        cbor::lemma_position_is(entries, key, 4);
    }
}

/// Whether the block cipher takes blocks to blocks under a key, and decryption undoes it.
pub open spec fn undone(key: Seq<u8>) -> bool {
    forall|block: Seq<u8>|
        block.len() == 16 ==> (#[trigger] cipher::aes256_encrypted(key, block)).len() == 16
            && cipher::aes256_decrypted(key, cipher::aes256_encrypted(key, block)) == block
}

/// A device that decrypts what is under 6 finds the first sixteen bytes of the digest of the
/// whole PIN, given that its block cipher undoes the platform's.
pub proof fn law_device_finds_the_pin_hash(session: Session, pin: Seq<char>)
    ensures
        undone(session.shared) && digest::sha256(vstd::utf8::encode_utf8(pin)).len() == 32 ==> (
        cbor::field(pin::token_parameters(session, pin), CborValue::Integer(6)) matches Some(
            CborValue::Bytes(sealed),
        ) && cbc::decrypted(session.shared, Seq::new(16, |i: int| 0u8), sealed) == digest::sha256(
            vstd::utf8::encode_utf8(pin),
        ).take(16)),
{
    law_token_parameters_by_number(session, pin, CborValue::Integer(6));
    if undone(session.shared) && digest::sha256(vstd::utf8::encode_utf8(pin)).len() == 32 {
        law_cbc_is_undone(
            session.shared,
            Seq::new(16, |i: int| 0u8),
            digest::sha256(vstd::utf8::encode_utf8(pin)).take(16),
        );
    }
}

/// Each block is xored with the encrypted one before it and then encrypted; the first is xored
/// with the block that the chain starts from.
pub proof fn law_cbc_chains_blocks(key: Seq<u8>, start: Seq<u8>, block: Seq<u8>, tail: Seq<u8>)
    requires
        start.len() == 16,
        block.len() == 16,
    ensures
        ({
            let mixed = Seq::new(16, |i: int| block[i] ^ start[i]);
            let sealed = cipher::aes256_encrypted(key, mixed);
            &&& cbc::encrypted(key, start, block + tail) == sealed + cbc::encrypted(
                key,
                sealed,
                tail,
            )
            &&& cbc::encrypted(key, start, Seq::empty()) == Seq::<u8>::empty()
        }),
        ({
            let opened = cipher::aes256_decrypted(key, block);
            let plain = Seq::new(16, |i: int| opened[i] ^ start[i]);
            &&& cbc::decrypted(key, start, block + tail) == plain + cbc::decrypted(key, block, tail)
            &&& cbc::decrypted(key, start, Seq::empty()) == Seq::<u8>::empty()
        }),
        cbc::zero_block() == Seq::new(16, |i: int| 0u8),
{
    assert((block + tail).take(16) =~= block);
    assert((block + tail).skip(16) =~= tail);
    assert(cbc::xored(block, start) =~= Seq::new(16, |i: int| block[i] ^ start[i]));
    let opened = cipher::aes256_decrypted(key, block);
    assert(cbc::xored(opened, start) =~= Seq::new(16, |i: int| opened[i] ^ start[i]));
    assert(cbc::zero_block() =~= Seq::new(16, |i: int| 0u8));
}

/// A ciphertext seals a plaintext block by block: the same number of bytes, each block the
/// encryption of the plaintext's, xored with the one before.
pub proof fn law_sealing_by_blocks(
    key: Seq<u8>,
    start: Seq<u8>,
    block: Seq<u8>,
    tail: Seq<u8>,
    sealed: Seq<u8>,
    rest: Seq<u8>,
)
    requires
        start.len() == 16,
        block.len() == 16,
        sealed.len() == 16,
    ensures
        cbc::seals(key, start, block + tail, sealed + rest) <==> {
            &&& sealed == cipher::aes256_encrypted(key, Seq::new(16, |i: int| block[i] ^ start[i]))
            &&& cbc::seals(key, sealed, tail, rest)
        },
        cbc::seals(key, start, Seq::empty(), Seq::empty()),
        cbc::seals(key, start, tail, rest) ==> tail.len() == rest.len(),
{
    assert((block + tail).take(16) =~= block);
    assert((block + tail).skip(16) =~= tail);
    assert((sealed + rest).take(16) =~= sealed);
    assert((sealed + rest).skip(16) =~= rest);
    assert(cbc::xored(block, start) =~= Seq::new(16, |i: int| block[i] ^ start[i]));
}

/// What is encrypted decrypts to what it was, given that the block cipher is undone.
pub proof fn law_cbc_is_undone(key: Seq<u8>, start: Seq<u8>, plaintext: Seq<u8>)
    requires
        start.len() == 16,
        plaintext.len() % 16 == 0,
    ensures
        undone(key) ==> cbc::decrypted(key, start, cbc::encrypted(key, start, plaintext))
            == plaintext && cbc::encrypted(key, start, plaintext).len() == plaintext.len(),
    decreases plaintext.len(),
{
    if undone(key) {
        if plaintext.len() == 0 {
            assert(plaintext =~= Seq::empty());
        } else {
            let block = plaintext.take(16);
            let tail = plaintext.skip(16);
            let mixed = Seq::new(16, |i: int| block[i] ^ start[i]);
            let sealed = cipher::aes256_encrypted(key, mixed);
            assert(plaintext =~= block + tail);
            law_cbc_chains_blocks(key, start, block, tail);
            law_cbc_is_undone(key, sealed, tail);
            law_cbc_chains_blocks(key, start, sealed, cbc::encrypted(key, sealed, tail));
            let opened = cipher::aes256_decrypted(key, sealed);
            assert(opened == mixed);
            let plain = Seq::new(16, |i: int| opened[i] ^ start[i]);
            assert forall|i: int| 0 <= i < 16 implies plain[i] == block[i] by {
                let a = block[i];
                let b = start[i];
                assert((a ^ b) ^ b == a) by (bit_vector);
            }
            assert(plain =~= block);
        }
    }
}

/// The token is what is sealed under 2, decrypted, where that is one, two or three blocks long.
pub proof fn law_token_is_what_is_sealed_under_two(
    shared: Seq<u8>,
    response: Seq<u8>,
    map: CborValue,
    sealed: Seq<u8>,
)
    requires
        cbor::whole_item(response) == Ok::<CborValue, Fault>(map),
    ensures
        cbor::field(map, CborValue::Integer(2)) == Some(CborValue::Bytes(sealed)) ==> (
        pin::token_in(shared, response) == (if sealed.len() == 16 || sealed.len() == 32
            || sealed.len() == 48 {
            Ok::<Seq<u8>, Fault>(
                cbc::decrypted(shared, Seq::new(16, |i: int| 0u8), sealed),
            )
        } else {
            Err(Fault::Pin("encrypted pinUvAuthToken length must be 16, 32, or 48 bytes"@))
        })),
        !(cbor::field(map, CborValue::Integer(2)) matches Some(CborValue::Bytes(_)))
            ==> pin::token_in(shared, response) == Err::<Seq<u8>, Fault>(
            Fault::Pin("getPinToken response missing token"@),
        ),
        cbor::field(map, CborValue::Integer(2)) == Some(CborValue::Bytes(sealed))
            && pin::token_in(shared, response) is Ok ==> pin::sealed_token_of(map) == Ok::<
            Seq<u8>,
            Fault,
        >(sealed),
{
    assert(cbc::zero_block() =~= Seq::new(16, |i: int| 0u8));
}

/// A message is authenticated by the first sixteen bytes of its HMAC-SHA256 tag under the key.
pub proof fn law_authentication_is_half_the_tag(message: Seq<u8>, key: Seq<u8>)
    ensures
        pin::half_tag(message, key) == digest::hmac_sha256_tag(message, key).take(16),
{
}

/// The response to the key agreement makes the session; without a PIN that is all, and with one
/// its exchange for a token goes out next.
pub proof fn law_exchange_after_agreement(
    exchange: PinExchange,
    secret: Seq<u8>,
    pin: Option<Seq<char>>,
    response: Seq<u8>,
    turn: Turn<PinExchange, (PinSession, Option<PinToken>)>,
)
    requires
        exchange matches PinExchange::Agreeing(agreement) && agreement@ == secret,
        pin::exchange_step(exchange, pin, response, turn),
    ensures
        match pin::established(secret, response) {
            Err(fault) => turn matches Turn::Done(Err(err)) && error::reports(err, fault),
            Ok(session) => match pin {
                None => turn matches Turn::Done(Ok((held, token))) && held@ == session && token
                    is None,
                Some(pin) => turn matches Turn::Send(payload, next) && payload@.len() > 0
                    && payload@[0] == 6 && cbor::decoded(payload@.skip(1)) == Some(
                    pin::token_parameters(session, pin),
                ) && (next matches PinExchange::Exchanging(held) && held@ == session),
            },
        },
{
}

/// The response to the exchange ends it with the token.
pub proof fn law_exchange_ends_with_the_token(
    exchange: PinExchange,
    session: Session,
    pin: Option<Seq<char>>,
    response: Seq<u8>,
    turn: Turn<PinExchange, (PinSession, Option<PinToken>)>,
)
    requires
        exchange matches PinExchange::Exchanging(held) && held@ == session,
        pin::exchange_step(exchange, pin, response, turn),
    ensures
        match pin::token_in(session.shared, response) {
            Err(fault) => turn matches Turn::Done(Err(err)) && error::reports(err, fault),
            Ok(bytes) => turn matches Turn::Done(Ok((held, token))) && held@ == session && (
            token matches Some(token) && token@ == bytes),
        },
{
}

} // verus!
