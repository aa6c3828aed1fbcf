//! `COSE_Key`s and signatures.

use crate::cbor;
use crate::cbor::CborValue;
use crate::cose;
use crate::error::Fault;
use crate::outside::curve;
use crate::outside::item;
use vstd::prelude::*;

verus! {

/// The keys that are accepted: ES256 ones with two coordinates on P-256, and EdDSA ones with one
/// on Ed25519, each of 32 bytes. No other is.
pub proof fn law_accepted_keys(key: CborValue)
    ensures
        cose::validated(key) is Ok <==> {
            let alg = cbor::field(key, CborValue::Integer(3));
            let kty = cbor::field(key, CborValue::Integer(1));
            let crv = cbor::field(key, CborValue::Integer(-1));
            let x = cbor::field(key, CborValue::Integer(-2));
            let y = cbor::field(key, CborValue::Integer(-3));
            ||| {
                &&& alg == Some(CborValue::Integer(-7))
                &&& kty == Some(CborValue::Integer(2))
                &&& crv == Some(CborValue::Integer(1))
                &&& x matches Some(CborValue::Bytes(bytes))
                &&& bytes.len() == 32
                &&& y matches Some(CborValue::Bytes(bytes))
                &&& bytes.len() == 32
            }
            ||| {
                &&& alg == Some(CborValue::Integer(-8))
                &&& kty == Some(CborValue::Integer(1))
                &&& crv == Some(CborValue::Integer(6))
                &&& x matches Some(CborValue::Bytes(bytes))
                &&& bytes.len() == 32
            }
        },
{
}

/// The first thing that is wrong with a key is the one that is told.
pub proof fn law_first_problem_of_a_key_is_told(key: CborValue)
    ensures
        ({
            let alg = cbor::field(key, CborValue::Integer(3));
            let kty = cbor::field(key, CborValue::Integer(1));
            let crv = cbor::field(key, CborValue::Integer(-1));
            let told = |text: Seq<char>| cose::validated(key) == Err::<(), Fault>(Fault::Pin(text));
            let supported = alg == Some(CborValue::Integer(-7)) || alg == Some(
                CborValue::Integer(-8),
            );
            &&& !(alg matches Some(CborValue::Integer(_))) ==> told("COSE key missing alg"@)
            &&& alg is Some && alg->0 is Integer && !supported ==> told(
                "unsupported COSE algorithm"@,
            )
            &&& supported && !(kty matches Some(CborValue::Integer(_))) ==> told(
                "COSE key missing kty"@,
            )
            &&& alg == Some(CborValue::Integer(-7)) && kty is Some && kty->0 is Integer && kty
                != Some(CborValue::Integer(2)) ==> told("ES256 COSE key kty is not EC2"@)
            &&& alg == Some(CborValue::Integer(-8)) && kty is Some && kty->0 is Integer && kty
                != Some(CborValue::Integer(1)) ==> told("EdDSA COSE key kty is not OKP"@)
            &&& alg == Some(CborValue::Integer(-7)) && kty == Some(CborValue::Integer(2)) ==> {
                &&& !(crv matches Some(CborValue::Integer(_))) ==> told("COSE key missing crv"@)
                &&& crv is Some && crv->0 is Integer && crv != Some(CborValue::Integer(1)) ==> told(
                    "ES256 COSE key crv is not P-256"@,
                )
            }
            &&& alg == Some(CborValue::Integer(-8)) && kty == Some(CborValue::Integer(1)) ==> {
                &&& !(crv matches Some(CborValue::Integer(_))) ==> told("COSE key missing crv"@)
                &&& crv is Some && crv->0 is Integer && crv != Some(CborValue::Integer(6)) ==> told(
                    "EdDSA COSE key crv is not Ed25519"@,
                )
            }
            &&& (alg == Some(CborValue::Integer(-7)) && kty == Some(CborValue::Integer(2)) && crv
                == Some(CborValue::Integer(1))) || (alg == Some(CborValue::Integer(-8)) && kty
                == Some(CborValue::Integer(1)) && crv == Some(CborValue::Integer(6))) ==> {
                let x = cbor::field(key, CborValue::Integer(-2));
                let y = cbor::field(key, CborValue::Integer(-3));
                &&& !(x is Some && x->0 is Bytes && x->0->Bytes_0.len() == 32) ==> told("x"@)
                &&& alg == Some(CborValue::Integer(-7)) && (x is Some && x->0 is Bytes
                    && x->0->Bytes_0.len() == 32) && !(y is Some && y->0 is Bytes
                    && y->0->Bytes_0.len() == 32) ==> told("y"@)
            }
        }),
        cose::validated(key) matches Err(fault) ==> fault is Pin,
{
}

/// An ES256 signature is accepted exactly where it is one over the message by the key's point.
pub proof fn law_es256_verification(
    key: CborValue,
    x: Seq<u8>,
    y: Seq<u8>,
    message: Seq<u8>,
    signature: Seq<u8>,
)
    requires
        cbor::field(key, CborValue::Integer(3)) == Some(CborValue::Integer(-7)),
        cbor::field(key, CborValue::Integer(-2)) == Some(CborValue::Bytes(x)),
        cbor::field(key, CborValue::Integer(-3)) == Some(CborValue::Bytes(y)),
    ensures
        cose::verified(key, message, signature) is Ok <==> curve::p256_on_curve(x, y)
            && curve::es256_is_signature(signature) && curve::es256_signed(
            x,
            y,
            message,
            signature,
        ),
        !curve::p256_on_curve(x, y) ==> cose::verified(key, message, signature) == Err::<
            (),
            Fault,
        >(Fault::Pin("ES256 pubkey not on curve"@)),
        curve::p256_on_curve(x, y) && !curve::es256_is_signature(signature) ==> cose::verified(
            key,
            message,
            signature,
        ) == Err::<(), Fault>(Fault::Pin("ES256 signature is not valid DER"@)),
        curve::p256_on_curve(x, y) && curve::es256_is_signature(signature)
            && !curve::es256_signed(x, y, message, signature) ==> cose::verified(
            key,
            message,
            signature,
        ) == Err::<(), Fault>(Fault::Pin("ES256 signature verification failed"@)),
{
}

/// An EdDSA signature is accepted exactly where it is one of 64 bytes over the message by the
/// key.
pub proof fn law_eddsa_verification(
    key: CborValue,
    x: Seq<u8>,
    message: Seq<u8>,
    signature: Seq<u8>,
)
    requires
        cbor::field(key, CborValue::Integer(3)) == Some(CborValue::Integer(-8)),
        cbor::field(key, CborValue::Integer(-2)) == Some(CborValue::Bytes(x)),
    ensures
        cose::verified(key, message, signature) is Ok <==> curve::ed25519_is_key(x)
            && signature.len() == 64 && curve::ed25519_signed(x, message, signature),
        !curve::ed25519_is_key(x) ==> cose::verified(key, message, signature) == Err::<(), Fault>(
            Fault::Pin("Ed25519 pubkey is not a valid compressed point"@),
        ),
        curve::ed25519_is_key(x) && signature.len() != 64 ==> cose::verified(
            key,
            message,
            signature,
        ) == Err::<(), Fault>(Fault::Pin("Ed25519 signature is not 64 bytes"@)),
        curve::ed25519_is_key(x) && signature.len() == 64 && !curve::ed25519_signed(
            x,
            message,
            signature,
        ) ==> cose::verified(key, message, signature) == Err::<(), Fault>(
            Fault::Pin("Ed25519 signature verification failed"@),
        ),
{
}

/// The key in some `authData` is the item that starts at the offset, byte for byte, and it ends
/// where the item ends.
pub proof fn law_key_is_the_item_at_the_offset(
    auth_data: Seq<u8>,
    offset: nat,
    key: CborValue,
    used: nat,
)
    ensures
        offset > auth_data.len() ==> cose::key_at(auth_data, offset) == Err::<
            (Seq<u8>, nat),
            Fault,
        >(Fault::Cbor(None)),
        offset <= auth_data.len() && item::leading_item(auth_data.skip(offset as int)) is None
            ==> cose::key_at(auth_data, offset) == Err::<(Seq<u8>, nat), Fault>(Fault::Cbor(None)),
        offset <= auth_data.len() && item::leading_item(auth_data.skip(offset as int)) == Some(
            (key, used),
        ) ==> match cose::key_at(auth_data, offset) {
            Ok((bytes, end)) => cose::validated(key) is Ok && bytes == auth_data.subrange(
                offset as int,
                (offset + used) as int,
            ) && end == offset + used,
            Err(fault) => cose::validated(key) == Err::<(), Fault>(fault),
        },
{
}

/// Stored bytes are those of a key exactly where one accepted item makes them up.
pub proof fn law_stored_keys(bytes: Seq<u8>, key: CborValue)
    requires
        item::leading_item(bytes) == Some((key, bytes.len())),
    ensures
        cose::is_valid_key(bytes) <==> cose::validated(key) is Ok,
        cbor::decoded(bytes) == Some(key),
{
}

} // verus!
