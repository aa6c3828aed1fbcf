//! `COSE_Key` parsing for credential public keys plus signature verification.

use crate::cbor;
use crate::cbor::{CborValue, Value};
use crate::error::{Error, Fault};
use crate::outside::curve;
use crate::outside::item;
use crate::text;
use vstd::prelude::*;

verus! {

/// COSE key type of an octet key pair.
pub const COSE_KTY_OKP: i128 = 1;

/// COSE key type of a key with two coordinates.
pub const COSE_KTY_EC2: i128 = 2;

/// COSE algorithm ES256.
pub const COSE_ALG_ES256: i128 = -7;

/// COSE algorithm EdDSA.
pub const COSE_ALG_EDDSA: i128 = -8;

/// COSE curve P-256.
pub const COSE_CRV_P256: i128 = 1;

/// COSE curve Ed25519.
pub const COSE_CRV_ED25519: i128 = 6;

/// Whether a key holds a byte string of the given length under `label`.
pub open spec fn holds_bytes(key: CborValue, label: int, len: nat) -> bool {
    cbor::bytes_field(key, label) matches Some(bytes) && bytes.len() == len
}

/// Whether an item is a `COSE_Key` that this library verifies signatures with, and what is
/// wrong with it otherwise.
pub open spec fn validated(key: CborValue) -> Result<(), Fault> {
    let alg = cbor::integer_field(key, 3);
    let kty = cbor::integer_field(key, 1);
    let crv = cbor::integer_field(key, -1);
    if alg is None {
        Err(Fault::Pin("COSE key missing alg"@))
    } else if alg == Some(COSE_ALG_ES256 as int) {
        if kty is None {
            Err(Fault::Pin("COSE key missing kty"@))
        } else if kty != Some(COSE_KTY_EC2 as int) {
            Err(Fault::Pin("ES256 COSE key kty is not EC2"@))
        } else if crv is None {
            Err(Fault::Pin("COSE key missing crv"@))
        } else if crv != Some(COSE_CRV_P256 as int) {
            Err(Fault::Pin("ES256 COSE key crv is not P-256"@))
        } else if !holds_bytes(key, -2, 32) {
            Err(Fault::Pin("x"@))
        } else if !holds_bytes(key, -3, 32) {
            Err(Fault::Pin("y"@))
        } else {
            Ok(())
        }
    } else if alg == Some(COSE_ALG_EDDSA as int) {
        if kty is None {
            Err(Fault::Pin("COSE key missing kty"@))
        } else if kty != Some(COSE_KTY_OKP as int) {
            Err(Fault::Pin("EdDSA COSE key kty is not OKP"@))
        } else if crv is None {
            Err(Fault::Pin("COSE key missing crv"@))
        } else if crv != Some(COSE_CRV_ED25519 as int) {
            Err(Fault::Pin("EdDSA COSE key crv is not Ed25519"@))
        } else if !holds_bytes(key, -2, 32) {
            Err(Fault::Pin("x"@))
        } else {
            Ok(())
        }
    } else {
        Err(Fault::Pin("unsupported COSE algorithm"@))
    }
}

/// Whether some bytes are the CBOR form of a `COSE_Key` that this library verifies signatures
/// with.
pub open spec fn is_valid_key(bytes: Seq<u8>) -> bool {
    cbor::decoded(bytes) matches Some(key) && validated(key) is Ok
}

/// Whether a signature over a message is one of a validated key, and why not otherwise.
pub open spec fn verified(key: CborValue, message: Seq<u8>, signature: Seq<u8>) -> Result<
    (),
    Fault,
> {
    let x = cbor::bytes_field(key, -2)->0;
    let y = cbor::bytes_field(key, -3)->0;
    if cbor::integer_field(key, 3) == Some(COSE_ALG_ES256 as int) {
        if !curve::p256_on_curve(x, y) {
            Err(Fault::Pin("ES256 pubkey not on curve"@))
        } else if !curve::es256_is_signature(signature) {
            Err(Fault::Pin("ES256 signature is not valid DER"@))
        } else if !curve::es256_signed(x, y, message, signature) {
            Err(Fault::Pin("ES256 signature verification failed"@))
        } else {
            Ok(())
        }
    } else {
        if !curve::ed25519_is_key(x) {
            Err(Fault::Pin("Ed25519 pubkey is not a valid compressed point"@))
        } else if signature.len() != 64 {
            Err(Fault::Pin("Ed25519 signature is not 64 bytes"@))
        } else if !curve::ed25519_signed(x, message, signature) {
            Err(Fault::Pin("Ed25519 signature verification failed"@))
        } else {
            Ok(())
        }
    }
}

/// What is wrong with a key, or with a signature under a valid one, is always reported as
/// [`Error::Pin`].
pub proof fn law_key_failures_are_pin_errors(
    key: CborValue,
    message: Seq<u8>,
    signature: Seq<u8>,
)
    ensures
        validated(key) matches Err(fault) ==> fault is Pin,
        verified(key, message, signature) matches Err(fault) ==> fault is Pin,
{
}

/// The key that starts at an offset of some `authData`, and the offset behind it.
pub open spec fn key_at(auth_data: Seq<u8>, offset: nat) -> Result<(Seq<u8>, nat), Fault> {
    if offset > auth_data.len() {
        Err(Fault::Cbor(None))
    } else {
        match item::leading_item(auth_data.skip(offset as int)) {
            None => Err(Fault::Cbor(None)),
            Some((key, used)) => match validated(key) {
                Err(fault) => Err(fault),
                Ok(_) => Ok(
                    (auth_data.subrange(offset as int, (offset + used) as int), offset + used),
                ),
            },
        }
    }
}

/// A credential public key returned by `makeCredential`. Opaque to callers. Store
/// [`Self::as_cose_bytes`] alongside the credential id and hand it back at assertion time.
#[derive(Debug, PartialEq, Eq)]
pub struct CredentialPublicKey {
    cose_bytes: Vec<u8>,
}

impl View for CredentialPublicKey {
    type V = Seq<u8>;

    closed spec fn view(&self) -> Seq<u8> {
        self.cose_bytes@
    }
}

impl CredentialPublicKey {
    #[verifier::type_invariant]
    spec fn inv(self) -> bool {
        is_valid_key(self.cose_bytes@)
    }

    /// CBOR-encoded `COSE_Key` bytes. They are always those of a valid key, so
    /// [`Self::from_cose_bytes`] takes them back.
    pub fn as_cose_bytes(&self) -> (r: &[u8])
        ensures
            r@ == self@,
            is_valid_key(r@),
    {
        proof {
            use_type_invariant(self);
        }
        self.cose_bytes.as_slice()
    }

    /// Build from previously persisted COSE bytes. Validates the algorithm and key shape so a
    /// malformed blob fails here rather than at verification time.
    ///
    /// # Errors
    ///
    /// [`Error::Cbor`] if `bytes` isn't valid CBOR. [`Error::Pin`] if the COSE metadata names
    /// an unsupported algorithm or the key fields are missing.
    pub fn from_cose_bytes(bytes: Vec<u8>) -> (r: Result<CredentialPublicKey, Error>)
        ensures
            crate::error::agrees(
                r,
                match cbor::whole_item(bytes@) {
                    Err(fault) => Err(fault),
                    Ok(key) => match validated(key) {
                        Err(fault) => Err(fault),
                        Ok(_) => Ok(bytes@),
                    },
                },
            ),
    {
        let value = cbor::decode(bytes.as_slice())?;
        validate(&value)?;
        Ok(CredentialPublicKey { cose_bytes: bytes })
    }

    /// Verify `signature` over `message` with this key.
    ///
    /// # Errors
    ///
    /// [`Error::Pin`] if the signature doesn't validate.
    pub fn verify(&self, message: &[u8], signature: &[u8]) -> (r: Result<(), Error>)
        ensures
            crate::error::seen(r) == verified(cbor::decoded(self@)->0, message@, signature@),
    {
        proof {
            use_type_invariant(self);
        }
        let value = cbor::decode(self.cose_bytes.as_slice())?;
        verify_with(&value, message, signature)
    }
}

impl Clone for CredentialPublicKey {
    fn clone(&self) -> (r: CredentialPublicKey)
        ensures
            r@ == self@,
    {
        proof {
            use_type_invariant(self);
        }
        CredentialPublicKey { cose_bytes: text::copy_bytes(self.cose_bytes.as_slice()) }
    }
}

/// Parse the credential public key out of a `WebAuthn` `authData` blob.
///
/// Starts at `offset` and returns the parsed key plus the new offset, which lands on the
/// extensions blob if present.
///
/// # Errors
///
/// [`Error::Cbor`] on a malformed COSE value or an offset behind the end, [`Error::Pin`] on
/// unsupported COSE metadata.
pub fn parse_authdata_pubkey(auth_data: &[u8], offset: usize) -> (r: Result<
    (CredentialPublicKey, usize),
    Error,
>)
    ensures
        match r {
            Ok((key, end)) => key_at(auth_data@, offset as nat) == Ok::<(Seq<u8>, nat), Fault>(
                (key@, end as nat),
            ) && offset <= end <= auth_data@.len(),
            Err(err) => key_at(auth_data@, offset as nat) matches Err(fault)
                && crate::error::reports(err, fault),
        },
{
    let start: usize = if offset > auth_data.len() {
        auth_data.len()
    } else {
        offset
    };
    let rest = vstd::slice::slice_subrange(auth_data, start, auth_data.len());
    assert(rest@ =~= auth_data@.skip(start as int));
    let (value, used) = cbor::decode_leading(rest)?;
    validate(&value)?;
    let end: usize = offset + used;
    let cose_bytes = text::copy_bytes(vstd::slice::slice_subrange(auth_data, offset, end));
    assert(cose_bytes@ =~= rest@.take(used as int));
    Ok((CredentialPublicKey { cose_bytes }, end))
}

/// Check that a value is a `COSE_Key` that signatures can be verified with.
///
/// # Errors
///
/// [`Error::Pin`] if the COSE metadata names an unsupported algorithm or the key fields are
/// missing.
pub fn validate(value: &Value) -> (r: Result<(), Error>)
    ensures
        crate::error::seen(r) == validated(value@),
{
    let alg: i128 = cose_int(value, 3, "COSE key missing alg")?;
    if alg == COSE_ALG_ES256 {
        let kty: i128 = cose_int(value, 1, "COSE key missing kty")?;
        if kty != COSE_KTY_EC2 {
            return Err(Error::Pin("ES256 COSE key kty is not EC2"));
        }
        let crv: i128 = cose_int(value, -1, "COSE key missing crv")?;
        if crv != COSE_CRV_P256 {
            return Err(Error::Pin("ES256 COSE key crv is not P-256"));
        }
        require_bytes(value, -2, 32, "x")?;
        require_bytes(value, -3, 32, "y")?;
        Ok(())
    } else if alg == COSE_ALG_EDDSA {
        let kty: i128 = cose_int(value, 1, "COSE key missing kty")?;
        if kty != COSE_KTY_OKP {
            return Err(Error::Pin("EdDSA COSE key kty is not OKP"));
        }
        let crv: i128 = cose_int(value, -1, "COSE key missing crv")?;
        if crv != COSE_CRV_ED25519 {
            return Err(Error::Pin("EdDSA COSE key crv is not Ed25519"));
        }
        require_bytes(value, -2, 32, "x")?;
        Ok(())
    } else {
        Err(Error::Pin("unsupported COSE algorithm"))
    }
}

/// Verify `signature` over `message` with a decoded key that [`validate`] accepts.
///
/// # Errors
///
/// [`Error::Pin`] if the signature doesn't validate.
pub fn verify_with(key: &Value, message: &[u8], signature: &[u8]) -> (r: Result<(), Error>)
    requires
        validated(key@) is Ok,
    ensures
        crate::error::seen(r) == verified(key@, message@, signature@),
{
    let alg: i128 = cose_int(key, 3, "COSE key missing alg")?;
    if alg == COSE_ALG_ES256 {
        verify_es256(key, message, signature)
    } else {
        verify_eddsa(key, message, signature)
    }
}

fn verify_es256(value: &Value, message: &[u8], signature: &[u8]) -> (r: Result<(), Error>)
    requires
        cbor::integer_field(value@, 3) == Some(COSE_ALG_ES256 as int),
        holds_bytes(value@, -2, 32),
        holds_bytes(value@, -3, 32),
    ensures
        crate::error::seen(r) == verified(value@, message@, signature@),
{
    let x = text::to_array::<32>(require_bytes(value, -2, 32, "x")?);
    let y = text::to_array::<32>(require_bytes(value, -3, 32, "y")?);
    if !curve::on_curve(&x, &y) {
        return Err(Error::Pin("ES256 pubkey not on curve"));
    }
    if !curve::is_es256_signature(signature) {
        return Err(Error::Pin("ES256 signature is not valid DER"));
    }
    if !curve::es256_verify(&x, &y, message, signature) {
        return Err(Error::Pin("ES256 signature verification failed"));
    }
    Ok(())
}

fn verify_eddsa(value: &Value, message: &[u8], signature: &[u8]) -> (r: Result<(), Error>)
    requires
        cbor::integer_field(value@, 3) == Some(COSE_ALG_EDDSA as int),
        holds_bytes(value@, -2, 32),
    ensures
        crate::error::seen(r) == verified(value@, message@, signature@),
{
    let x = text::to_array::<32>(require_bytes(value, -2, 32, "x")?);
    if !curve::is_ed25519_key(&x) {
        return Err(Error::Pin("Ed25519 pubkey is not a valid compressed point"));
    }
    if signature.len() != 64 {
        return Err(Error::Pin("Ed25519 signature is not 64 bytes"));
    }
    let bytes = text::to_array::<64>(signature);
    if !curve::ed25519_verify(&x, message, &bytes) {
        return Err(Error::Pin("Ed25519 signature verification failed"));
    }
    Ok(())
}

fn cose_int(value: &Value, key: i128, label: &'static str) -> (r: Result<i128, Error>)
    ensures
        match r {
            Ok(i) => cbor::integer_field(value@, key as int) == Some(i as int),
            Err(err) => cbor::integer_field(value@, key as int) is None && err@ == Fault::Pin(
                label@,
            ),
        },
{
    match cbor::get_integer(value, key) {
        Some(i) => Ok(i),
        None => Err(Error::Pin(label)),
    }
}

fn require_bytes<'a>(value: &'a Value, key: i128, len: usize, label: &'static str) -> (r: Result<
    &'a [u8],
    Error,
>)
    ensures
        match r {
            Ok(bytes) => cbor::bytes_field(value@, key as int) == Some(bytes@) && bytes@.len()
                == len,
            Err(err) => !holds_bytes(value@, key as int, len as nat) && err@ == Fault::Pin(label@),
        },
{
    match cbor::get_bytes(value, key) {
        Some(bytes) => if bytes.len() == len {
            Ok(bytes.as_slice())
        } else {
            Err(Error::Pin(label))
        },
        None => Err(Error::Pin(label)),
    }
}

} // verus!
