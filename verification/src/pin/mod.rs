//! CTAP `authenticatorClientPIN`, PIN protocol v1.
//!
//! Each step of the protocol is a request to send and a response to read. The caller sends the
//! request, for instance through [`Transport::transact`](crate::hid::Transport::transact), and
//! hands the response body to the function that reads it.

use crate::cbor;
use crate::cbor::{CborValue, Value};
use crate::cmd::Turn;
use crate::error::{Error, Fault};
use crate::laws::pins;
use crate::outside::{curve, digest, memory};
use crate::secret::SecretKey32;
use crate::text;
use vstd::prelude::*;

pub mod cbc;

verus! {

/// `clientPin` command byte.
pub const CLIENT_PIN_COMMAND: u8 = 0x06;

/// `clientPin` subcommand: read remaining PIN retry count.
pub const GET_PIN_RETRIES: u8 = 0x01;

/// `clientPin` subcommand: ECDH key agreement.
pub const GET_KEY_AGREEMENT: u8 = 0x02;

/// `clientPin` subcommand: set the device's PIN.
pub const SET_PIN: u8 = 0x03;

/// `clientPin` subcommand: change the device's PIN.
pub const CHANGE_PIN: u8 = 0x04;

/// `clientPin` subcommand: exchange PIN for `pinUvAuthToken`.
pub const GET_PIN_TOKEN: u8 = 0x05;

/// PIN protocol v1 identifier.
pub const PROTOCOL_V1: u64 = 1;

/// COSE key type of a key with two coordinates.
pub const COSE_KTY_EC2: i128 = 2;

/// COSE algorithm that CTAP2 names for key agreement.
pub const COSE_ALG_ECDH_ES_HKDF_256: i128 = -25;

/// COSE curve P-256.
pub const COSE_CRV_P256: i128 = 1;

/// The parameters of a `clientPin` subcommand that takes none of its own.
pub open spec fn subcommand_parameters(subcommand: u8) -> CborValue {
    CborValue::Mapping(
        seq![
            (CborValue::Integer(1), CborValue::Integer(PROTOCOL_V1 as int)),
            (CborValue::Integer(2), CborValue::Integer(subcommand as int)),
        ],
    )
}

/// A `clientPin` subcommand that takes no parameters of its own.
fn subcommand_request(subcommand: u8) -> (r: Result<Vec<u8>, Error>)
    ensures
        r matches Ok(payload) && cbor::is_command(
            payload@,
            CLIENT_PIN_COMMAND,
            subcommand_parameters(subcommand),
        ),
{
    let mut entries: Vec<(Value, Value)> = Vec::new();
    entries.push((Value::Integer(1), Value::Integer(PROTOCOL_V1 as i128)));
    entries.push((Value::Integer(2), Value::Integer(subcommand as i128)));
    proof {
        let models = subcommand_parameters(subcommand)->Mapping_0;
        assert(cbor::entry_models(entries@) =~= models);
        cbor::lemma_mapping_model(entries);
        cbor::lemma_faithful_mapping(models, 0);
        cbor::lemma_faithful_deeper(
            subcommand_parameters(subcommand),
            1,
            cbor::MAX_NESTING as nat,
        );
    }
    cbor::encode_command(CLIENT_PIN_COMMAND, &Value::Mapping(entries))
}

/// The request for the number of PIN attempts left.
pub fn pin_retries_request() -> (r: Result<Vec<u8>, Error>)
    ensures
        r matches Ok(payload) && cbor::is_command(
            payload@,
            CLIENT_PIN_COMMAND,
            subcommand_parameters(GET_PIN_RETRIES),
        ),
{
    subcommand_request(GET_PIN_RETRIES)
}

/// The number of PIN attempts that a response map holds.
pub open spec fn retries_of(map: CborValue) -> Result<u8, Fault> {
    match cbor::integer_field(map, 3) {
        None => Err(Fault::Pin("getPinRetries response missing pinRetries"@)),
        Some(retries) => if 0 <= retries < 256 {
            Ok(retries as u8)
        } else {
            Err(Fault::Pin("getPinRetries value out of u8 range"@))
        },
    }
}

/// The number of PIN attempts in a decoded response.
///
/// # Errors
///
/// [`Error::Pin`] if the number is missing or out of range.
pub fn parse_pin_retries(map: &Value) -> (r: Result<u8, Error>)
    ensures
        crate::error::seen(r) == retries_of(map@),
{
    match cbor::get_integer(map, 3) {
        None => Err(Error::Pin("getPinRetries response missing pinRetries")),
        Some(retries) => if 0 <= retries && retries < 256 {
            Ok(retries as u8)
        } else {
            Err(Error::Pin("getPinRetries value out of u8 range"))
        },
    }
}

/// Returns PIN attempts remaining before the authenticator permanently blocks, from the
/// response to [`pin_retries_request`].
///
/// # Errors
///
/// [`Error::Cbor`] if the response is no CBOR item, [`Error::Pin`] if the number is missing or
/// out of range.
pub fn get_pin_retries(response: &[u8]) -> (r: Result<u8, Error>)
    ensures
        crate::error::agrees(
            r,
            match cbor::whole_item(response@) {
                Err(fault) => Err(fault),
                Ok(map) => retries_of(map),
            },
        ),
{
    let map = cbor::decode(response)?;
    parse_pin_retries(&map)
}

/// The `COSE_Key` map of a P-256 point, as CTAP2 key agreement writes it.
pub open spec fn agreement_key(x: Seq<u8>, y: Seq<u8>) -> CborValue {
    CborValue::Mapping(
        seq![
            (CborValue::Integer(1), CborValue::Integer(COSE_KTY_EC2 as int)),
            (CborValue::Integer(3), CborValue::Integer(COSE_ALG_ECDH_ES_HKDF_256 as int)),
            (CborValue::Integer(-1), CborValue::Integer(COSE_CRV_P256 as int)),
            (CborValue::Integer(-2), CborValue::Bytes(x)),
            (CborValue::Integer(-3), CborValue::Bytes(y)),
        ],
    )
}

/// The coordinates that a `COSE_Key` map for key agreement holds.
pub open spec fn coordinates_of(cose: CborValue) -> Result<(Seq<u8>, Seq<u8>), Fault> {
    let x = cbor::bytes_field(cose, -2);
    let y = cbor::bytes_field(cose, -3);
    if cbor::integer_field(cose, 1) is None {
        Err(Fault::Pin("COSE key missing kty"@))
    } else if cbor::integer_field(cose, 1) != Some(COSE_KTY_EC2 as int) {
        Err(Fault::Pin("COSE key kty is not EC2"@))
    } else if cbor::integer_field(cose, 3) is None {
        Err(Fault::Pin("COSE key missing alg"@))
    } else if cbor::integer_field(cose, 3) != Some(COSE_ALG_ECDH_ES_HKDF_256 as int) {
        Err(Fault::Pin("COSE key alg is not ECDH-ES+HKDF-256"@))
    } else if cbor::integer_field(cose, -1) is None {
        Err(Fault::Pin("COSE key missing crv"@))
    } else if cbor::integer_field(cose, -1) != Some(COSE_CRV_P256 as int) {
        Err(Fault::Pin("COSE key crv is not P-256"@))
    } else if x is None {
        Err(Fault::Pin("COSE key missing x coordinate"@))
    } else if y is None {
        Err(Fault::Pin("COSE key missing y coordinate"@))
    } else if x->0.len() != 32 || y->0.len() != 32 {
        Err(Fault::Pin("COSE key coordinates wrong length"@))
    } else {
        Ok((x->0, y->0))
    }
}

/// The P-256 point that a `COSE_Key` map for key agreement holds.
pub open spec fn agreement_point(cose: CborValue) -> Result<(Seq<u8>, Seq<u8>), Fault> {
    match coordinates_of(cose) {
        Err(fault) => Err(fault),
        Ok((x, y)) => if curve::p256_on_curve(x, y) {
            Ok((x, y))
        } else {
            Err(Fault::Pin("authenticator pubkey is not on curve"@))
        },
    }
}

/// Whoever reads a key that was written for key agreement finds the point it was written from,
/// as long as it is one.
pub proof fn law_agreement_key_round_trip(x: Seq<u8>, y: Seq<u8>)
    requires
        x.len() == 32,
        y.len() == 32,
    ensures
        agreement_point(agreement_key(x, y)) == (if curve::p256_on_curve(x, y) {
            Ok::<(Seq<u8>, Seq<u8>), Fault>((x, y))
        } else {
            Err(Fault::Pin("authenticator pubkey is not on curve"@))
        }),
{
    let entries = agreement_key(x, y)->Mapping_0;
    cbor::lemma_position_is(entries, cbor::number_key(1), 0);
    cbor::lemma_position_is(entries, cbor::number_key(3), 1);
    cbor::lemma_position_is(entries, cbor::number_key(-1), 2);
    cbor::lemma_position_is(entries, cbor::number_key(-2), 3);
    cbor::lemma_position_is(entries, cbor::number_key(-3), 4);
}

/// A key for key agreement survives the way through CBOR.
pub proof fn lemma_agreement_key_faithful(x: Seq<u8>, y: Seq<u8>)
    ensures
        cbor::faithful(agreement_key(x, y), 1),
{
    cbor::lemma_faithful_mapping(agreement_key(x, y)->Mapping_0, 0);
}

/// The coordinates in a `COSE_Key` map for key agreement, on the curve or not.
///
/// # Errors
///
/// [`Error::Pin`] if a field is missing or of another kind than key agreement uses.
pub fn parse_coordinates(cose: &Value) -> (r: Result<([u8; 32], [u8; 32]), Error>)
    ensures
        crate::error::seen(r) == coordinates_of(cose@),
{
    match cbor::get_integer(cose, 1) {
        None => return Err(Error::Pin("COSE key missing kty")),
        Some(kty) => if kty != COSE_KTY_EC2 {
            return Err(Error::Pin("COSE key kty is not EC2"));
        },
    }
    match cbor::get_integer(cose, 3) {
        None => return Err(Error::Pin("COSE key missing alg")),
        Some(alg) => if alg != COSE_ALG_ECDH_ES_HKDF_256 {
            return Err(Error::Pin("COSE key alg is not ECDH-ES+HKDF-256"));
        },
    }
    match cbor::get_integer(cose, -1) {
        None => return Err(Error::Pin("COSE key missing crv")),
        Some(crv) => if crv != COSE_CRV_P256 {
            return Err(Error::Pin("COSE key crv is not P-256"));
        },
    }
    let x_field = match cbor::get_bytes(cose, -2) {
        None => return Err(Error::Pin("COSE key missing x coordinate")),
        Some(bytes) => bytes,
    };
    let y_field = match cbor::get_bytes(cose, -3) {
        None => return Err(Error::Pin("COSE key missing y coordinate")),
        Some(bytes) => bytes,
    };
    if x_field.len() != 32 || y_field.len() != 32 {
        return Err(Error::Pin("COSE key coordinates wrong length"));
    }
    let x = text::to_array::<32>(x_field.as_slice());
    let y = text::to_array::<32>(y_field.as_slice());
    Ok((x, y))
}

/// Decode a `COSE_Key` map carrying a P-256 public key (used in `getKeyAgreement` responses).
///
/// # Errors
///
/// [`Error::Pin`] as for [`parse_coordinates`], and if the coordinates are no curve point.
pub fn parse_cose_p256_pubkey(cose: &Value) -> (r: Result<([u8; 32], [u8; 32]), Error>)
    ensures
        crate::error::seen(r) == agreement_point(cose@),
{
    let (x, y) = parse_coordinates(cose)?;
    if curve::on_curve(&x, &y) {
        Ok((x, y))
    } else {
        Err(Error::Pin("authenticator pubkey is not on curve"))
    }
}

/// Encode the platform's P-256 public key as a `COSE_Key` for inclusion in `clientPin` and
/// extension request maps.
pub fn encode_platform_cose_pubkey(x: &[u8; 32], y: &[u8; 32]) -> (r: Value)
    ensures
        r@ == agreement_key(x@, y@),
{
    let mut entries: Vec<(Value, Value)> = Vec::new();
    entries.push((Value::Integer(1), Value::Integer(COSE_KTY_EC2)));
    entries.push((Value::Integer(3), Value::Integer(COSE_ALG_ECDH_ES_HKDF_256)));
    entries.push((Value::Integer(-1), Value::Integer(COSE_CRV_P256)));
    entries.push((Value::Integer(-2), Value::Bytes(text::copy_bytes(x.as_slice()))));
    entries.push((Value::Integer(-3), Value::Bytes(text::copy_bytes(y.as_slice()))));
    proof {
        cbor::lemma_mapping_model(entries);
        assert(cbor::entry_models(entries@) =~= agreement_key(x@, y@)->Mapping_0);
    }
    Value::Mapping(entries)
}

/// The platform's half of a key agreement: a P-256 secret, wiped on drop, and its public point.
pub struct KeyAgreement {
    secret: SecretKey32,
    x: [u8; 32],
    y: [u8; 32],
}

impl View for KeyAgreement {
    type V = Seq<u8>;

    /// The secret.
    closed spec fn view(&self) -> Seq<u8> {
        self.secret@
    }
}

impl KeyAgreement {
    #[verifier::type_invariant]
    spec fn inv(self) -> bool {
        curve::p256_public(self.secret@) == Some((self.x@, self.y@))
    }

    /// A fresh random secret.
    pub fn generate() -> (agreement: KeyAgreement)
        ensures
            curve::p256_public(agreement@) is Some,
    {
        KeyAgreement::from_secret(curve::random_secret()).unwrap()
    }

    /// A given secret; `None` where the bytes are no P-256 secret.
    pub fn from_secret(secret: [u8; 32]) -> (r: Option<KeyAgreement>)
        ensures
            match r {
                Some(agreement) => agreement@ == secret@ && curve::p256_public(secret@) is Some,
                None => curve::p256_public(secret@) is None,
            },
    {
        let secret = SecretKey32::new(secret);
        match curve::public_point(secret.as_bytes()) {
            Some((x, y)) => Some(KeyAgreement { secret, x, y }),
            None => None,
        }
    }

    /// The public point, as `(x, y)`.
    pub fn public_key(&self) -> (r: ([u8; 32], [u8; 32]))
        ensures
            curve::p256_public(self@) == Some((r.0@, r.1@)),
    {
        proof {
            use_type_invariant(self);
        }
        (self.x, self.y)
    }

    /// The request for the authenticator's half.
    pub fn request(&self) -> (r: Result<Vec<u8>, Error>)
        ensures
            r matches Ok(payload) && cbor::is_command(
                payload@,
                CLIENT_PIN_COMMAND,
                subcommand_parameters(GET_KEY_AGREEMENT),
            ),
    {
        subcommand_request(GET_KEY_AGREEMENT)
    }
}

/// What a [`PinSession`] holds: the shared secret and the platform's public point.
pub struct Session {
    pub shared: Seq<u8>,
    pub x: Seq<u8>,
    pub y: Seq<u8>,
}

/// Per-session PIN state. Holds the AES-CBC shared secret derived from
/// `ECDH(platform_priv, authenticator_pub)`, wiped on drop, plus the platform's public key for
/// follow-up subcommands.
pub struct PinSession {
    /// The AES-CBC key for `pinHashEnc` / `saltEnc` and the HMAC-SHA256 key for `saltAuth`.
    shared_secret: SecretKey32,
    /// The platform's P-256 public point.
    x: [u8; 32],
    y: [u8; 32],
}

impl View for PinSession {
    type V = Session;

    closed spec fn view(&self) -> Session {
        Session { shared: self.shared_secret@, x: self.x@, y: self.y@ }
    }
}

/// The authenticator's `COSE_Key` in a key agreement response map.
pub open spec fn key_field_of(map: CborValue) -> Result<CborValue, Fault> {
    match cbor::field(map, cbor::number_key(1)) {
        None => Err(Fault::Pin("getKeyAgreement response missing key agreement field"@)),
        Some(cose) => Ok(cose),
    }
}

/// The authenticator's `COSE_Key` in a decoded key agreement response.
///
/// # Errors
///
/// [`Error::Pin`] if it is missing.
pub fn key_field(map: &Value) -> (r: Result<&Value, Error>)
    ensures
        crate::error::seen(r) == key_field_of(map@),
{
    match cbor::get_int_field(map, 1) {
        Some(cose) => Ok(cose),
        None => Err(Error::Pin("getKeyAgreement response missing key agreement field")),
    }
}

/// The session that a platform secret and the response to its key agreement request give. The
/// shared secret is the SHA-256 digest of the ECDH x-coordinate.
pub open spec fn established(secret: Seq<u8>, response: Seq<u8>) -> Result<Session, Fault> {
    match cbor::whole_item(response) {
        Err(fault) => Err(fault),
        Ok(map) => match key_field_of(map) {
            Err(fault) => Err(fault),
            Ok(cose) => match agreement_point(cose) {
                Err(fault) => Err(fault),
                Ok((x, y)) => Ok(
                    Session {
                        shared: digest::sha256(curve::p256_shared(secret, x, y)->0),
                        x: (curve::p256_public(secret)->0).0,
                        y: (curve::p256_public(secret)->0).1,
                    },
                ),
            },
        },
    }
}

/// The bytes of a PIN as it is hashed.
pub open spec fn pin_bytes(pin: Seq<char>) -> Seq<u8> {
    vstd::utf8::encode_utf8(pin)
}

/// The parameters that exchange a PIN for a token: the PIN travels as the first half of its
/// SHA-256 digest, encrypted under the shared secret.
pub open spec fn token_parameters(session: Session, pin: Seq<char>) -> CborValue {
    CborValue::Mapping(
        seq![
            (CborValue::Integer(1), CborValue::Integer(PROTOCOL_V1 as int)),
            (CborValue::Integer(2), CborValue::Integer(GET_PIN_TOKEN as int)),
            (CborValue::Integer(3), agreement_key(session.x, session.y)),
            (
                CborValue::Integer(6),
                CborValue::Bytes(
                    cbc::encrypted(
                        session.shared,
                        cbc::zero_block(),
                        digest::sha256(pin_bytes(pin)).take(16),
                    ),
                ),
            ),
        ],
    )
}

/// The encrypted token in a token response map.
pub open spec fn sealed_token_of(map: CborValue) -> Result<Seq<u8>, Fault> {
    match cbor::bytes_field(map, 2) {
        None => Err(Fault::Pin("getPinToken response missing token"@)),
        Some(sealed) => if sealed.len() == 16 || sealed.len() == 32 || sealed.len() == 48 {
            Ok(sealed)
        } else {
            Err(Fault::Pin("encrypted pinUvAuthToken length must be 16, 32, or 48 bytes"@))
        },
    }
}

/// The encrypted token in a decoded token response.
///
/// # Errors
///
/// [`Error::Pin`] if it is missing or its length is not a valid AES block multiple up to 48
/// bytes.
pub fn sealed_token(map: &Value) -> (r: Result<&[u8], Error>)
    ensures
        crate::error::seen(r) == sealed_token_of(map@),
{
    let sealed = match cbor::get_bytes(map, 2) {
        Some(sealed) => sealed,
        None => return Err(Error::Pin("getPinToken response missing token")),
    };
    if sealed.len() == 0 || sealed.len() % 16 != 0 || sealed.len() > 48 {
        return Err(Error::Pin("encrypted pinUvAuthToken length must be 16, 32, or 48 bytes"));
    }
    Ok(sealed.as_slice())
}

/// The token in a response, decrypted under the shared secret.
pub open spec fn token_in(shared: Seq<u8>, response: Seq<u8>) -> Result<Seq<u8>, Fault> {
    match cbor::whole_item(response) {
        Err(fault) => Err(fault),
        Ok(map) => match sealed_token_of(map) {
            Err(fault) => Err(fault),
            Ok(sealed) => Ok(cbc::decrypted(shared, cbc::zero_block(), sealed)),
        },
    }
}

impl PinSession {
    /// Derive the shared secret from the platform's half of the key agreement and the response
    /// to [`KeyAgreement::request`].
    ///
    /// # Errors
    ///
    /// [`Error::Cbor`] if the response is no CBOR item, [`Error::Pin`] if the authenticator's
    /// `COSE_Key` is missing or malformed.
    pub fn establish(agreement: KeyAgreement, response: &[u8]) -> (r: Result<PinSession, Error>)
        ensures
            crate::error::agrees(r, established(agreement@, response@)),
            r matches Ok(session) ==> session@.shared.len() == 32 && session@.x.len() == 32
                && session@.y.len() == 32,
    {
        proof {
            use_type_invariant(&agreement);
        }
        let map = cbor::decode(response)?;
        let (x, y) = parse_cose_p256_pubkey(key_field(&map)?)?;
        let mut shared: [u8; 32] = curve::shared_x(agreement.secret.as_bytes(), &x, &y).unwrap();
        let shared_secret = SecretKey32::new(digest::hash(shared.as_slice()));
        memory::wipe_array(&mut shared);
        Ok(PinSession { shared_secret, x: agreement.x, y: agreement.y })
    }

    /// The request that exchanges a PIN for a `pinUvAuthToken`, with the PIN encrypted under
    /// the shared secret: whoever holds that secret finds the first half of the PIN's digest.
    pub fn pin_token_request(&self, pin: &str) -> (r: Result<Vec<u8>, Error>)
        ensures
            r matches Ok(payload) && cbor::is_command(
                payload@,
                CLIENT_PIN_COMMAND,
                token_parameters(self@, pin@),
            ),
            r matches Ok(payload) ==> (cbor::decoded(payload@.skip(1)) matches Some(map) && (
            cbor::field(map, CborValue::Integer(6)) matches Some(CborValue::Bytes(sealed))
                && cbc::decrypted(self@.shared, Seq::new(16, |i: int| 0u8), sealed)
                == digest::sha256(vstd::utf8::encode_utf8(pin@)).take(16))),
    {
        let mut full: [u8; 32] = digest::hash(pin.as_bytes());
        let mut half: [u8; 16] = text::to_array::<16>(
            vstd::slice::slice_subrange(full.as_slice(), 0, 16),
        );
        assert(full@.take(16) =~= full@.subrange(0, 16));
        memory::wipe_array(&mut full);
        let mut sealed = cbc::aes256_cbc_encrypt(self.shared_secret.as_bytes(), half.as_slice());
        memory::wipe_array(&mut half);
        let mut entries: Vec<(Value, Value)> = Vec::new();
        entries.push((Value::Integer(1), Value::Integer(PROTOCOL_V1 as i128)));
        entries.push((Value::Integer(2), Value::Integer(GET_PIN_TOKEN as i128)));
        entries.push((Value::Integer(3), encode_platform_cose_pubkey(&self.x, &self.y)));
        entries.push((Value::Integer(6), Value::Bytes(text::copy_bytes(sealed.as_slice()))));
        memory::wipe_vec(&mut sealed);
        proof {
            pins::law_token_parameters_by_number(self@, pin@, CborValue::Integer(6));
            assert(cbc::zero_block() =~= Seq::new(16, |i: int| 0u8));
            let models = token_parameters(self@, pin@)->Mapping_0;
            assert(cbor::entry_models(entries@) =~= models);
            cbor::lemma_mapping_model(entries);
            lemma_agreement_key_faithful(self@.x, self@.y);
            cbor::lemma_faithful_mapping(models, 1);
            cbor::lemma_faithful_deeper(
                token_parameters(self@, pin@),
                2,
                cbor::MAX_NESTING as nat,
            );
        }
        cbor::encode_command(CLIENT_PIN_COMMAND, &Value::Mapping(entries))
    }

    /// The `pinUvAuthToken` in the response to [`PinSession::pin_token_request`]: the one that
    /// the authenticator encrypted.
    ///
    /// # Errors
    ///
    /// [`Error::Cbor`] if the response is no CBOR item, [`Error::Pin`] if the encrypted token is
    /// missing or its length is not a valid AES block multiple up to 48 bytes.
    pub fn get_pin_token(&self, response: &[u8]) -> (r: Result<PinToken, Error>)
        ensures
            crate::error::agrees(r, token_in(self@.shared, response@)),
            r matches Ok(token) ==> forall|issued: Seq<u8>| #[trigger]
                cbc::seals(
                    self@.shared,
                    cbc::zero_block(),
                    issued,
                    sealed_token_of(cbor::decoded(response@)->0)->Ok_0,
                ) ==> token@ == issued,
    {
        let map = cbor::decode(response)?;
        let sealed = sealed_token(&map)?;
        Ok(PinToken { bytes: cbc::aes256_cbc_decrypt(self.shared_secret.as_bytes(), sealed) })
    }

    /// 32-byte shared secret. Accessor for the `get_assertion` salt encryption path, which
    /// needs the same key.
    pub fn shared_secret(&self) -> (r: &[u8; 32])
        ensures
            r@ == self@.shared,
    {
        self.shared_secret.as_bytes()
    }

    /// Platform P-256 public key in COSE form, ready to embed in a request map. The
    /// `get_assertion` `hmac-secret` extension needs this too. It never fails.
    pub fn platform_cose_pubkey(&self) -> (r: Result<Value, Error>)
        ensures
            r matches Ok(key) && key@ == agreement_key(self@.x, self@.y),
    {
        Ok(encode_platform_cose_pubkey(&self.x, &self.y))
    }

    /// AES-256-CBC encrypt plaintext under the session shared secret with zero IV. Plaintext
    /// must be a non-empty multiple of 16 bytes. Decryption gives it back.
    ///
    /// # Errors
    ///
    /// [`Error::Pin`] if `plaintext` is empty or not a multiple of 16.
    pub fn aes_cbc_encrypt(&self, plaintext: &[u8]) -> (r: Result<Vec<u8>, Error>)
        ensures
            crate::error::seen(r) == (if plaintext@.len() > 0 && plaintext@.len() % 16 == 0 {
                Ok::<Seq<u8>, Fault>(
                    cbc::encrypted(self@.shared, cbc::zero_block(), plaintext@),
                )
            } else {
                Err(Fault::Pin("AES-CBC plaintext must be a non-empty multiple of 16"@))
            }),
            r matches Ok(ciphertext) ==> ciphertext@.len() == plaintext@.len() && cbc::decrypted(
                self@.shared,
                cbc::zero_block(),
                ciphertext@,
            ) == plaintext@ && cbc::seals(
                self@.shared,
                cbc::zero_block(),
                plaintext@,
                ciphertext@,
            ),
    {
        if plaintext.len() == 0 || plaintext.len() % 16 != 0 {
            return Err(Error::Pin("AES-CBC plaintext must be a non-empty multiple of 16"));
        }
        Ok(cbc::aes256_cbc_encrypt(self.shared_secret.as_bytes(), plaintext))
    }

    /// AES-256-CBC decrypt ciphertext under the session shared secret with zero IV. Ciphertext
    /// must be a non-empty multiple of 16 bytes. Encryption gives it back, and whatever plaintext
    /// it was made from is the one that comes out.
    ///
    /// # Errors
    ///
    /// [`Error::Pin`] if `ciphertext` is empty or not a multiple of 16.
    pub fn aes_cbc_decrypt(&self, ciphertext: &[u8]) -> (r: Result<Vec<u8>, Error>)
        ensures
            crate::error::seen(r) == (if ciphertext@.len() > 0 && ciphertext@.len() % 16 == 0 {
                Ok::<Seq<u8>, Fault>(
                    cbc::decrypted(self@.shared, cbc::zero_block(), ciphertext@),
                )
            } else {
                Err(Fault::Pin("AES-CBC ciphertext must be a non-empty multiple of 16"@))
            }),
            r matches Ok(plaintext) ==> plaintext@.len() == ciphertext@.len() && cbc::encrypted(
                self@.shared,
                cbc::zero_block(),
                plaintext@,
            ) == ciphertext@ && forall|source: Seq<u8>| #[trigger]
                cbc::seals(self@.shared, cbc::zero_block(), source, ciphertext@) ==> source
                    == plaintext@,
    {
        if ciphertext.len() == 0 || ciphertext.len() % 16 != 0 {
            return Err(Error::Pin("AES-CBC ciphertext must be a non-empty multiple of 16"));
        }
        Ok(cbc::aes256_cbc_decrypt(self.shared_secret.as_bytes(), ciphertext))
    }
}

/// The first half of an HMAC-SHA256 tag.
pub open spec fn half_tag(message: Seq<u8>, key: Seq<u8>) -> Seq<u8> {
    digest::hmac_sha256_tag(message, key).take(16)
}

fn truncated_mac(message: &[u8], key: &[u8]) -> (r: [u8; 16])
    ensures
        r@ == half_tag(message@, key@),
{
    let tag = digest::mac(message, key);
    assert(tag@.take(16) =~= tag@.subrange(0, 16));
    text::to_array::<16>(vstd::slice::slice_subrange(tag.as_slice(), 0, 16))
}

/// Authenticator-issued `pinUvAuthToken`, wiped on drop. The length is authenticator-chosen.
pub struct PinToken {
    bytes: Vec<u8>,
}

impl View for PinToken {
    type V = Seq<u8>;

    closed spec fn view(&self) -> Seq<u8> {
        self.bytes@
    }
}

impl PinToken {
    /// The PIN protocol v1 `pinUvAuthParam` derivation.
    pub fn auth_param(&self, message: &[u8]) -> (r: [u8; 16])
        ensures
            r@ == half_tag(message@, self@),
    {
        truncated_mac(message, self.bytes.as_slice())
    }
}

impl Drop for PinToken {
    fn drop(&mut self)
        ensures
            final(self)@ == Seq::<u8>::empty(),
        opens_invariants none
        no_unwind
    {
        memory::wipe_vec(&mut self.bytes);
    }
}

/// `HMAC-SHA256(shared_secret, data)[..16]`. Used for the `saltAuth` field in the
/// `hmac-secret` extension request.
pub fn hmac_truncated(shared_secret: &[u8; 32], data: &[u8]) -> (r: [u8; 16])
    ensures
        r@ == half_tag(data@, shared_secret@),
{
    truncated_mac(data, shared_secret.as_slice())
}

/// A key agreement, and the exchange of a PIN for a token where there is a PIN, as one
/// conversation with the device.
pub enum PinExchange {
    /// The key agreement request is out.
    Agreeing(KeyAgreement),
    /// The session stands, and the token request is out.
    Exchanging(PinSession),
}

/// What a response does to a PIN exchange: a key agreement response establishes the session,
/// which ends the exchange unless there is a PIN to send; a token response ends it with the
/// token. Whatever is wrong with a response ends it too.
pub open spec fn exchange_step(
    exchange: PinExchange,
    pin: Option<Seq<char>>,
    response: Seq<u8>,
    turn: Turn<PinExchange, (PinSession, Option<PinToken>)>,
) -> bool {
    match exchange {
        PinExchange::Agreeing(agreement) => match established(agreement@, response) {
            Err(fault) => turn matches Turn::Done(Err(err)) && crate::error::reports(err, fault),
            Ok(session) => match pin {
                None => turn matches Turn::Done(Ok((held, None))) && held@ == session,
                Some(pin) => turn matches Turn::Send(payload, PinExchange::Exchanging(held))
                    && held@ == session && cbor::is_command(
                    payload@,
                    CLIENT_PIN_COMMAND,
                    token_parameters(session, pin),
                ),
            },
        },
        PinExchange::Exchanging(session) => match token_in(session@.shared, response) {
            Err(fault) => turn matches Turn::Done(Err(err)) && crate::error::reports(err, fault),
            Ok(bytes) => turn matches Turn::Done(Ok((held, Some(token)))) && held@ == session@
                && token@ == bytes,
        },
    }
}

impl PinExchange {
    /// Open the conversation with the platform's half of the key agreement.
    pub fn start(agreement: KeyAgreement) -> (turn: Turn<
        PinExchange,
        (PinSession, Option<PinToken>),
    >)
        ensures
            turn matches Turn::Send(payload, PinExchange::Agreeing(held)) && held@ == agreement@
                && cbor::is_command(
                payload@,
                CLIENT_PIN_COMMAND,
                subcommand_parameters(GET_KEY_AGREEMENT),
            ),
    {
        match agreement.request() {
            Ok(payload) => Turn::Send(payload, PinExchange::Agreeing(agreement)),
            Err(err) => Turn::Done(Err(err)),
        }
    }

    /// Go on with the device's response.
    pub fn resume(self, pin: Option<&str>, response: &[u8]) -> (turn: Turn<
        PinExchange,
        (PinSession, Option<PinToken>),
    >)
        ensures
            exchange_step(self, text::str_view(pin), response@, turn),
    {
        match self {
            PinExchange::Agreeing(agreement) => match PinSession::establish(agreement, response) {
                Ok(session) => match pin {
                    Some(pin) => match session.pin_token_request(pin) {
                        Ok(payload) => Turn::Send(payload, PinExchange::Exchanging(session)),
                        Err(err) => Turn::Done(Err(err)),
                    },
                    None => Turn::Done(Ok((session, None))),
                },
                Err(err) => Turn::Done(Err(err)),
            },
            PinExchange::Exchanging(session) => match session.get_pin_token(response) {
                Ok(token) => Turn::Done(Ok((session, Some(token)))),
                Err(err) => Turn::Done(Err(err)),
            },
        }
    }
}

} // verus!
