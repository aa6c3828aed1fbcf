//! `authenticatorMakeCredential` (CTAP2 0x01) with `hmac-secret` and the `credProtect`,
//! `credBlob`, `largeBlobKey`, `minPinLength` extensions.

use crate::cbor;
use crate::cbor::{CborValue, Value};
use crate::cmd;
use crate::cmd::get_assertion;
use crate::cmd::{Algorithm, MakeCredentialOptions, Turn};
use crate::cose;
use crate::cose::CredentialPublicKey;
use crate::error::{Error, Fault};
use crate::hid;
use crate::outside::item;
use crate::outside::{base64_text, random};
use crate::pin;
use crate::pin::{KeyAgreement, PinExchange, PinToken};
use crate::text;
use vstd::prelude::*;

verus! {

/// CTAP2 command byte for `authenticatorMakeCredential`.
pub const COMMAND: u8 = 0x01;

/// `credProtect` policy levels.
#[derive(Copy, Clone, Debug, PartialEq, Eq, Structural)]
pub enum CredProtect {
    /// UV optional. Default behavior when the extension is absent.
    UvOptional,
    /// UV optional with allow-list assertions; UV required when discovering resident
    /// credentials.
    UvOptionalWithList,
    /// UV always required.
    UvRequired,
}

/// The wire value of a policy level.
pub open spec fn level_of(policy: CredProtect) -> u8 {
    match policy {
        CredProtect::UvOptional => 1,
        CredProtect::UvOptionalWithList => 2,
        CredProtect::UvRequired => 3,
    }
}

impl CredProtect {
    /// The wire value.
    pub fn as_u8(self) -> (r: u8)
        ensures
            r == level_of(self),
    {
        match self {
            CredProtect::UvOptional => 1,
            CredProtect::UvOptionalWithList => 2,
            CredProtect::UvRequired => 3,
        }
    }
}

/// Raw attestation object from `makeCredential`.
///
/// Format and statement shape vary by `fmt`. The crate does not verify, but rather callers that
/// need attestation pass these bytes to a verifier.
#[derive(Clone, Debug)]
pub struct AttestationObject {
    /// Attestation format identifier (e.g. `"packed"`, `"none"`).
    pub fmt: String,
    /// `authData` bytes, identical to what's parsed for cred id / pubkey.
    pub auth_data: Vec<u8>,
    /// CBOR-encoded attestation statement; shape depends on `fmt`.
    pub att_stmt: Vec<u8>,
}

/// Echo of extensions the device honored at registration time.
#[derive(Copy, Clone, Debug, Default, PartialEq, Eq, Structural)]
pub struct CredentialExtensions {
    /// True iff the device acknowledged storing the `credBlob`.
    pub cred_blob_set: bool,
    /// `credProtect` level the device applied. Absent if the extension wasn't requested or
    /// wasn't supported.
    pub cred_protect: Option<u8>,
    /// `minPinLength` value the device returned, when the caller opted in.
    pub min_pin_length: Option<u32>,
}

/// Newly registered credential.
#[derive(Clone, Debug)]
pub struct Credential {
    /// Credential id. Hand back to `getAssertion` to assert on this credential.
    pub id: Vec<u8>,
    /// Public key. Persist alongside the id; required to verify assertion signatures on
    /// subsequent `get_hmac_secret` calls.
    pub public_key: CredentialPublicKey,
    /// Full attestation object as returned by the device.
    pub attestation: AttestationObject,
    /// Per-credential AES key tied to the device's large-blob store, returned only when
    /// [`MakeCredentialOptions::large_blob_key`] is `true` and the device supports the
    /// extension.
    pub large_blob_key: Option<Vec<u8>>,
    /// Echoed extension fields from the registration response.
    pub extensions: CredentialExtensions,
}

/// An echo of nothing.
pub open spec fn no_echo() -> CredentialExtensions {
    CredentialExtensions { cred_blob_set: false, cred_protect: None, min_pin_length: None }
}

/// The echo once one more entry has been read.
pub open spec fn echo_with(
    echo: CredentialExtensions,
    entry: (CborValue, CborValue),
) -> CredentialExtensions {
    if entry.0 == cbor::name_key("credBlob"@) {
        CredentialExtensions { cred_blob_set: entry.1 == CborValue::Bool(true), ..echo }
    } else if entry.0 == cbor::name_key("credProtect"@) {
        CredentialExtensions {
            cred_protect: match entry.1 {
                CborValue::Integer(i) => if 0 <= i <= u8::MAX {
                    Some(i as u8)
                } else {
                    None
                },
                _ => None,
            },
            ..echo
        }
    } else if entry.0 == cbor::name_key("minPinLength"@) {
        CredentialExtensions {
            min_pin_length: match entry.1 {
                CborValue::Integer(i) => if 0 <= i <= u32::MAX {
                    Some(i as u32)
                } else {
                    None
                },
                _ => None,
            },
            ..echo
        }
    } else {
        echo
    }
}

/// The echo in the entries of an extensions map, read in order.
pub open spec fn echo_of(entries: Seq<(CborValue, CborValue)>) -> CredentialExtensions
    decreases entries.len(),
{
    if entries.len() == 0 {
        no_echo()
    } else {
        echo_with(echo_of(entries.drop_last()), entries.last())
    }
}

/// The echo in a decoded extensions item: none where it is no map.
pub open spec fn echo_of_item(value: CborValue) -> CredentialExtensions {
    match value {
        CborValue::Mapping(entries) => echo_of(entries),
        _ => no_echo(),
    }
}

/// The echo in the extensions at the end of some `authData`.
pub open spec fn echo_in(bytes: Seq<u8>) -> Result<CredentialExtensions, Fault> {
    match cbor::whole_item(bytes) {
        Err(fault) => Err(fault),
        Ok(value) => Ok(echo_of_item(value)),
    }
}

/// Where the credential id in some `authData` ends and whether extensions may follow the key:
///
/// ```text
/// rpIdHash(32) | flags(1) | signCount(4) | aaguid(16)
///   | credIdLen(2 BE) | credId | credPubKey(CBOR) | [extensions(CBOR)]
/// ```
pub open spec fn id_end_of(auth_data: Seq<u8>) -> Result<(nat, bool), Fault> {
    if auth_data.len() < 55 {
        Err(Fault::Parse("authData too short for attested credential"@))
    } else if !get_assertion::has_attested(auth_data[32]) {
        Err(Fault::Parse("authData missing AT flag, no attested credential data"@))
    } else {
        let id_end = 55 + hid::be16(auth_data[53], auth_data[54]);
        if id_end > auth_data.len() {
            Err(Fault::Parse("credential id length exceeds authData"@))
        } else {
            Ok((id_end, get_assertion::has_extensions(auth_data[32])))
        }
    }
}

/// What some `authData` attests: the credential id, the key and the extensions echo.
pub open spec fn attested_in(auth_data: Seq<u8>) -> Result<
    (Seq<u8>, Seq<u8>, CredentialExtensions),
    Fault,
> {
    match id_end_of(auth_data) {
        Err(fault) => Err(fault),
        Ok((id_end, extended)) => {
            let id = auth_data.subrange(55, id_end as int);
            match cose::key_at(auth_data, id_end) {
                Err(fault) => Err(fault),
                Ok((key, end)) => if extended && end < auth_data.len() {
                    match echo_in(auth_data.skip(end as int)) {
                        Err(fault) => Err(fault),
                        Ok(echo) => Ok((id, key, echo)),
                    }
                } else {
                    Ok((id, key, no_echo()))
                },
            }
        },
    }
}

/// A credential that stands in `authData` in its place is the one that is found: the id by its
/// length, the key as the item behind it, and the echo in what follows, where the flags say so.
pub proof fn law_credential_is_found_in_place(
    rp_id_hash: Seq<u8>,
    flags: u8,
    sign_count: Seq<u8>,
    aaguid: Seq<u8>,
    id: Seq<u8>,
    key: Seq<u8>,
    rest: Seq<u8>,
)
    requires
        rp_id_hash.len() == 32,
        sign_count.len() == 4,
        aaguid.len() == 16,
        id.len() <= 0xFFFF,
        get_assertion::has_attested(flags),
    ensures
        (item::leading_item(key + rest) matches Some((cose_key, used)) && used == key.len()
            && cose::validated(cose_key) is Ok) ==> attested_in(
            get_assertion::head_layout(rp_id_hash, flags, sign_count)
                + get_assertion::attested_layout(aaguid, id, key) + rest,
        ) == (if get_assertion::has_extensions(flags) && rest.len() > 0 {
            match echo_in(rest) {
                Err(fault) => Err(fault),
                Ok(echo) => Ok((id, key, echo)),
            }
        } else {
            Ok((id, key, no_echo()))
        }),
{
    let auth_data = get_assertion::head_layout(rp_id_hash, flags, sign_count)
        + get_assertion::attested_layout(aaguid, id, key) + rest;
    let id_end = 55 + id.len();
    assert(auth_data[32] == flags);
    assert(auth_data[53] == (id.len() / 256) as u8);
    assert(auth_data[54] == (id.len() % 256) as u8);
    assert(hid::be16(auth_data[53], auth_data[54]) == id.len());
    assert(auth_data.subrange(55, id_end as int) =~= id);
    assert(auth_data.skip(id_end as int) =~= key + rest);
    assert(auth_data.subrange(id_end as int, (id_end + key.len()) as int) =~= key);
    assert(auth_data.skip((id_end + key.len()) as int) =~= rest);
}

/// The echo in a decoded extensions item.
pub fn parse_echo(value: &Value) -> (echo: CredentialExtensions)
    ensures
        echo == echo_of_item(value@),
{
    let mut out = CredentialExtensions {
        cred_blob_set: false,
        cred_protect: None,
        min_pin_length: None,
    };
    let entries = match value {
        Value::Mapping(entries) => {
            proof {
                cbor::lemma_mapping_model(*entries);
            }
            entries
        },
        _ => return out,
    };
    let ghost models = cbor::entry_models(entries@);
    let mut i: usize = 0;
    assert(models.take(0) =~= Seq::empty());
    while i < entries.len()
        invariant
            i <= entries.len(),
            models == cbor::entry_models(entries@),
            out == echo_of(models.take(i as int)),
        decreases entries.len() - i,
    {
        proof {
            assert(models.take(i + 1).drop_last() =~= models.take(i as int));
            assert(models.take(i + 1).last() == models[i as int]);
        }
        let value = &entries[i].1;
        if let Some(name) = entries[i].0.as_text() {
            if text::same_text(name, "credBlob") {
                out.cred_blob_set = match value.as_bool() {
                    Some(flag) => flag,
                    None => false,
                };
            } else if text::same_text(name, "credProtect") {
                out.cred_protect = match value.as_integer() {
                    Some(level) => if 0 <= level && level <= 0xFF {
                        Some(level as u8)
                    } else {
                        None
                    },
                    None => None,
                };
            } else if text::same_text(name, "minPinLength") {
                out.min_pin_length = match value.as_integer() {
                    Some(length) => if 0 <= length && length <= 0xFFFF_FFFF {
                        Some(length as u32)
                    } else {
                        None
                    },
                    None => None,
                };
            }
        }
        i += 1;
    }
    assert(models.take(i as int) =~= models);
    out
}

fn parse_extensions_echo(bytes: &[u8]) -> (r: Result<CredentialExtensions, Error>)
    ensures
        match r {
            Ok(echo) => echo_in(bytes@) == Ok::<CredentialExtensions, Fault>(echo),
            Err(err) => echo_in(bytes@) matches Err(fault) && crate::error::reports(err, fault),
        },
{
    let value = cbor::decode(bytes)?;
    Ok(parse_echo(&value))
}

/// Where the credential id in `authData` ends, and whether extensions may follow the key.
///
/// # Errors
///
/// [`Error::Parse`] if `authData` attests no credential or is cut short.
pub fn locate_id(auth_data: &[u8]) -> (r: Result<(usize, bool), Error>)
    ensures
        match r {
            Ok((id_end, extended)) => 55 <= id_end <= auth_data@.len() && id_end_of(auth_data@)
                == Ok::<(nat, bool), Fault>((id_end as nat, extended)),
            Err(err) => id_end_of(auth_data@) == Err::<(nat, bool), Fault>(err@),
        },
{
    if auth_data.len() < 55 {
        return Err(Error::Parse("authData too short for attested credential"));
    }
    let (attested, extended) = get_assertion::read_flags(auth_data[32]);
    if !attested {
        return Err(Error::Parse("authData missing AT flag, no attested credential data"));
    }
    let id_end: usize = 55 + (auth_data[53] as usize * 256 + auth_data[54] as usize);
    if id_end > auth_data.len() {
        return Err(Error::Parse("credential id length exceeds authData"));
    }
    Ok((id_end, extended))
}

/// Parse credential id, public key and extensions echo out of `authData`.
///
/// # Errors
///
/// [`Error::Parse`] if `authData` attests no credential or is cut short, [`Error::Cbor`] if what
/// should be CBOR is not, [`Error::Pin`] if the key is not one the library supports.
pub fn parse_credential(auth_data: &[u8]) -> (r: Result<
    (Vec<u8>, CredentialPublicKey, CredentialExtensions),
    Error,
>)
    ensures
        match r {
            Ok((id, key, echo)) => attested_in(auth_data@) == Ok::<
                (Seq<u8>, Seq<u8>, CredentialExtensions),
                Fault,
            >((id@, key@, echo)),
            Err(err) => attested_in(auth_data@) matches Err(fault) && crate::error::reports(
                err,
                fault,
            ),
        },
{
    let (id_end, extended) = locate_id(auth_data)?;
    let id = text::copy_bytes(vstd::slice::slice_subrange(auth_data, 55, id_end));
    let (public_key, end) = cose::parse_authdata_pubkey(auth_data, id_end)?;
    let echo = if extended && end < auth_data.len() {
        let rest = vstd::slice::slice_subrange(auth_data, end, auth_data.len());
        assert(rest@ =~= auth_data@.skip(end as int));
        parse_extensions_echo(rest)?
    } else {
        CredentialExtensions { cred_blob_set: false, cred_protect: None, min_pin_length: None }
    };
    Ok((id, public_key, echo))
}

/// What a `makeCredential` response says.
pub struct CredentialData {
    pub id: Seq<u8>,
    pub public_key: Seq<u8>,
    pub fmt: Seq<char>,
    pub auth_data: Seq<u8>,
    /// The attestation statement, as an item.
    pub statement: CborValue,
    pub large_blob_key: Option<Seq<u8>>,
    pub extensions: CredentialExtensions,
}

/// Whether a credential holds what a response says. The attestation statement is held in its
/// CBOR form; of a statement with a NaN in it, which bits are written is left open.
pub open spec fn holds(credential: Credential, data: CredentialData) -> bool {
    &&& credential.id@ == data.id
    &&& credential.public_key@ == data.public_key
    &&& credential.attestation.fmt@ == data.fmt
    &&& credential.attestation.auth_data@ == data.auth_data
    &&& !cbor::has_nan(data.statement) ==> credential.attestation.att_stmt@ == item::item_bytes(
        data.statement,
    )
    &&& cbor::restorable(data.statement, cbor::MAX_NESTING as nat) ==> cbor::decoded(
        credential.attestation.att_stmt@,
    ) == Some(data.statement)
    &&& text::bytes_view(credential.large_blob_key) == data.large_blob_key
    &&& credential.extensions == data.extensions
}

/// The fields of a `makeCredential` response, before `authData` is looked into.
pub struct CredentialFields {
    /// Attestation format identifier.
    pub fmt: String,
    /// `authData` bytes.
    pub auth_data: Vec<u8>,
    /// Attestation statement.
    pub statement: Value,
    /// Large-blob key.
    pub large_blob_key: Option<Vec<u8>>,
}

/// What [`CredentialFields`] hold.
pub struct FieldData {
    pub fmt: Seq<char>,
    pub auth_data: Seq<u8>,
    pub statement: CborValue,
    pub large_blob_key: Option<Seq<u8>>,
}

impl View for CredentialFields {
    type V = FieldData;

    open spec fn view(&self) -> FieldData {
        FieldData {
            fmt: self.fmt@,
            auth_data: self.auth_data@,
            statement: self.statement@,
            large_blob_key: text::bytes_view(self.large_blob_key),
        }
    }
}

/// The fields of a decoded `makeCredential` response.
pub open spec fn fields_of(map: CborValue) -> Result<FieldData, Fault> {
    match map {
        CborValue::Mapping(entries) => {
            let fmt = get_assertion::text_in(get_assertion::kth(entries, 1));
            let auth_data = get_assertion::bytes_in(get_assertion::kth(entries, 2));
            let statement = get_assertion::kth(entries, 3);
            if fmt is None {
                Err(Fault::Parse("makeCredential response missing fmt"@))
            } else if auth_data is None {
                Err(Fault::Parse("makeCredential response missing authData"@))
            } else if statement is None {
                Err(Fault::Parse("makeCredential response missing attStmt"@))
            } else {
                Ok(
                    FieldData {
                        fmt: fmt->0,
                        auth_data: auth_data->0,
                        statement: statement->0,
                        large_blob_key: get_assertion::bytes_in(get_assertion::kth(entries, 4)),
                    },
                )
            }
        },
        _ => Err(Fault::Parse("makeCredential response not a CBOR map"@)),
    }
}

/// What a `makeCredential` response says.
pub open spec fn credential_in(response: Seq<u8>) -> Result<CredentialData, Fault> {
    match cbor::whole_item(response) {
        Err(fault) => Err(fault),
        Ok(map) => match fields_of(map) {
            Err(fault) => Err(fault),
            Ok(fields) => match attested_in(fields.auth_data) {
                Err(fault) => Err(fault),
                Ok((id, public_key, extensions)) => Ok(
                    CredentialData {
                        id,
                        public_key,
                        fmt: fields.fmt,
                        auth_data: fields.auth_data,
                        statement: fields.statement,
                        large_blob_key: fields.large_blob_key,
                        extensions,
                    },
                ),
            },
        },
    }
}

/// The fields of a decoded `makeCredential` response.
///
/// # Errors
///
/// [`Error::Parse`] if it is no map or lacks a field.
pub fn parse_fields(map: Value) -> (r: Result<CredentialFields, Error>)
    ensures
        crate::error::seen(r) == fields_of(map@),
        cbor::encodable(map@) ==> (r matches Ok(fields) ==> cbor::encodable(fields.statement@)),
{
    let mut entries = match map {
        Value::Mapping(entries) => {
            proof {
                cbor::lemma_mapping_model(entries);
            }
            entries
        },
        _ => return Err(Error::Parse("makeCredential response not a CBOR map")),
    };
    proof {
        let all = cbor::entry_models(entries@);
        reveal_with_fuel(get_assertion::beyond, 5);
        if cbor::encodable(map@) {
            cbor::lemma_encodable_field(all, cbor::number_key(1));
            cbor::lemma_encodable_field(get_assertion::beyond(all, 1), cbor::number_key(2));
            cbor::lemma_encodable_field(get_assertion::beyond(all, 2), cbor::number_key(3));
        }
    }
    let fmt = match cbor::take_int_field(&mut entries, 0x01) {
        Some(Value::Text(text)) => text,
        _ => return Err(Error::Parse("makeCredential response missing fmt")),
    };
    let auth_data = match cbor::take_int_field(&mut entries, 0x02) {
        Some(Value::Bytes(bytes)) => bytes,
        _ => return Err(Error::Parse("makeCredential response missing authData")),
    };
    let statement = match cbor::take_int_field(&mut entries, 0x03) {
        Some(value) => value,
        None => return Err(Error::Parse("makeCredential response missing attStmt")),
    };
    let large_blob_key = match cbor::take_int_field(&mut entries, 0x04) {
        Some(Value::Bytes(bytes)) => Some(bytes),
        _ => None,
    };
    Ok(CredentialFields { fmt, auth_data, statement, large_blob_key })
}

/// Parse a CBOR-encoded `makeCredential` response.
///
/// # Errors
///
/// [`Error::Cbor`] if the response is no CBOR item, [`Error::Parse`] if it is no map or lacks a
/// field, and the errors of [`parse_credential`].
pub fn parse_response(response: &[u8]) -> (r: Result<Credential, Error>)
    ensures
        match r {
            Ok(credential) => credential_in(response@) matches Ok(data) && holds(credential, data),
            Err(err) => credential_in(response@) matches Err(fault) && crate::error::reports(
                err,
                fault,
            ),
        },
{
    let fields = parse_fields(cbor::decode(response)?)?;
    let att_stmt = cbor::encode(&fields.statement)?;
    let (id, public_key, extensions) = parse_credential(fields.auth_data.as_slice())?;
    Ok(
        Credential {
            id,
            public_key,
            attestation: AttestationObject {
                fmt: fields.fmt,
                auth_data: fields.auth_data,
                att_stmt,
            },
            large_blob_key: fields.large_blob_key,
            extensions,
        },
    )
}

/// A credential without what was not asked for: the large-blob key, the `credProtect` level and
/// the `minPinLength` come with their requests only.
pub open spec fn as_requested(
    data: CredentialData,
    options: MakeCredentialOptions<'_>,
) -> CredentialData {
    CredentialData {
        large_blob_key: if options.large_blob_key {
            data.large_blob_key
        } else {
            None
        },
        extensions: CredentialExtensions {
            cred_blob_set: data.extensions.cred_blob_set,
            cred_protect: if options.cred_protect is Some {
                data.extensions.cred_protect
            } else {
                None
            },
            min_pin_length: if options.min_pin_length {
                data.extensions.min_pin_length
            } else {
                None
            },
        },
        ..data
    }
}

/// The registered credential in the response to a request with the given options.
///
/// # Errors
///
/// As for [`parse_response`].
pub fn finish(options: &MakeCredentialOptions<'_>, response: &[u8]) -> (r: Result<
    Credential,
    Error,
>)
    ensures
        match r {
            Ok(credential) => credential_in(response@) matches Ok(data) && holds(
                credential,
                as_requested(data, *options),
            ),
            Err(err) => credential_in(response@) matches Err(fault) && crate::error::reports(
                err,
                fault,
            ),
        },
{
    let mut credential = parse_response(response)?;
    if !options.large_blob_key {
        credential.large_blob_key = None;
    }
    if options.cred_protect.is_none() {
        credential.extensions.cred_protect = None;
    }
    if !options.min_pin_length {
        credential.extensions.min_pin_length = None;
    }
    Ok(credential)
}

/// Who and what a registration is for: the user is random, so that the authenticator cannot be
/// fingerprinted by it.
pub struct Registration<'a> {
    /// Relying party id.
    pub rp_id: &'a str,
    /// Client data hash.
    pub client_data_hash: &'a [u8; 32],
    /// What to ask for.
    pub options: &'a MakeCredentialOptions<'a>,
    /// User handle.
    pub user_id: [u8; 32],
    /// Account name.
    pub user_name: String,
}

/// The `credProtect` extension input.
pub open spec fn protect_entries(options: MakeCredentialOptions<'_>) -> Seq<
    (CborValue, CborValue),
> {
    match options.cred_protect {
        Some(policy) => seq![
            (CborValue::Text("credProtect"@), CborValue::Integer(level_of(policy) as int)),
        ],
        None => Seq::empty(),
    }
}

/// The `credBlob` extension input.
pub open spec fn blob_entries(options: MakeCredentialOptions<'_>) -> Seq<(CborValue, CborValue)> {
    match options.cred_blob {
        Some(blob) => seq![(CborValue::Text("credBlob"@), CborValue::Bytes(blob@))],
        None => Seq::empty(),
    }
}

/// An extension input that is `true` or left out.
pub open spec fn flag_entries(name: Seq<char>, wanted: bool) -> Seq<(CborValue, CborValue)> {
    if wanted {
        seq![(CborValue::Text(name), CborValue::Bool(true))]
    } else {
        Seq::empty()
    }
}

/// The extensions of a registration: always `hmac-secret`, and the optional ones as asked for.
pub open spec fn extensions_for(options: MakeCredentialOptions<'_>) -> CborValue {
    CborValue::Mapping(
        seq![(CborValue::Text("hmac-secret"@), CborValue::Bool(true))] + protect_entries(options)
            + blob_entries(options) + flag_entries("largeBlobKey"@, options.large_blob_key)
            + flag_entries("minPinLength"@, options.min_pin_length),
    )
}

/// The options of a registration: `uv` is always off.
pub open spec fn options_for(options: MakeCredentialOptions<'_>) -> CborValue {
    CborValue::Mapping(
        seq![(CborValue::Text("uv"@), CborValue::Bool(false))] + flag_entries(
            "rk"@,
            options.resident_key,
        ),
    )
}

/// The relying party entity.
pub open spec fn party_entity(rp_id: Seq<char>) -> CborValue {
    CborValue::Mapping(seq![(CborValue::Text("id"@), CborValue::Text(rp_id))])
}

/// The user entity.
pub open spec fn user_entity(id: Seq<u8>, name: Seq<char>) -> CborValue {
    CborValue::Mapping(
        seq![
            (CborValue::Text("id"@), CborValue::Bytes(id)),
            (CborValue::Text("name"@), CborValue::Text(name)),
        ],
    )
}

/// One set of credential parameters: the algorithm.
pub open spec fn algorithm_entity(algorithm: Algorithm) -> CborValue {
    CborValue::Mapping(
        seq![
            (CborValue::Text("alg"@), CborValue::Integer(cmd::cose_id_of(algorithm) as int)),
            (CborValue::Text("type"@), CborValue::Text("public-key"@)),
        ],
    )
}

/// The parameters that a registration always has.
pub open spec fn base_entries(registration: Registration<'_>) -> Seq<(CborValue, CborValue)> {
    seq![
        (CborValue::Integer(1), CborValue::Bytes(registration.client_data_hash@)),
        (CborValue::Integer(2), party_entity(registration.rp_id@)),
        (
            CborValue::Integer(3),
            user_entity(registration.user_id@, registration.user_name@),
        ),
        (
            CborValue::Integer(4),
            CborValue::Array(seq![algorithm_entity(registration.options.algorithm)]),
        ),
        (CborValue::Integer(6), extensions_for(*registration.options)),
        (CborValue::Integer(7), options_for(*registration.options)),
    ]
}

/// The parameters that prove the PIN: the client data hash authenticated under the token, and
/// the protocol's number.
pub open spec fn pin_entries(client_data_hash: Seq<u8>, token: Option<Seq<u8>>) -> Seq<
    (CborValue, CborValue),
> {
    match token {
        Some(token) => seq![
            (CborValue::Integer(8), CborValue::Bytes(pin::half_tag(client_data_hash, token))),
            (CborValue::Integer(9), CborValue::Integer(pin::PROTOCOL_V1 as int)),
        ],
        None => Seq::empty(),
    }
}

/// The parameters of a `makeCredential` request.
pub open spec fn parameters(registration: Registration<'_>, token: Option<Seq<u8>>) -> CborValue {
    CborValue::Mapping(
        base_entries(registration) + pin_entries(registration.client_data_hash@, token),
    )
}

/// The longest blob that a device takes.
pub const MAX_CRED_BLOB: usize = 32;

/// Whether a registration asks the device to store more than it takes.
pub open spec fn blob_too_long(options: MakeCredentialOptions<'_>) -> bool {
    options.cred_blob matches Some(blob) && blob@.len() > MAX_CRED_BLOB
}

/// The parameters of a registration survive the way through CBOR.
proof fn lemma_parameters_faithful(registration: Registration<'_>, token: Option<Seq<u8>>)
    ensures
        cbor::faithful(parameters(registration, token), 3),
{
    let options = *registration.options;
    let entries = parameters(registration, token)->Mapping_0;
    let base = base_entries(registration);
    cbor::lemma_faithful_mapping(party_entity(registration.rp_id@)->Mapping_0, 0);
    cbor::lemma_faithful_mapping(
        user_entity(registration.user_id@, registration.user_name@)->Mapping_0,
        0,
    );
    cbor::lemma_faithful_mapping(algorithm_entity(options.algorithm)->Mapping_0, 0);
    cbor::lemma_faithful_array(seq![algorithm_entity(options.algorithm)], 1);
    lemma_extensions_faithful(options);
    let chosen = options_for(options)->Mapping_0;
    assert forall|i: int| 0 <= i < chosen.len() implies cbor::faithful((#[trigger] chosen[i]).0, 0)
        && cbor::faithful(chosen[i].1, 0) by {
        if i > 0 {
            assert(chosen[i] == flag_entries("rk"@, options.resident_key)[i - 1]);
        }
    }
    cbor::lemma_faithful_mapping(chosen, 0);
    cbor::lemma_faithful_deeper(party_entity(registration.rp_id@), 1, 2);
    cbor::lemma_faithful_deeper(
        user_entity(registration.user_id@, registration.user_name@),
        1,
        2,
    );
    cbor::lemma_faithful_deeper(extensions_for(options), 1, 2);
    cbor::lemma_faithful_deeper(options_for(options), 1, 2);
    assert forall|i: int| 0 <= i < entries.len() implies cbor::faithful(
        (#[trigger] entries[i]).0,
        2,
    ) && cbor::faithful(entries[i].1, 2) by {
        if i < base.len() {
            assert(entries[i] == base[i]);
        } else {
            assert(entries[i] == pin_entries(
                registration.client_data_hash@,
                token,
            )[i - base.len()]);
        }
    }
    cbor::lemma_faithful_mapping(entries, 2);
}

proof fn lemma_extensions_faithful(options: MakeCredentialOptions<'_>)
    ensures
        cbor::faithful(extensions_for(options), 1),
{
    let first = seq![(CborValue::Text("hmac-secret"@), CborValue::Bool(true))];
    let protected = first + protect_entries(options);
    let stored = protected + blob_entries(options);
    let large = stored + flag_entries("largeBlobKey"@, options.large_blob_key);
    let entries = extensions_for(options)->Mapping_0;
    assert forall|i: int| 0 <= i < entries.len() implies cbor::faithful(
        (#[trigger] entries[i]).0,
        0,
    ) && cbor::faithful(entries[i].1, 0) by {
        if i < first.len() {
            assert(entries[i] == first[i]);
        } else if i < protected.len() {
            assert(entries[i] == protect_entries(options)[i - first.len()]);
        } else if i < stored.len() {
            assert(entries[i] == blob_entries(options)[i - protected.len()]);
        } else if i < large.len() {
            assert(entries[i] == flag_entries(
                "largeBlobKey"@,
                options.large_blob_key,
            )[i - stored.len()]);
        } else {
            assert(entries[i] == flag_entries(
                "minPinLength"@,
                options.min_pin_length,
            )[i - large.len()]);
        }
    }
    cbor::lemma_faithful_mapping(entries, 0);
}

/// Every parameter of a registration stands under its number: the client data hash, the relying
/// party, the user, the algorithm, the extensions, the options, and the two PIN parameters where
/// there is a token. Nothing else stands under a number.
pub proof fn law_parameters_by_number(
    registration: Registration<'_>,
    token: Option<Seq<u8>>,
    k: int,
)
    ensures
        cbor::field(parameters(registration, token), cbor::number_key(k)) == (if k == 1 {
            Some(CborValue::Bytes(registration.client_data_hash@))
        } else if k == 2 {
            Some(party_entity(registration.rp_id@))
        } else if k == 3 {
            Some(user_entity(registration.user_id@, registration.user_name@))
        } else if k == 4 {
            Some(CborValue::Array(seq![algorithm_entity(registration.options.algorithm)]))
        } else if k == 6 {
            Some(extensions_for(*registration.options))
        } else if k == 7 {
            Some(options_for(*registration.options))
        } else if k == 8 && token is Some {
            Some(CborValue::Bytes(pin::half_tag(registration.client_data_hash@, token->0)))
        } else if k == 9 && token is Some {
            Some(CborValue::Integer(pin::PROTOCOL_V1 as int))
        } else {
            None
        }),
{
    let key = cbor::number_key(k);
    let base = base_entries(registration);
    let proofs = pin_entries(registration.client_data_hash@, token);
    cbor::lemma_entry_in_runs(base, proofs, key);
    cbor::lemma_position(base, key);
    cbor::lemma_position(proofs, key);
    if 1 <= k <= 4 {
        cbor::lemma_position_is(base, key, k - 1);
    } else if 6 <= k <= 7 {
        cbor::lemma_position_is(base, key, k - 2);
    } else {
        cbor::lemma_position_is(base, key, 6);
        if token is Some && 8 <= k <= 9 {
            cbor::lemma_position_is(proofs, key, k - 8);
        } else {
            cbor::lemma_position_is(proofs, key, proofs.len() as int);
        }
    }
}

/// Whatever is asked for, `uv` is off and `hmac-secret` is on.
pub proof fn law_uv_off_and_hmac_secret_on(options: MakeCredentialOptions<'_>)
    ensures
        cbor::field(options_for(options), cbor::name_key("uv"@)) == Some(CborValue::Bool(false)),
        cbor::field(extensions_for(options), cbor::name_key("hmac-secret"@)) == Some(
            CborValue::Bool(true),
        ),
{
    cbor::lemma_position_is(options_for(options)->Mapping_0, cbor::name_key("uv"@), 0);
    cbor::lemma_position_is(
        extensions_for(options)->Mapping_0,
        cbor::name_key("hmac-secret"@),
        0,
    );
}

/// What was not asked for does not come back, whatever the device sends.
pub proof fn law_nothing_unrequested_comes_back(
    data: CredentialData,
    options: MakeCredentialOptions<'_>,
)
    ensures
        !options.large_blob_key ==> as_requested(data, options).large_blob_key is None,
        options.cred_protect is None ==> as_requested(data, options).extensions.cred_protect is None,
        !options.min_pin_length ==> as_requested(data, options).extensions.min_pin_length is None,
{
}

/// A map with one more entry.
fn push_flag(entries: &mut Vec<(Value, Value)>, name: &str, wanted: bool)
    ensures
        cbor::entry_models(final(entries)@) == cbor::entry_models(old(entries)@) + flag_entries(
            name@,
            wanted,
        ),
{
    if wanted {
        entries.push((Value::Text(name.to_owned()), Value::Bool(true)));
    }
    assert(cbor::entry_models(entries@) =~= cbor::entry_models(old(entries)@) + flag_entries(
        name@,
        wanted,
    ));
}

/// The extensions map of a registration.
fn encode_extensions(options: &MakeCredentialOptions<'_>) -> (r: Value)
    ensures
        r@ == extensions_for(*options),
{
    let mut entries: Vec<(Value, Value)> = Vec::new();
    entries.push((Value::Text("hmac-secret".to_owned()), Value::Bool(true)));
    let ghost first = cbor::entry_models(entries@);
    assert(first =~= seq![(CborValue::Text("hmac-secret"@), CborValue::Bool(true))]);
    if let Some(policy) = options.cred_protect {
        entries.push(
            (Value::Text("credProtect".to_owned()), Value::Integer(policy.as_u8() as i128)),
        );
    }
    let ghost protected = cbor::entry_models(entries@);
    assert(protected =~= first + protect_entries(*options));
    if let Some(blob) = options.cred_blob {
        entries.push((Value::Text("credBlob".to_owned()), Value::Bytes(text::copy_bytes(blob))));
    }
    assert(cbor::entry_models(entries@) =~= protected + blob_entries(*options));
    push_flag(&mut entries, "largeBlobKey", options.large_blob_key);
    push_flag(&mut entries, "minPinLength", options.min_pin_length);
    proof {
        cbor::lemma_mapping_model(entries);
    }
    Value::Mapping(entries)
}

/// The options map of a registration.
fn encode_options(options: &MakeCredentialOptions<'_>) -> (r: Value)
    ensures
        r@ == options_for(*options),
{
    let mut entries: Vec<(Value, Value)> = Vec::new();
    entries.push((Value::Text("uv".to_owned()), Value::Bool(false)));
    assert(cbor::entry_models(entries@) =~= seq![
        (CborValue::Text("uv"@), CborValue::Bool(false)),
    ]);
    push_flag(&mut entries, "rk", options.resident_key);
    proof {
        cbor::lemma_mapping_model(entries);
    }
    Value::Mapping(entries)
}

fn encode_party(rp_id: &str) -> (r: Value)
    ensures
        r@ == party_entity(rp_id@),
{
    let mut entries: Vec<(Value, Value)> = Vec::new();
    entries.push((Value::Text("id".to_owned()), Value::Text(rp_id.to_owned())));
    proof {
        cbor::lemma_mapping_model(entries);
        assert(cbor::entry_models(entries@) =~= party_entity(rp_id@)->Mapping_0);
    }
    Value::Mapping(entries)
}

fn encode_user(id: &[u8; 32], name: &str) -> (r: Value)
    ensures
        r@ == user_entity(id@, name@),
{
    let mut entries: Vec<(Value, Value)> = Vec::new();
    entries.push((Value::Text("id".to_owned()), Value::Bytes(text::copy_bytes(id.as_slice()))));
    entries.push((Value::Text("name".to_owned()), Value::Text(name.to_owned())));
    proof {
        cbor::lemma_mapping_model(entries);
        assert(cbor::entry_models(entries@) =~= user_entity(id@, name@)->Mapping_0);
    }
    Value::Mapping(entries)
}

fn encode_algorithm(algorithm: Algorithm) -> (r: Value)
    ensures
        r@ == CborValue::Array(seq![algorithm_entity(algorithm)]),
{
    let mut entries: Vec<(Value, Value)> = Vec::new();
    entries.push((Value::Text("alg".to_owned()), Value::Integer(algorithm.cose_id() as i128)));
    entries.push((Value::Text("type".to_owned()), Value::Text("public-key".to_owned())));
    proof {
        cbor::lemma_mapping_model(entries);
        assert(cbor::entry_models(entries@) =~= algorithm_entity(algorithm)->Mapping_0);
    }
    let mut items: Vec<Value> = Vec::new();
    items.push(Value::Mapping(entries));
    proof {
        cbor::lemma_array_model(items);
        assert(cbor::item_models(items@) =~= seq![algorithm_entity(algorithm)]);
    }
    Value::Array(items)
}

/// The payload of a registration. `options.uv` is always `false`: an hmac-secret output that is
/// scoped to user verification differs from one that is not.
///
/// # Errors
///
/// [`Error::Pin`] if the blob to store is longer than 32 bytes.
pub fn request(registration: &Registration<'_>, pin_token: Option<&PinToken>) -> (r: Result<
    Vec<u8>,
    Error,
>)
    ensures
        match r {
            Ok(payload) => !blob_too_long(*registration.options) && cbor::is_command(
                payload@,
                COMMAND,
                parameters(*registration, get_assertion::token_view(pin_token)),
            ),
            Err(err) => blob_too_long(*registration.options) && err@ == Fault::Pin(
                "credBlob exceeds 32 bytes"@,
            ),
        },
{
    let options = registration.options;
    if let Some(blob) = options.cred_blob {
        if blob.len() > MAX_CRED_BLOB {
            return Err(Error::Pin("credBlob exceeds 32 bytes"));
        }
    }
    let mut entries: Vec<(Value, Value)> = Vec::new();
    entries.push(
        (
            Value::Integer(1),
            Value::Bytes(text::copy_bytes(registration.client_data_hash.as_slice())),
        ),
    );
    entries.push((Value::Integer(2), encode_party(registration.rp_id)));
    entries.push(
        (
            Value::Integer(3),
            encode_user(&registration.user_id, registration.user_name.as_str()),
        ),
    );
    entries.push((Value::Integer(4), encode_algorithm(options.algorithm)));
    entries.push((Value::Integer(6), encode_extensions(options)));
    entries.push((Value::Integer(7), encode_options(options)));
    let ghost base = cbor::entry_models(entries@);
    assert(base =~= base_entries(*registration));
    if let Some(token) = pin_token {
        let pin_auth = token.auth_param(registration.client_data_hash.as_slice());
        entries.push((Value::Integer(8), Value::Bytes(text::copy_bytes(pin_auth.as_slice()))));
        entries.push((Value::Integer(9), Value::Integer(pin::PROTOCOL_V1 as i128)));
    }
    proof {
        let token = get_assertion::token_view(pin_token);
        assert(cbor::entry_models(entries@) =~= base + pin_entries(
            registration.client_data_hash@,
            token,
        ));
        cbor::lemma_mapping_model(entries);
        lemma_parameters_faithful(*registration, token);
        cbor::lemma_faithful_deeper(
            parameters(*registration, token),
            3,
            cbor::MAX_NESTING as nat,
        );
    }
    cbor::encode_command(COMMAND, &Value::Mapping(entries))
}

/// Whether a registration is for the given party, hash and options, and its user has a name of
/// eight Base64 characters.
pub open spec fn is_registration(
    registration: Registration<'_>,
    rp_id: &str,
    client_data_hash: &[u8; 32],
    options: &MakeCredentialOptions<'_>,
) -> bool {
    &&& registration.rp_id == rp_id
    &&& registration.client_data_hash == client_data_hash
    &&& registration.options == options
    &&& exists|name: Seq<u8>|
        name.len() == 6 && registration.user_name@ == #[trigger] base64_text::base64_text(name)
}

impl<'a> Registration<'a> {
    /// A registration for a random user.
    pub fn new(
        rp_id: &'a str,
        client_data_hash: &'a [u8; 32],
        options: &'a MakeCredentialOptions<'a>,
    ) -> (registration: Registration<'a>)
        ensures
            is_registration(registration, rp_id, client_data_hash, options),
    {
        let user_id = random::random_bytes(32);
        let name = random::random_bytes(6);
        Registration::with_user(
            rp_id,
            client_data_hash,
            options,
            text::to_array::<32>(user_id.as_slice()),
            text::to_array::<6>(name.as_slice()),
        )
    }

    /// A registration for the user with the given handle, and a name made of the given bytes.
    pub fn with_user(
        rp_id: &'a str,
        client_data_hash: &'a [u8; 32],
        options: &'a MakeCredentialOptions<'a>,
        user_id: [u8; 32],
        name: [u8; 6],
    ) -> (registration: Registration<'a>)
        ensures
            registration.rp_id == rp_id,
            registration.client_data_hash == client_data_hash,
            registration.options == options,
            registration.user_id == user_id,
            registration.user_name@ == base64_text::base64_text(name@),
    {
        Registration {
            rp_id,
            client_data_hash,
            options,
            user_id,
            user_name: base64_text::encode(name.as_slice()),
        }
    }
}

/// A run of `makeCredential`, with a PIN exchange before it where there is a PIN.
pub enum CredentialCall<'a> {
    /// The PIN is being exchanged for a token.
    Pin(PinExchange, &'a str, Registration<'a>),
    /// The registration request is out.
    Registering(&'a MakeCredentialOptions<'a>),
}

/// Whether a turn sends the registration request, or fails because the blob is too long.
pub open spec fn asks_for_credential(
    registration: Registration<'_>,
    token: Option<Seq<u8>>,
    turn: Turn<CredentialCall<'_>, Credential>,
) -> bool {
    if blob_too_long(*registration.options) {
        turn matches Turn::Done(Err(err)) && err@ == Fault::Pin("credBlob exceeds 32 bytes"@)
    } else {
        turn matches Turn::Send(payload, CredentialCall::Registering(options)) && options
            == registration.options && cbor::is_command(
            payload@,
            COMMAND,
            parameters(registration, token),
        )
    }
}

/// What a response does to a run of `makeCredential`.
pub open spec fn credential_step(
    call: CredentialCall<'_>,
    response: Seq<u8>,
    turn: Turn<CredentialCall<'_>, Credential>,
) -> bool {
    match call {
        CredentialCall::Pin(PinExchange::Agreeing(agreement), pin, registration) => match
        pin::established(agreement@, response) {
            Err(fault) => turn matches Turn::Done(Err(err)) && crate::error::reports(err, fault),
            Ok(session) => turn matches Turn::Send(
                payload,
                CredentialCall::Pin(PinExchange::Exchanging(held), same_pin, same_registration),
            ) && held@ == session && same_pin == pin && same_registration == registration
                && cbor::is_command(
                payload@,
                pin::CLIENT_PIN_COMMAND,
                pin::token_parameters(session, pin@),
            ),
        },
        CredentialCall::Pin(PinExchange::Exchanging(session), pin, registration) => match
        pin::token_in(session@.shared, response) {
            Err(fault) => turn matches Turn::Done(Err(err)) && crate::error::reports(err, fault),
            Ok(token) => asks_for_credential(registration, Some(token), turn),
        },
        CredentialCall::Registering(options) => match credential_in(response) {
            Err(fault) => turn matches Turn::Done(Err(err)) && crate::error::reports(err, fault),
            Ok(data) => turn matches Turn::Done(Ok(credential)) && holds(
                credential,
                as_requested(data, *options),
            ),
        },
    }
}

impl<'a> CredentialCall<'a> {
    /// Open the run with a PIN and the platform's half of the key agreement.
    pub fn start(agreement: KeyAgreement, pin: &'a str, registration: Registration<'a>) -> (turn:
        Turn<CredentialCall<'a>, Credential>)
        ensures
            turn matches Turn::Send(
                payload,
                CredentialCall::Pin(PinExchange::Agreeing(held), same_pin, same_registration),
            ) && held@ == agreement@ && same_pin == pin && same_registration == registration
                && cbor::is_command(
                payload@,
                pin::CLIENT_PIN_COMMAND,
                pin::subcommand_parameters(pin::GET_KEY_AGREEMENT),
            ),
    {
        match PinExchange::start(agreement) {
            Turn::Send(payload, exchange) => Turn::Send(
                payload,
                CredentialCall::Pin(exchange, pin, registration),
            ),
            Turn::Done(Err(err)) => Turn::Done(Err(err)),
            Turn::Done(Ok((_, token))) => CredentialCall::ask(registration, token),
        }
    }

    /// Request the registration.
    pub fn ask(registration: Registration<'a>, token: Option<PinToken>) -> (turn: Turn<
        CredentialCall<'a>,
        Credential,
    >)
        ensures
            asks_for_credential(
                registration,
                match token {
                    Some(token) => Some(token@),
                    None => None,
                },
                turn,
            ),
    {
        match request(&registration, token.as_ref()) {
            Ok(payload) => Turn::Send(payload, CredentialCall::Registering(registration.options)),
            Err(err) => Turn::Done(Err(err)),
        }
    }

    /// Go on with the device's response.
    pub fn resume(self, response: &[u8]) -> (turn: Turn<CredentialCall<'a>, Credential>)
        ensures
            credential_step(self, response@, turn),
    {
        match self {
            CredentialCall::Pin(exchange, pin, registration) => match exchange.resume(
                Some(pin),
                response,
            ) {
                Turn::Send(payload, next) => Turn::Send(
                    payload,
                    CredentialCall::Pin(next, pin, registration),
                ),
                Turn::Done(Err(err)) => Turn::Done(Err(err)),
                Turn::Done(Ok((_, token))) => CredentialCall::ask(registration, token),
            },
            CredentialCall::Registering(options) => Turn::Done(finish(options, response)),
        }
    }
}

/// Register a credential bound to `hmac-secret`: send what each [`Turn::Send`] holds, and hand
/// the response to [`CredentialCall::resume`]. With a PIN, a token is fetched first, over a
/// random key agreement. The user is random.
pub fn call<'a>(
    rp_id: &'a str,
    client_data_hash: &'a [u8; 32],
    options: &'a MakeCredentialOptions<'a>,
) -> (turn: Turn<CredentialCall<'a>, Credential>)
    ensures
        match options.pin {
            None => exists|registration: Registration<'a>|
                is_registration(registration, rp_id, client_data_hash, options)
                    && #[trigger] asks_for_credential(registration, None, turn),
            Some(pin) => turn matches Turn::Send(
                payload,
                CredentialCall::Pin(PinExchange::Agreeing(_), same_pin, registration),
            ) && same_pin == pin && is_registration(
                registration,
                rp_id,
                client_data_hash,
                options,
            ) && cbor::is_command(
                payload@,
                pin::CLIENT_PIN_COMMAND,
                pin::subcommand_parameters(pin::GET_KEY_AGREEMENT),
            ),
        },
{
    let registration = Registration::new(rp_id, client_data_hash, options);
    match options.pin {
        Some(pin) => CredentialCall::start(KeyAgreement::generate(), pin, registration),
        None => CredentialCall::ask(registration, None),
    }
}

} // verus!
