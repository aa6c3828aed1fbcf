//! `authenticatorGetAssertion` (CTAP2 0x02), with an `hmac-secret` helper.

use crate::cbor;
use crate::cbor::{CborValue, Value};
use crate::cmd::{HmacSecret, Turn};
use crate::cose;
use crate::cose::CredentialPublicKey;
use crate::error::{CtapStatus, Error, Fault};
use crate::hid;
use crate::laws::assertion;
use crate::outside::item;
use crate::pin;
use crate::pin::{cbc, KeyAgreement, PinExchange, PinSession, PinToken, Session};
use crate::text;
use vstd::prelude::*;

verus! {

/// CTAP2 command byte for `authenticatorGetAssertion`.
pub const COMMAND: u8 = 0x02;

/// `PublicKeyCredentialUserEntity` from a `getAssertion` response.
#[derive(Clone, Debug, PartialEq, Eq)]
pub struct User {
    /// User handle bytes. Always present.
    pub id: Vec<u8>,
    /// Account name (e.g. `"alice@example.com"`).
    pub name: Option<String>,
    /// Human-friendly display name.
    pub display_name: Option<String>,
}

/// Parsed `authenticatorGetAssertion` response.
#[derive(Clone, Debug)]
pub struct Assertion {
    /// Credential id of the selected credential.
    pub credential_id: Option<Vec<u8>>,
    /// Raw `authData` bytes.
    pub auth_data: Vec<u8>,
    /// Assertion signature over `authData || clientDataHash`.
    pub signature: Vec<u8>,
    /// User entity, populated when the credential is resident (rk=true).
    pub user: Option<User>,
    /// Total number of credentials the device has for this request. When `> 1` the caller
    /// should issue `getNextAssertion` to retrieve the remaining matches.
    pub number_of_credentials: Option<u32>,
}

/// What a [`User`] says.
pub struct UserData {
    pub id: Seq<u8>,
    pub name: Option<Seq<char>>,
    pub display_name: Option<Seq<char>>,
}

/// What an [`Assertion`] says.
pub struct AssertionData {
    pub credential_id: Option<Seq<u8>>,
    pub auth_data: Seq<u8>,
    pub signature: Seq<u8>,
    pub user: Option<UserData>,
    pub number_of_credentials: Option<u32>,
}

impl View for User {
    type V = UserData;

    open spec fn view(&self) -> UserData {
        UserData {
            id: self.id@,
            name: text::text_view(self.name),
            display_name: text::text_view(self.display_name),
        }
    }
}

/// What a user entity that may be there says.
pub open spec fn user_view(user: Option<User>) -> Option<UserData> {
    match user {
        Some(user) => Some(user@),
        None => None,
    }
}

impl View for Assertion {
    type V = AssertionData;

    open spec fn view(&self) -> AssertionData {
        AssertionData {
            credential_id: text::bytes_view(self.credential_id),
            auth_data: self.auth_data@,
            signature: self.signature@,
            user: user_view(self.user),
            number_of_credentials: self.number_of_credentials,
        }
    }
}

/// The text that a field may hold.
pub open spec fn text_in(value: Option<CborValue>) -> Option<Seq<char>> {
    match value {
        Some(CborValue::Text(text)) => Some(text),
        _ => None,
    }
}

/// The byte string that a field may hold.
pub open spec fn bytes_in(value: Option<CborValue>) -> Option<Seq<u8>> {
    match value {
        Some(CborValue::Bytes(bytes)) => Some(bytes),
        _ => None,
    }
}

/// The 32-bit number that a field may hold.
pub open spec fn u32_in(value: Option<CborValue>) -> Option<u32> {
    match value {
        Some(CborValue::Integer(i)) => if 0 <= i <= u32::MAX {
            Some(i as u32)
        } else {
            None
        },
        _ => None,
    }
}

/// The credential id in a credential descriptor.
pub open spec fn descriptor_id(value: Option<CborValue>) -> Option<Seq<u8>> {
    match value {
        Some(CborValue::Mapping(entries)) => bytes_in(cbor::entry(entries, cbor::name_key("id"@))),
        _ => None,
    }
}

/// The user entity that a field may hold: a map with at least the handle.
pub open spec fn user_in(value: Option<CborValue>) -> Option<UserData> {
    match value {
        Some(CborValue::Mapping(entries)) => {
            let named = cbor::without(entries, cbor::name_key("id"@));
            let shown = cbor::without(named, cbor::name_key("name"@));
            match bytes_in(cbor::entry(entries, cbor::name_key("id"@))) {
                Some(id) => Some(
                    UserData {
                        id,
                        name: text_in(cbor::entry(named, cbor::name_key("name"@))),
                        display_name: text_in(
                            cbor::entry(shown, cbor::name_key("displayName"@)),
                        ),
                    },
                ),
                None => None,
            }
        },
        _ => None,
    }
}

/// What is left of a response's entries once the fields numbered `1` to `k` are out.
pub open spec fn beyond(entries: Seq<(CborValue, CborValue)>, k: nat) -> Seq<
    (CborValue, CborValue),
>
    decreases k,
{
    if k == 0 {
        entries
    } else {
        cbor::without(beyond(entries, (k - 1) as nat), cbor::number_key(k as int))
    }
}

/// What is found under `k` once the fields numbered below it are out.
pub open spec fn kth(entries: Seq<(CborValue, CborValue)>, k: nat) -> Option<CborValue> {
    cbor::entry(beyond(entries, (k - 1) as nat), cbor::number_key(k as int))
}

/// In a map without repeated keys, taking the fields out one by one finds in each what the map
/// held there.
pub proof fn law_fields_by_number(entries: Seq<(CborValue, CborValue)>, k: nat)
    requires
        cbor::distinct_keys(entries),
        k > 0,
    ensures
        kth(entries, k) == cbor::entry(entries, cbor::number_key(k as int)),
{
    lemma_beyond(entries, (k - 1) as nat, k);
}

proof fn lemma_beyond(entries: Seq<(CborValue, CborValue)>, k: nat, other: nat)
    requires
        cbor::distinct_keys(entries),
        other > k,
    ensures
        cbor::distinct_keys(beyond(entries, k)),
        cbor::entry(beyond(entries, k), cbor::number_key(other as int)) == cbor::entry(
            entries,
            cbor::number_key(other as int),
        ),
    decreases k,
{
    if k > 0 {
        lemma_beyond(entries, (k - 1) as nat, other);
        cbor::law_take_leaves_the_rest(
            beyond(entries, (k - 1) as nat),
            cbor::number_key(k as int),
            cbor::number_key(other as int),
        );
    }
}

/// What a decoded `getAssertion` or `getNextAssertion` response says.
pub open spec fn assertion_of(map: CborValue) -> Result<AssertionData, Fault> {
    match map {
        CborValue::Mapping(entries) => if bytes_in(kth(entries, 2)) is None {
            Err(Fault::Parse("getAssertion response missing authData"@))
        } else if bytes_in(kth(entries, 3)) is None {
            Err(Fault::Parse("getAssertion response missing signature"@))
        } else {
            Ok(
                AssertionData {
                    credential_id: descriptor_id(kth(entries, 1)),
                    auth_data: bytes_in(kth(entries, 2))->0,
                    signature: bytes_in(kth(entries, 3))->0,
                    user: user_in(kth(entries, 4)),
                    number_of_credentials: u32_in(kth(entries, 5)),
                },
            )
        },
        _ => Err(Fault::Parse("getAssertion response not a CBOR map"@)),
    }
}

/// What a `getAssertion` or `getNextAssertion` response says.
pub open spec fn assertion_in(response: Seq<u8>) -> Result<AssertionData, Fault> {
    match cbor::whole_item(response) {
        Err(fault) => Err(fault),
        Ok(map) => assertion_of(map),
    }
}

/// Parse a CBOR-encoded `getAssertion` / `getNextAssertion` response.
///
/// # Errors
///
/// [`Error::Cbor`] if the response is no CBOR item, [`Error::Parse`] if it is no map or lacks
/// `authData` or the signature.
pub fn parse_response(response: &[u8]) -> (r: Result<Assertion, Error>)
    ensures
        crate::error::agrees(r, assertion_in(response@)),
{
    parse(cbor::decode(response)?)
}

/// Parse a decoded `getAssertion` / `getNextAssertion` response.
///
/// # Errors
///
/// [`Error::Parse`] if it is no map or lacks `authData` or the signature.
pub fn parse(map: Value) -> (r: Result<Assertion, Error>)
    ensures
        crate::error::seen(r) == assertion_of(map@),
{
    let mut entries = match map {
        Value::Mapping(entries) => {
            proof {
                cbor::lemma_mapping_model(entries);
            }
            entries
        },
        _ => return Err(Error::Parse("getAssertion response not a CBOR map")),
    };
    proof {
        reveal_with_fuel(beyond, 6);
    }
    let credential_id = parse_descriptor(cbor::take_int_field(&mut entries, 0x01));
    let auth_data = match cbor::take_int_field(&mut entries, 0x02) {
        Some(Value::Bytes(bytes)) => bytes,
        _ => return Err(Error::Parse("getAssertion response missing authData")),
    };
    let signature = match cbor::take_int_field(&mut entries, 0x03) {
        Some(Value::Bytes(bytes)) => bytes,
        _ => return Err(Error::Parse("getAssertion response missing signature")),
    };
    let user = parse_user(cbor::take_int_field(&mut entries, 0x04));
    let number_of_credentials = match cbor::take_int_field(&mut entries, 0x05) {
        Some(Value::Integer(i)) => if 0 <= i && i <= 0xFFFF_FFFF {
            Some(i as u32)
        } else {
            None
        },
        _ => None,
    };
    Ok(Assertion { credential_id, auth_data, signature, user, number_of_credentials })
}

/// What a value that may be there holds.
pub open spec fn value_view(value: Option<Value>) -> Option<CborValue> {
    match value {
        Some(value) => Some(value@),
        None => None,
    }
}

fn parse_descriptor(value: Option<Value>) -> (r: Option<Vec<u8>>)
    ensures
        text::bytes_view(r) == descriptor_id(value_view(value)),
{
    match value {
        Some(Value::Mapping(mut descriptor)) => {
            proof {
                cbor::lemma_mapping_model(descriptor);
            }
            match cbor::take_text_field(&mut descriptor, "id") {
                Some(Value::Bytes(bytes)) => Some(bytes),
                _ => None,
            }
        },
        _ => None,
    }
}

fn parse_user(value: Option<Value>) -> (r: Option<User>)
    ensures
        user_view(r) == user_in(value_view(value)),
{
    let mut entries = match value {
        Some(Value::Mapping(entries)) => {
            proof {
                cbor::lemma_mapping_model(entries);
            }
            entries
        },
        _ => return None,
    };
    let id = match cbor::take_text_field(&mut entries, "id") {
        Some(Value::Bytes(bytes)) => bytes,
        _ => return None,
    };
    let name = match cbor::take_text_field(&mut entries, "name") {
        Some(Value::Text(text)) => Some(text),
        _ => None,
    };
    let display_name = match cbor::take_text_field(&mut entries, "displayName") {
        Some(Value::Text(text)) => Some(text),
        _ => None,
    };
    Some(User { id, name, display_name })
}

/// How an assertion treats user presence.
#[derive(Copy, Clone, Debug, PartialEq, Eq, Structural)]
pub enum AssertionOptions {
    /// The device asks for a touch, as it does by default.
    Interactive,
    /// No touch: `up` is turned off.
    Silent,
}

/// The bytes of each id in an allow list.
pub open spec fn ids(allow_list: Seq<&[u8]>) -> Seq<Seq<u8>> {
    Seq::new(allow_list.len(), |i: int| allow_list[i]@)
}

/// The descriptor of a credential.
pub open spec fn descriptor(id: Seq<u8>) -> CborValue {
    CborValue::Mapping(
        seq![
            (CborValue::Text("id"@), CborValue::Bytes(id)),
            (CborValue::Text("type"@), CborValue::Text("public-key"@)),
        ],
    )
}

/// The descriptors of the credentials in an allow list.
pub open spec fn descriptors(allow_list: Seq<Seq<u8>>) -> Seq<CborValue> {
    Seq::new(allow_list.len(), |i: int| descriptor(allow_list[i]))
}

/// What an assertion asks for.
pub struct AssertionQuery {
    pub rp_id: Seq<char>,
    pub client_data_hash: Seq<u8>,
    pub allow_list: Seq<Seq<u8>>,
    pub extensions: Option<CborValue>,
    pub options: AssertionOptions,
    pub pin_token: Option<Seq<u8>>,
}

/// The allow list parameter: none for an empty list, which asks for discovery.
pub open spec fn allow_list_entries(query: AssertionQuery) -> Seq<(CborValue, CborValue)> {
    if query.allow_list.len() == 0 {
        Seq::empty()
    } else {
        seq![(CborValue::Integer(3), CborValue::Array(descriptors(query.allow_list)))]
    }
}

/// The extensions parameter.
pub open spec fn extension_entries(query: AssertionQuery) -> Seq<(CborValue, CborValue)> {
    match query.extensions {
        Some(extensions) => seq![(CborValue::Integer(4), extensions)],
        None => Seq::empty(),
    }
}

/// The options parameter.
pub open spec fn option_entries(query: AssertionQuery) -> Seq<(CborValue, CborValue)> {
    match query.options {
        AssertionOptions::Interactive => Seq::empty(),
        AssertionOptions::Silent => seq![
            (
                CborValue::Integer(5),
                CborValue::Mapping(seq![(CborValue::Text("up"@), CborValue::Bool(false))]),
            ),
        ],
    }
}

/// The parameters that prove the PIN: the client data hash authenticated under the token, and
/// the protocol's number.
pub open spec fn pin_entries(query: AssertionQuery) -> Seq<(CborValue, CborValue)> {
    match query.pin_token {
        Some(token) => seq![
            (
                CborValue::Integer(6),
                CborValue::Bytes(pin::half_tag(query.client_data_hash, token)),
            ),
            (CborValue::Integer(7), CborValue::Integer(pin::PROTOCOL_V1 as int)),
        ],
        None => Seq::empty(),
    }
}

/// The parameters of a `getAssertion` request.
pub open spec fn parameters(query: AssertionQuery) -> CborValue {
    CborValue::Mapping(
        seq![
            (CborValue::Integer(1), CborValue::Text(query.rp_id)),
            (CborValue::Integer(2), CborValue::Bytes(query.client_data_hash)),
        ] + allow_list_entries(query) + extension_entries(query) + option_entries(query)
            + pin_entries(query),
    )
}

/// Every parameter of a request stands under its number: the relying party, the client data
/// hash, the allow list unless it is empty, the extensions where there are any, `up` turned off
/// in a silent probe, and the two PIN parameters where there is a token. Nothing else stands
/// under a number.
pub proof fn law_parameters_by_number(query: AssertionQuery, k: int)
    ensures
        cbor::field(parameters(query), cbor::number_key(k)) == (if k == 1 {
            Some(CborValue::Text(query.rp_id))
        } else if k == 2 {
            Some(CborValue::Bytes(query.client_data_hash))
        } else if k == 3 && query.allow_list.len() > 0 {
            Some(CborValue::Array(descriptors(query.allow_list)))
        } else if k == 4 {
            query.extensions
        } else if k == 5 && query.options == AssertionOptions::Silent {
            Some(CborValue::Mapping(seq![(CborValue::Text("up"@), CborValue::Bool(false))]))
        } else if k == 6 && query.pin_token is Some {
            Some(CborValue::Bytes(pin::half_tag(query.client_data_hash, query.pin_token->0)))
        } else if k == 7 && query.pin_token is Some {
            Some(CborValue::Integer(pin::PROTOCOL_V1 as int))
        } else {
            None
        }),
{
    reveal_with_fuel(cbor::position, 4);
    let key = cbor::number_key(k);
    let fixed = seq![
        (CborValue::Integer(1), CborValue::Text(query.rp_id)),
        (CborValue::Integer(2), CborValue::Bytes(query.client_data_hash)),
    ];
    let listed = fixed + allow_list_entries(query);
    let extended = listed + extension_entries(query);
    let optioned = extended + option_entries(query);
    cbor::lemma_entry_in_runs(fixed, allow_list_entries(query), key);
    cbor::lemma_entry_in_runs(listed, extension_entries(query), key);
    cbor::lemma_entry_in_runs(extended, option_entries(query), key);
    cbor::lemma_entry_in_runs(optioned, pin_entries(query), key);
    assert(fixed.drop_first().drop_first() =~= Seq::empty());
    if query.pin_token is Some {
        assert(pin_entries(query).drop_first().drop_first() =~= Seq::empty());
    }
}

/// Whether a payload is the request for an assertion: the command byte, the one form of the
/// parameters where the caller's extensions hold no NaN, and the parameters for whoever decodes
/// it, where the extensions read back as they are.
pub open spec fn is_request(payload: Seq<u8>, query: AssertionQuery) -> bool {
    let depth = (cbor::MAX_NESTING - 1) as nat;
    &&& payload.len() > 0 && payload[0] == COMMAND
    &&& (query.extensions matches Some(extensions) ==> !cbor::has_nan(extensions)) ==> payload
        == cbor::command_bytes(COMMAND, parameters(query))
    &&& (query.extensions matches Some(extensions) ==> cbor::restorable(extensions, depth))
        ==> cbor::decoded(payload.skip(1)) == Some(parameters(query))
}

/// Each parameter but the caller's extensions survives the way through CBOR.
proof fn lemma_parameter(query: AssertionQuery, i: int)
    requires
        0 <= i < parameters(query)->Mapping_0.len(),
    ensures
        ({
            let entry = parameters(query)->Mapping_0[i];
            &&& cbor::faithful(entry.0, 2)
            &&& cbor::faithful(entry.1, 2) || query.extensions == Some(entry.1)
        }),
{
    let items = descriptors(query.allow_list);
    assert forall|j: int| 0 <= j < items.len() implies cbor::faithful(#[trigger] items[j], 1) by {
        cbor::lemma_faithful_mapping(items[j]->Mapping_0, 0);
    }
    cbor::lemma_faithful_array(items, 1);
    let up = seq![(CborValue::Text("up"@), CborValue::Bool(false))];
    cbor::lemma_faithful_mapping(up, 0);
    cbor::lemma_faithful_deeper(CborValue::Mapping(up), 1, 2);
    let fixed = seq![
        (CborValue::Integer(1), CborValue::Text(query.rp_id)),
        (CborValue::Integer(2), CborValue::Bytes(query.client_data_hash)),
    ];
    let listed = fixed + allow_list_entries(query);
    let extended = listed + extension_entries(query);
    let optioned = extended + option_entries(query);
    let entry = parameters(query)->Mapping_0[i];
    if i < fixed.len() {
        assert(entry == fixed[i]);
    } else if i < listed.len() {
        assert(entry == allow_list_entries(query)[i - fixed.len()]);
    } else if i < extended.len() {
        assert(entry == extension_entries(query)[i - listed.len()]);
    } else if i < optioned.len() {
        assert(entry == option_entries(query)[i - extended.len()]);
    } else {
        assert(entry == pin_entries(query)[i - optioned.len()]);
    }
}

/// The parameters are encodable, free of NaNs and restorable where the caller's extensions are.
proof fn lemma_parameters(query: AssertionQuery)
    ensures
        cbor::encodable(parameters(query)) == (query.extensions matches Some(extensions)
            ==> cbor::encodable(extensions)),
        (query.extensions matches Some(extensions) ==> !cbor::has_nan(extensions))
            ==> !cbor::has_nan(parameters(query)),
        (query.extensions matches Some(extensions) ==> cbor::restorable(
            extensions,
            (cbor::MAX_NESTING - 1) as nat,
        )) ==> cbor::restorable(parameters(query), cbor::MAX_NESTING as nat),
{
    let entries = parameters(query)->Mapping_0;
    let depth = (cbor::MAX_NESTING - 1) as nat;
    assert forall|i: int| 0 <= i < entries.len() implies cbor::faithful(
        (#[trigger] entries[i]).0,
        depth,
    ) && (cbor::faithful(entries[i].1, depth) || query.extensions == Some(entries[i].1)) by {
        lemma_parameter(query, i);
        cbor::lemma_faithful_deeper(entries[i].0, 2, depth);
        if query.extensions != Some(entries[i].1) {
            cbor::lemma_faithful_deeper(entries[i].1, 2, depth);
        }
    }
    cbor::lemma_encodable_mapping(entries);
    match query.extensions {
        Some(extensions) => {
            let at = 2 + allow_list_entries(query).len();
            assert(entries[at as int] == (CborValue::Integer(4), extensions));
        },
        None => {},
    }
    if cbor::has_nan(parameters(query)) {
        cbor::lemma_nan_in_mapping(entries);
        let i = choose|i: int|
            0 <= i < entries.len() && (cbor::has_nan((#[trigger] entries[i]).0) || cbor::has_nan(
                entries[i].1,
            ));
        assert(cbor::faithful(entries[i].0, depth));
    }
    if query.extensions matches Some(extensions) ==> cbor::restorable(extensions, depth) {
        cbor::lemma_restorable_mapping(entries, depth);
    }
}

/// The bytes of a token that may be there.
pub open spec fn token_view(token: Option<&PinToken>) -> Option<Seq<u8>> {
    match token {
        Some(token) => Some(token@),
        None => None,
    }
}

/// The payload of a generic `getAssertion`. Empty `allow_list` omits the field and triggers
/// resident-credential discovery.
///
/// # Errors
///
/// [`Error::Cbor`] if an integer in the extensions is out of CBOR's range, and then only.
pub fn request(
    rp_id: &str,
    client_data_hash: &[u8; 32],
    allow_list: &[&[u8]],
    extensions: Option<Value>,
    pin_token: Option<&PinToken>,
) -> (r: Result<Vec<u8>, Error>)
    ensures
        match r {
            Ok(payload) => (extensions matches Some(value) ==> cbor::encodable(value@))
                && is_request(
                payload@,
                AssertionQuery {
                    rp_id: rp_id@,
                    client_data_hash: client_data_hash@,
                    allow_list: ids(allow_list@),
                    extensions: value_view(extensions),
                    options: AssertionOptions::Interactive,
                    pin_token: token_view(pin_token),
                },
            ),
            Err(err) => (extensions matches Some(value) && !cbor::encodable(value@)) && err@
                == cbor::out_of_range(),
        },
{
    request_with_options(
        rp_id,
        client_data_hash,
        allow_list,
        extensions,
        pin_token,
        AssertionOptions::Interactive,
    )
}

/// The payload of a `getAssertion` with a say in user presence.
///
/// # Errors
///
/// [`Error::Cbor`] if an integer in the extensions is out of CBOR's range, and then only.
pub fn request_with_options(
    rp_id: &str,
    client_data_hash: &[u8; 32],
    allow_list: &[&[u8]],
    extensions: Option<Value>,
    pin_token: Option<&PinToken>,
    options: AssertionOptions,
) -> (r: Result<Vec<u8>, Error>)
    ensures
        match r {
            Ok(payload) => (extensions matches Some(value) ==> cbor::encodable(value@))
                && is_request(
                payload@,
                AssertionQuery {
                    rp_id: rp_id@,
                    client_data_hash: client_data_hash@,
                    allow_list: ids(allow_list@),
                    extensions: value_view(extensions),
                    options,
                    pin_token: token_view(pin_token),
                },
            ),
            Err(err) => (extensions matches Some(value) && !cbor::encodable(value@)) && err@
                == cbor::out_of_range(),
        },
{
    let ghost query = AssertionQuery {
        rp_id: rp_id@,
        client_data_hash: client_data_hash@,
        allow_list: ids(allow_list@),
        extensions: value_view(extensions),
        options,
        pin_token: token_view(pin_token),
    };
    let mut entries: Vec<(Value, Value)> = Vec::new();
    entries.push((Value::Integer(1), Value::Text(rp_id.to_owned())));
    entries.push(
        (Value::Integer(2), Value::Bytes(text::copy_bytes(client_data_hash.as_slice()))),
    );
    if allow_list.len() > 0 {
        entries.push((Value::Integer(3), credential_descriptors(allow_list)));
    }
    let ghost listed = cbor::entry_models(entries@);
    assert(listed =~= seq![
        (CborValue::Integer(1), CborValue::Text(query.rp_id)),
        (CborValue::Integer(2), CborValue::Bytes(query.client_data_hash)),
    ] + allow_list_entries(query));
    if let Some(value) = extensions {
        entries.push((Value::Integer(4), value));
    }
    let ghost extended = cbor::entry_models(entries@);
    assert(extended =~= listed + extension_entries(query));
    if options == AssertionOptions::Silent {
        entries.push((Value::Integer(5), presence_off()));
    }
    let ghost optioned = cbor::entry_models(entries@);
    assert(optioned =~= extended + option_entries(query));
    if let Some(token) = pin_token {
        let pin_auth = token.auth_param(client_data_hash.as_slice());
        entries.push((Value::Integer(6), Value::Bytes(text::copy_bytes(pin_auth.as_slice()))));
        entries.push((Value::Integer(7), Value::Integer(pin::PROTOCOL_V1 as i128)));
    }
    proof {
        assert(cbor::entry_models(entries@) =~= optioned + pin_entries(query));
        cbor::lemma_mapping_model(entries);
        lemma_parameters(query);
    }
    cbor::encode_command(COMMAND, &Value::Mapping(entries))
}

/// The options map that turns user presence off.
fn presence_off() -> (r: Value)
    ensures
        r@ == CborValue::Mapping(seq![(CborValue::Text("up"@), CborValue::Bool(false))]),
{
    let mut entries: Vec<(Value, Value)> = Vec::new();
    entries.push((Value::Text("up".to_owned()), Value::Bool(false)));
    proof {
        cbor::lemma_mapping_model(entries);
        assert(cbor::entry_models(entries@) =~= seq![
            (CborValue::Text("up"@), CborValue::Bool(false)),
        ]);
    }
    Value::Mapping(entries)
}

/// The descriptors of the credentials in an allow list.
fn credential_descriptors(allow_list: &[&[u8]]) -> (r: Value)
    ensures
        r@ == CborValue::Array(descriptors(ids(allow_list@))),
{
    let mut out: Vec<Value> = Vec::new();
    let mut i: usize = 0;
    while i < allow_list.len()
        invariant
            i <= allow_list@.len(),
            out@.len() == i,
            forall|j: int| 0 <= j < i ==> (#[trigger] out@[j])@ == descriptor(allow_list@[j]@),
        decreases allow_list.len() - i,
    {
        let mut entries: Vec<(Value, Value)> = Vec::new();
        entries.push((Value::Text("id".to_owned()), Value::Bytes(text::copy_bytes(allow_list[i]))));
        entries.push((Value::Text("type".to_owned()), Value::Text("public-key".to_owned())));
        proof {
            cbor::lemma_mapping_model(entries);
            assert(cbor::entry_models(entries@) =~= descriptor(
                allow_list@[i as int]@,
            )->Mapping_0);
        }
        out.push(Value::Mapping(entries));
        i += 1;
    }
    proof {
        cbor::lemma_array_model(out);
        assert(cbor::item_models(out@) =~= descriptors(ids(allow_list@)));
    }
    Value::Array(out)
}

/// Whether the flags of some `authData` say that attested credential data follows.
pub open spec fn has_attested(flags: u8) -> bool {
    flags / 64 % 2 == 1
}

/// Whether the flags of some `authData` say that extensions follow.
pub open spec fn has_extensions(flags: u8) -> bool {
    flags >= 128
}

/// Where the extensions in some `authData` are to be looked for: behind the head, or behind the
/// key item that starts there.
///
/// ```text
/// rpIdHash(32) | flags(1) | signCount(4)
///   [if AT (0x40)]: aaguid(16) | credIdLen(2 BE) | credId | credPubKey(CBOR)
///   [if ED (0x80)]: extensions(CBOR map)
/// ```
pub open spec fn extensions_start(auth_data: Seq<u8>) -> Result<(nat, bool), Fault> {
    if auth_data.len() < 37 {
        Err(Fault::Parse("authData truncated before flags"@))
    } else if !has_extensions(auth_data[32]) {
        Err(Fault::MissingExtension("hmac-secret"@))
    } else if !has_attested(auth_data[32]) {
        Ok((37, false))
    } else if auth_data.len() < 55 {
        Err(Fault::Parse("authData truncated in attested credential"@))
    } else {
        let key_start = 55 + hid::be16(auth_data[53], auth_data[54]);
        if key_start > auth_data.len() {
            Err(Fault::Parse("credId length exceeds authData"@))
        } else {
            Ok((key_start, true))
        }
    }
}

/// The extensions in some `authData`.
pub open spec fn extensions_in(auth_data: Seq<u8>) -> Result<CborValue, Fault> {
    match extensions_start(auth_data) {
        Err(fault) => Err(fault),
        Ok((start, behind_key)) => if behind_key {
            match item::leading_item(auth_data.skip(start as int)) {
                None => Err(Fault::Cbor(None)),
                Some((_, used)) => cbor::whole_item(auth_data.skip((start + used) as int)),
            }
        } else {
            cbor::whole_item(auth_data.skip(start as int))
        },
    }
}

/// The fixed head of some `authData`.
pub open spec fn head_layout(rp_id_hash: Seq<u8>, flags: u8, sign_count: Seq<u8>) -> Seq<u8> {
    rp_id_hash + seq![flags] + sign_count
}

/// Attested credential data.
pub open spec fn attested_layout(aaguid: Seq<u8>, id: Seq<u8>, key: Seq<u8>) -> Seq<u8> {
    aaguid + seq![(id.len() / 256) as u8, (id.len() % 256) as u8] + id + key
}

/// Extensions that stand in `authData` in their place are the ones that are found: directly
/// behind the head, or behind the attested credential whose key is the item before them.
pub proof fn law_extensions_are_found_in_place(
    rp_id_hash: Seq<u8>,
    flags: u8,
    sign_count: Seq<u8>,
    aaguid: Seq<u8>,
    id: Seq<u8>,
    key: Seq<u8>,
    extensions: Seq<u8>,
)
    requires
        rp_id_hash.len() == 32,
        sign_count.len() == 4,
        aaguid.len() == 16,
        id.len() <= 0xFFFF,
        has_extensions(flags),
    ensures
        !has_attested(flags) ==> extensions_in(
            head_layout(rp_id_hash, flags, sign_count) + extensions,
        ) == cbor::whole_item(extensions),
        has_attested(flags) ==> (item::leading_item(key + extensions) matches Some((_, used))
            && used == key.len() ==> extensions_in(
            head_layout(rp_id_hash, flags, sign_count) + attested_layout(aaguid, id, key)
                + extensions,
        ) == cbor::whole_item(extensions)),
{
    let head = head_layout(rp_id_hash, flags, sign_count);
    if !has_attested(flags) {
        let auth_data = head + extensions;
        assert(auth_data[32] == flags);
        assert(auth_data.skip(37) =~= extensions);
    } else {
        let auth_data = head + attested_layout(aaguid, id, key) + extensions;
        assert(auth_data[32] == flags);
        assert(auth_data[53] == (id.len() / 256) as u8);
        assert(auth_data[54] == (id.len() % 256) as u8);
        assert(hid::be16(auth_data[53], auth_data[54]) == id.len());
        assert(auth_data.skip((55 + id.len()) as int) =~= key + extensions);
        assert(auth_data.skip((55 + id.len() + key.len()) as int) =~= extensions);
    }
}

/// Reads the two flags that say what follows in some `authData`.
pub fn read_flags(flags: u8) -> (r: (bool, bool))
    ensures
        r.0 == has_attested(flags),
        r.1 == has_extensions(flags),
{
    assert((flags & 0x40 != 0) == (flags / 64 % 2 == 1)) by (bit_vector);
    assert((flags & 0x80 != 0) == (flags >= 128)) by (bit_vector);
    (flags & 0x40 != 0, flags & 0x80 != 0)
}

/// Where to look for the extensions in `authData`, and whether a key item comes before them
/// there.
///
/// # Errors
///
/// [`Error::MissingExtension`] if there are none, [`Error::Parse`] if `authData` is cut short.
pub fn locate_extensions(auth_data: &[u8]) -> (r: Result<(usize, bool), Error>)
    ensures
        match r {
            Ok((start, behind_key)) => start <= auth_data@.len() && extensions_start(auth_data@)
                == Ok::<(nat, bool), Fault>((start as nat, behind_key)),
            Err(err) => extensions_start(auth_data@) == Err::<(nat, bool), Fault>(err@),
        },
{
    if auth_data.len() < 37 {
        return Err(Error::Parse("authData truncated before flags"));
    }
    let (attested, extended) = read_flags(auth_data[32]);
    if !extended {
        return Err(Error::MissingExtension("hmac-secret"));
    }
    if !attested {
        return Ok((37, false));
    }
    if auth_data.len() < 55 {
        return Err(Error::Parse("authData truncated in attested credential"));
    }
    let key_start: usize = 55 + (auth_data[53] as usize * 256 + auth_data[54] as usize);
    if key_start > auth_data.len() {
        return Err(Error::Parse("credId length exceeds authData"));
    }
    Ok((key_start, true))
}

/// Pull the extensions CBOR map out of `authData`.
///
/// # Errors
///
/// As for [`locate_extensions`], and [`Error::Cbor`] if what should be CBOR is not.
pub fn decode_extensions(auth_data: &[u8]) -> (r: Result<Value, Error>)
    ensures
        crate::error::agrees(r, extensions_in(auth_data@)),
{
    let (start, behind_key) = locate_extensions(auth_data)?;
    let mut offset: usize = start;
    if behind_key {
        let rest = vstd::slice::slice_subrange(auth_data, offset, auth_data.len());
        assert(rest@ =~= auth_data@.skip(offset as int));
        let (_, used) = cbor::decode_leading(rest)?;
        offset = offset + used;
    }
    let rest = vstd::slice::slice_subrange(auth_data, offset, auth_data.len());
    assert(rest@ =~= auth_data@.skip(offset as int));
    cbor::decode(rest)
}

/// Inputs to [`call_hmac_secret`].
#[derive(Clone, Copy, Debug)]
pub struct HmacSecretRequest<'a> {
    /// Relying party id the credential was registered under.
    pub rp_id: &'a str,
    /// Per-call 32-byte client data hash. Random is fine.
    pub client_data_hash: &'a [u8; 32],
    /// Credential id from [`make_credential`](crate::cmd::make_credential).
    pub cred_id: &'a [u8],
    /// First HMAC salt.
    pub salt: &'a [u8; 32],
    /// Optional second salt. Some devices implement single-salt only and will be detected at
    /// response time.
    pub salt2: Option<&'a [u8; 32]>,
    /// PIN, when the device requires one.
    pub pin: Option<&'a str>,
    /// Credential public key. When `Some`, the assertion signature is verified before the
    /// output is decrypted.
    pub public_key: Option<&'a CredentialPublicKey>,
    /// Request the `credBlob` extension echo in the same assertion. The blob is whatever was
    /// stored at registration time via `MakeCredentialOptions::cred_blob`.
    pub request_cred_blob: bool,
}

/// What an [`HmacSecretRequest`] asks for.
pub struct HmacQuery {
    pub rp_id: Seq<char>,
    pub client_data_hash: Seq<u8>,
    pub cred_id: Seq<u8>,
    pub salt: Seq<u8>,
    pub salt2: Option<Seq<u8>>,
    pub pin: Option<Seq<char>>,
    pub public_key: Option<Seq<u8>>,
    pub request_cred_blob: bool,
}

impl<'a> View for HmacSecretRequest<'a> {
    type V = HmacQuery;

    open spec fn view(&self) -> HmacQuery {
        HmacQuery {
            rp_id: self.rp_id@,
            client_data_hash: self.client_data_hash@,
            cred_id: self.cred_id@,
            salt: self.salt@,
            salt2: match self.salt2 {
                Some(salt2) => Some(salt2@),
                None => None,
            },
            pin: text::str_view(self.pin),
            public_key: match self.public_key {
                Some(key) => Some(key@),
                None => None,
            },
            request_cred_blob: self.request_cred_blob,
        }
    }
}

/// Outputs from [`call_hmac_secret`].
pub struct HmacSecretResponse {
    /// First HMAC output. Always present.
    pub secret: HmacSecret,
    /// Second HMAC output. Present iff [`HmacSecretRequest::salt2`] was supplied and the
    /// device honored it.
    pub secret2: Option<HmacSecret>,
    /// `credBlob` bytes echoed by the device. Present iff
    /// [`HmacSecretRequest::request_cred_blob`] was `true` and the credential has a blob set.
    pub cred_blob: Option<Vec<u8>>,
}

/// What an [`HmacSecretResponse`] holds.
pub struct HmacOutput {
    pub secret: Seq<u8>,
    pub secret2: Option<Seq<u8>>,
    pub cred_blob: Option<Seq<u8>>,
}

impl View for HmacSecretResponse {
    type V = HmacOutput;

    open spec fn view(&self) -> HmacOutput {
        HmacOutput {
            secret: self.secret@,
            secret2: match self.secret2 {
                Some(secret) => Some(secret@),
                None => None,
            },
            cred_blob: text::bytes_view(self.cred_blob),
        }
    }
}

/// The salts as they are encrypted: the first, and behind it the second where there is one.
pub open spec fn salts(query: HmacQuery) -> Seq<u8> {
    match query.salt2 {
        Some(salt2) => query.salt + salt2,
        None => query.salt,
    }
}

/// The input of the `hmac-secret` extension: the platform's key, the encrypted salts, their
/// authentication under the shared secret, and the protocol's number.
pub open spec fn hmac_input(session: Session, query: HmacQuery) -> CborValue {
    let sealed = cbc::encrypted(session.shared, cbc::zero_block(), salts(query));
    CborValue::Mapping(
        seq![
            (CborValue::Integer(1), pin::agreement_key(session.x, session.y)),
            (CborValue::Integer(2), CborValue::Bytes(sealed)),
            (CborValue::Integer(3), CborValue::Bytes(pin::half_tag(sealed, session.shared))),
            (CborValue::Integer(4), CborValue::Integer(pin::PROTOCOL_V1 as int)),
        ],
    )
}

/// The extensions of an `hmac-secret` assertion.
pub open spec fn hmac_extensions(session: Session, query: HmacQuery) -> CborValue {
    CborValue::Mapping(
        seq![(CborValue::Text("hmac-secret"@), hmac_input(session, query))] + (
        if query.request_cred_blob {
            seq![(CborValue::Text("credBlob"@), CborValue::Bool(true))]
        } else {
            Seq::empty()
        }),
    )
}

/// The assertion that asks for the `hmac-secret` outputs.
pub open spec fn hmac_assertion(
    session: Session,
    query: HmacQuery,
    token: Option<Seq<u8>>,
) -> AssertionQuery {
    AssertionQuery {
        rp_id: query.rp_id,
        client_data_hash: query.client_data_hash,
        allow_list: seq![query.cred_id],
        extensions: Some(hmac_extensions(session, query)),
        options: AssertionOptions::Interactive,
        pin_token: token,
    }
}

/// The payload that asks for the `hmac-secret` outputs within a session. Whoever holds the shared
/// secret finds the salts in it.
pub fn hmac_secret_request(
    session: &PinSession,
    req: &HmacSecretRequest<'_>,
    pin_token: Option<&PinToken>,
) -> (r: Result<Vec<u8>, Error>)
    ensures
        r matches Ok(payload) && cbor::is_command(
            payload@,
            COMMAND,
            parameters(hmac_assertion(session@, req@, token_view(pin_token))),
        ),
        r matches Ok(payload) ==> (cbor::decoded(payload@.skip(1)) matches Some(map) && (
        cbor::field(map, CborValue::Integer(4)) matches Some(extensions) && (cbor::field(
            extensions,
            CborValue::Text("hmac-secret"@),
        ) matches Some(input) && (cbor::field(input, CborValue::Integer(2)) matches Some(
            CborValue::Bytes(sealed),
        ) && cbc::decrypted(session@.shared, Seq::new(16, |i: int| 0u8), sealed) == (
        match req.salt2 {
            Some(salt2) => req.salt@ + salt2@,
            None => req.salt@,
        }))))),
{
    let mut plain = text::copy_bytes(req.salt.as_slice());
    if let Some(salt2) = req.salt2 {
        text::push_bytes(&mut plain, salt2.as_slice());
    }
    assert(plain@ == salts(req@));
    let sealed = session.aes_cbc_encrypt(plain.as_slice())?;
    let tag = pin::hmac_truncated(session.shared_secret(), sealed.as_slice());
    let mut input: Vec<(Value, Value)> = Vec::new();
    input.push((Value::Integer(1), session.platform_cose_pubkey()?));
    input.push((Value::Integer(2), Value::Bytes(sealed)));
    input.push((Value::Integer(3), Value::Bytes(text::copy_bytes(tag.as_slice()))));
    input.push((Value::Integer(4), Value::Integer(pin::PROTOCOL_V1 as i128)));
    proof {
        cbor::lemma_mapping_model(input);
        assert(cbor::entry_models(input@) =~= hmac_input(session@, req@)->Mapping_0);
        assertion::law_hmac_call_extensions(session@, *req, token_view(pin_token));
        assertion::law_hmac_input_seals_the_salts(session@, *req, CborValue::Integer(2));
        assert(cbc::zero_block() =~= Seq::new(16, |i: int| 0u8));
    }
    let mut entries: Vec<(Value, Value)> = Vec::new();
    entries.push((Value::Text("hmac-secret".to_owned()), Value::Mapping(input)));
    if req.request_cred_blob {
        entries.push((Value::Text("credBlob".to_owned()), Value::Bool(true)));
    }
    proof {
        let models = hmac_extensions(session@, req@)->Mapping_0;
        cbor::lemma_mapping_model(entries);
        assert(cbor::entry_models(entries@) =~= models);
        pin::lemma_agreement_key_faithful(session@.x, session@.y);
        cbor::lemma_faithful_mapping(hmac_input(session@, req@)->Mapping_0, 1);
        cbor::lemma_faithful_mapping(models, 2);
        cbor::lemma_faithful_deeper(
            hmac_extensions(session@, req@),
            3,
            (cbor::MAX_NESTING - 1) as nat,
        );
    }
    let allow_list: [&[u8]; 1] = [req.cred_id];
    assert(ids(allow_list@) =~= seq![req@.cred_id]);
    request(
        req.rp_id,
        req.client_data_hash,
        allow_list.as_slice(),
        Some(Value::Mapping(entries)),
        pin_token,
    )
}

/// The `credBlob` in some extensions, where it was asked for.
pub open spec fn cred_blob_in(query: HmacQuery, extensions: CborValue) -> Option<Seq<u8>> {
    if query.request_cred_blob {
        bytes_in(cbor::field(extensions, cbor::name_key("credBlob"@)))
    } else {
        None
    }
}

/// The halves of a decrypted output: one for each salt.
pub open spec fn halves(plain: Seq<u8>, two_salts: bool) -> Result<
    (Seq<u8>, Option<Seq<u8>>),
    Fault,
> {
    if plain.len() == 32 && two_salts {
        Err(Fault::MissingExtension("hmac-secret salt2"@))
    } else if plain.len() == 32 || plain.len() == 64 {
        Ok(
            (
                plain.take(32),
                if two_salts {
                    Some(plain.skip(32))
                } else {
                    None
                },
            ),
        )
    } else {
        Err(Fault::Parse("hmac-secret output is neither 32 nor 64 bytes"@))
    }
}

/// What a pair of outputs holds.
pub open spec fn pair_view(pair: (HmacSecret, Option<HmacSecret>)) -> (Seq<u8>, Option<Seq<u8>>) {
    (
        pair.0@,
        match pair.1 {
            Some(second) => Some(second@),
            None => None,
        },
    )
}

/// Split a decrypted output into its halves.
///
/// # Errors
///
/// [`Error::MissingExtension`] if there is one half for two salts, [`Error::Parse`] if the
/// output is of another length than one or two halves.
pub fn split_output(plain: &[u8], two_salts: bool) -> (r: Result<
    (HmacSecret, Option<HmacSecret>),
    Error,
>)
    ensures
        match r {
            Ok(pair) => halves(plain@, two_salts) == Ok::<(Seq<u8>, Option<Seq<u8>>), Fault>(
                pair_view(pair),
            ),
            Err(err) => halves(plain@, two_salts) == Err::<(Seq<u8>, Option<Seq<u8>>), Fault>(
                err@,
            ),
        },
{
    if plain.len() == 32 {
        if two_salts {
            return Err(Error::MissingExtension("hmac-secret salt2"));
        }
    } else if plain.len() != 64 {
        return Err(Error::Parse("hmac-secret output is neither 32 nor 64 bytes"));
    }
    let first = text::to_array::<32>(vstd::slice::slice_subrange(plain, 0, 32));
    assert(plain@.subrange(0, 32) =~= plain@.take(32));
    let second = if two_salts {
        let second = text::to_array::<32>(vstd::slice::slice_subrange(plain, 32, 64));
        assert(plain@.subrange(32, 64) =~= plain@.skip(32));
        Some(HmacSecret(second))
    } else {
        None
    };
    Ok((HmacSecret(first), second))
}

/// The check of an assertion's signature over `authData || clientDataHash`; there is none
/// without a key.
pub open spec fn signature_check(
    query: HmacQuery,
    auth_data: Seq<u8>,
    signature: Seq<u8>,
) -> Result<(), Fault> {
    match query.public_key {
        Some(key) => cose::verified(
            cbor::decoded(key)->0,
            auth_data + query.client_data_hash,
            signature,
        ),
        None => Ok(()),
    }
}

/// The outputs in an assertion: its signature is checked first, where there is a key to check
/// it with; then the output is decrypted, and must hold one half for each salt.
pub open spec fn outputs_in(
    shared: Seq<u8>,
    query: HmacQuery,
    auth_data: Seq<u8>,
    signature: Seq<u8>,
) -> Result<HmacOutput, Fault> {
    match signature_check(query, auth_data, signature) {
        Err(fault) => Err(fault),
        Ok(_) => match extensions_in(auth_data) {
            Err(fault) => Err(fault),
            Ok(extensions) => match bytes_in(
                cbor::field(extensions, cbor::name_key("hmac-secret"@)),
            ) {
                None => Err(Fault::MissingExtension("hmac-secret"@)),
                Some(sealed) => if sealed.len() == 0 || sealed.len() % 16 != 0 {
                    Err(Fault::Pin("AES-CBC ciphertext must be a non-empty multiple of 16"@))
                } else {
                    match halves(
                        cbc::decrypted(shared, cbc::zero_block(), sealed),
                        query.salt2 is Some,
                    ) {
                        Err(fault) => Err(fault),
                        Ok((secret, secret2)) => Ok(
                            HmacOutput {
                                secret,
                                secret2,
                                cred_blob: cred_blob_in(query, extensions),
                            },
                        ),
                    }
                },
            },
        },
    }
}

/// The encrypted outputs in some `authData`.
pub open spec fn sealed_in(auth_data: Seq<u8>) -> Seq<u8> {
    bytes_in(cbor::field(extensions_in(auth_data)->Ok_0, cbor::name_key("hmac-secret"@)))->0
}

/// The outputs in the device's answer to [`hmac_secret_request`]: those that the device
/// encrypted.
///
/// # Errors
///
/// [`Error::Pin`] on signature-verification failure. [`Error::MissingExtension`] when the
/// device omits the hmac-secret output or returns only one half despite a salt2 request.
/// [`Error::Parse`] and [`Error::Cbor`] when `authData` or the output is malformed.
pub fn finish_hmac_secret(
    session: &PinSession,
    req: &HmacSecretRequest<'_>,
    assertion: &Assertion,
) -> (r: Result<HmacSecretResponse, Error>)
    ensures
        crate::error::agrees(
            r,
            outputs_in(session@.shared, req@, assertion.auth_data@, assertion.signature@),
        ),
        r matches Ok(response) ==> forall|outputs: Seq<u8>| #[trigger]
            cbc::seals(
                session@.shared,
                cbc::zero_block(),
                outputs,
                sealed_in(assertion.auth_data@),
            ) ==> {
                &&& response@.secret == outputs.take(32)
                &&& response@.secret2 matches Some(second) ==> second == outputs.skip(32)
            },
{
    if let Some(public_key) = req.public_key {
        let mut signed = text::copy_bytes(assertion.auth_data.as_slice());
        text::push_bytes(&mut signed, req.client_data_hash.as_slice());
        public_key.verify(signed.as_slice(), assertion.signature.as_slice())?;
    }
    let extensions = decode_extensions(assertion.auth_data.as_slice())?;
    let sealed = match cbor::get_text_field(&extensions, "hmac-secret") {
        Some(Value::Bytes(bytes)) => bytes,
        _ => return Err(Error::MissingExtension("hmac-secret")),
    };
    let cred_blob = if req.request_cred_blob {
        match cbor::get_text_field(&extensions, "credBlob") {
            Some(Value::Bytes(bytes)) => Some(text::copy_bytes(bytes.as_slice())),
            _ => None,
        }
    } else {
        None
    };
    let plain = session.aes_cbc_decrypt(sealed.as_slice())?;
    let (secret, secret2) = split_output(plain.as_slice(), req.salt2.is_some())?;
    Ok(HmacSecretResponse { secret, secret2, cred_blob })
}

/// How far an `hmac-secret` call has come.
pub enum HmacSecretStage {
    /// The session is being established, and the PIN exchanged where there is one.
    Pin(PinExchange),
    /// The assertion request is out.
    Asserting(PinSession),
}

/// A run of `getAssertion` with the `hmac-secret` extension.
pub struct HmacSecretCall<'a> {
    /// What is asked for.
    pub request: HmacSecretRequest<'a>,
    /// How far the call has come.
    pub stage: HmacSecretStage,
}

/// Whether a turn sends the assertion request of an `hmac-secret` call, and waits for the
/// outputs in the given session.
pub open spec fn asks_for_outputs(
    query: HmacQuery,
    session: Session,
    token: Option<Seq<u8>>,
    turn: Turn<HmacSecretCall<'_>, HmacSecretResponse>,
) -> bool {
    turn matches Turn::Send(payload, next) && next.request@ == query && (
    next.stage matches HmacSecretStage::Asserting(held) && held@ == session)
        && cbor::is_command(payload@, COMMAND, parameters(hmac_assertion(session, query, token)))
}

/// Whether a turn ends an `hmac-secret` call with the given failure.
pub open spec fn fails_with(
    fault: Fault,
    turn: Turn<HmacSecretCall<'_>, HmacSecretResponse>,
) -> bool {
    turn matches Turn::Done(Err(err)) && crate::error::reports(err, fault)
}

/// What a response does to an `hmac-secret` call. First the session is established; a PIN, where
/// there is one, is exchanged for a token; then the assertion is requested; and from the
/// assertion the outputs are taken. Whatever is wrong with a response ends the call.
pub open spec fn hmac_step(
    call: HmacSecretCall<'_>,
    response: Seq<u8>,
    turn: Turn<HmacSecretCall<'_>, HmacSecretResponse>,
) -> bool {
    let query = call.request@;
    match call.stage {
        HmacSecretStage::Pin(PinExchange::Agreeing(agreement)) => match pin::established(
            agreement@,
            response,
        ) {
            Err(fault) => fails_with(fault, turn),
            Ok(session) => match query.pin {
                None => asks_for_outputs(query, session, None, turn),
                Some(pin) => turn matches Turn::Send(payload, next) && next.request@ == query && (
                next.stage matches HmacSecretStage::Pin(PinExchange::Exchanging(held)) && held@
                    == session) && cbor::is_command(
                    payload@,
                    pin::CLIENT_PIN_COMMAND,
                    pin::token_parameters(session, pin),
                ),
            },
        },
        HmacSecretStage::Pin(PinExchange::Exchanging(session)) => match pin::token_in(
            session@.shared,
            response,
        ) {
            Err(fault) => fails_with(fault, turn),
            Ok(token) => asks_for_outputs(query, session@, Some(token), turn),
        },
        HmacSecretStage::Asserting(session) => turn matches Turn::Done(r) && crate::error::agrees(
            r,
            match assertion_in(response) {
                Err(fault) => Err(fault),
                Ok(assertion) => outputs_in(
                    session@.shared,
                    query,
                    assertion.auth_data,
                    assertion.signature,
                ),
            },
        ),
    }
}

impl<'a> HmacSecretCall<'a> {
    /// Open the call with the platform's half of the key agreement.
    pub fn start(agreement: KeyAgreement, req: &HmacSecretRequest<'a>) -> (turn: Turn<
        HmacSecretCall<'a>,
        HmacSecretResponse,
    >)
        ensures
            turn matches Turn::Send(payload, next) && next.request@ == req@ && (
            next.stage matches HmacSecretStage::Pin(PinExchange::Agreeing(held)) && held@
                == agreement@) && cbor::is_command(
                payload@,
                pin::CLIENT_PIN_COMMAND,
                pin::subcommand_parameters(pin::GET_KEY_AGREEMENT),
            ),
    {
        match PinExchange::start(agreement) {
            Turn::Send(payload, exchange) => Turn::Send(
                payload,
                HmacSecretCall { request: *req, stage: HmacSecretStage::Pin(exchange) },
            ),
            Turn::Done(Err(err)) => Turn::Done(Err(err)),
            Turn::Done(Ok((session, token))) => HmacSecretCall::ask(*req, session, token),
        }
    }

    /// Request the assertion within an established session.
    fn ask(request: HmacSecretRequest<'a>, session: PinSession, token: Option<PinToken>) -> (turn:
        Turn<HmacSecretCall<'a>, HmacSecretResponse>)
        ensures
            asks_for_outputs(
                request@,
                session@,
                match token {
                    Some(token) => Some(token@),
                    None => None,
                },
                turn,
            ),
    {
        match hmac_secret_request(&session, &request, token.as_ref()) {
            Ok(payload) => Turn::Send(
                payload,
                HmacSecretCall { request, stage: HmacSecretStage::Asserting(session) },
            ),
            Err(err) => Turn::Done(Err(err)),
        }
    }

    /// Go on with the device's response.
    pub fn resume(self, response: &[u8]) -> (turn: Turn<HmacSecretCall<'a>, HmacSecretResponse>)
        ensures
            hmac_step(self, response@, turn),
    {
        let request = self.request;
        match self.stage {
            HmacSecretStage::Pin(exchange) => match exchange.resume(request.pin, response) {
                Turn::Send(payload, next) => Turn::Send(
                    payload,
                    HmacSecretCall { request, stage: HmacSecretStage::Pin(next) },
                ),
                Turn::Done(Err(err)) => Turn::Done(Err(err)),
                Turn::Done(Ok((session, token))) => HmacSecretCall::ask(request, session, token),
            },
            HmacSecretStage::Asserting(session) => match parse_response(response) {
                Ok(assertion) => Turn::Done(finish_hmac_secret(&session, &request, &assertion)),
                Err(err) => Turn::Done(Err(err)),
            },
        }
    }
}

/// Run `getAssertion` with the `hmac-secret` extension, towards the decrypted 32-byte
/// output(s): send what each [`Turn::Send`] holds, and hand the response to
/// [`HmacSecretCall::resume`]. The platform's half of the key agreement is random.
pub fn call_hmac_secret<'a>(req: &HmacSecretRequest<'a>) -> (turn: Turn<
    HmacSecretCall<'a>,
    HmacSecretResponse,
>)
    ensures
        turn matches Turn::Send(payload, next) && next.request@ == req@ && (
        next.stage matches HmacSecretStage::Pin(PinExchange::Agreeing(_))) && cbor::is_command(
            payload@,
            pin::CLIENT_PIN_COMMAND,
            pin::subcommand_parameters(pin::GET_KEY_AGREEMENT),
        ),
{
    HmacSecretCall::start(KeyAgreement::generate(), req)
}

/// The second output comes exactly where a second salt was given, and every output has 32 bytes.
pub proof fn law_one_output_for_each_salt(
    shared: Seq<u8>,
    query: HmacQuery,
    auth_data: Seq<u8>,
    signature: Seq<u8>,
)
    ensures
        outputs_in(shared, query, auth_data, signature) matches Ok(outputs) ==> {
            &&& (outputs.secret2 is Some) == (query.salt2 is Some)
            &&& outputs.secret.len() == 32
            &&& outputs.secret2 matches Some(second) ==> second.len() == 32
        },
{
    lemma_plain_len(shared, auth_data);
}

/// A decrypted output is as long as the encrypted one.
proof fn lemma_plain_len(shared: Seq<u8>, auth_data: Seq<u8>)
    ensures
        sealed_in(auth_data).len() % 16 == 0 ==> cbc::decrypted(
            shared,
            cbc::zero_block(),
            sealed_in(auth_data),
        ).len() == sealed_in(auth_data).len(),
{
    if sealed_in(auth_data).len() % 16 == 0 {
        cbc::lemma_decrypted_len(shared, cbc::zero_block(), sealed_in(auth_data));
    }
}

/// No output comes out of an assertion whose signature the given key does not verify, whatever
/// the assertion holds.
pub proof fn law_no_output_without_a_signature(
    shared: Seq<u8>,
    query: HmacQuery,
    auth_data: Seq<u8>,
    signature: Seq<u8>,
)
    ensures
        signature_check(query, auth_data, signature) matches Err(fault) ==> outputs_in(
            shared,
            query,
            auth_data,
            signature,
        ) == Err::<HmacOutput, Fault>(fault),
{
}

/// A device that answers two salts with one output is found out, not taken for one that
/// answered the first salt alone.
pub proof fn law_single_output_for_two_salts_is_refused(
    shared: Seq<u8>,
    query: HmacQuery,
    auth_data: Seq<u8>,
    signature: Seq<u8>,
)
    requires
        query.salt2 is Some,
    ensures
        signature_check(query, auth_data, signature) is Ok ==> (extensions_in(
            auth_data,
        ) matches Ok(extensions) ==> (bytes_in(
            cbor::field(extensions, cbor::name_key("hmac-secret"@)),
        ) matches Some(sealed) ==> (sealed.len() == 32 ==> outputs_in(
            shared,
            query,
            auth_data,
            signature,
        ) == Err::<HmacOutput, Fault>(Fault::MissingExtension("hmac-secret salt2"@))))),
{
    lemma_plain_len(shared, auth_data);
}

/// A blob comes out only where one was asked for.
pub proof fn law_blob_only_on_request(
    shared: Seq<u8>,
    query: HmacQuery,
    auth_data: Seq<u8>,
    signature: Seq<u8>,
)
    requires
        !query.request_cred_blob,
    ensures
        outputs_in(shared, query, auth_data, signature) matches Ok(outputs)
            ==> outputs.cred_blob is None,
{
}

/// What a generic `getAssertion` asks for.
pub struct AssertionRequest<'a> {
    /// Relying party id.
    pub rp_id: &'a str,
    /// Client data hash.
    pub client_data_hash: &'a [u8; 32],
    /// Candidate credentials. Empty triggers resident-credential discovery.
    pub allow_list: &'a [&'a [u8]],
    /// A CBOR map of `{name: input}`.
    pub extensions: Option<Value>,
}

/// What a request asks for, with a token where there is one.
pub open spec fn query_of(request: AssertionRequest<'_>, token: Option<Seq<u8>>) -> AssertionQuery {
    AssertionQuery {
        rp_id: request.rp_id@,
        client_data_hash: request.client_data_hash@,
        allow_list: ids(request.allow_list@),
        extensions: value_view(request.extensions),
        options: AssertionOptions::Interactive,
        pin_token: token,
    }
}

/// A run of `getAssertion`, with a PIN exchange before it where there is a PIN.
pub enum AssertionCall<'a> {
    /// The PIN is being exchanged for a token.
    Pin(PinExchange, &'a str, AssertionRequest<'a>),
    /// The assertion request is out.
    Asserting,
}

/// Whether a turn sends the assertion request, or fails because an integer in the extensions is
/// out of CBOR's range.
pub open spec fn asks_for_assertion(
    query: AssertionQuery,
    turn: Turn<AssertionCall<'_>, Assertion>,
) -> bool {
    if query.extensions matches Some(extensions) ==> cbor::encodable(extensions) {
        turn matches Turn::Send(payload, AssertionCall::Asserting) && is_request(payload@, query)
    } else {
        turn matches Turn::Done(Err(err)) && err@ == cbor::out_of_range()
    }
}

/// What a response does to a run of `getAssertion`.
pub open spec fn assertion_step(
    call: AssertionCall<'_>,
    response: Seq<u8>,
    turn: Turn<AssertionCall<'_>, Assertion>,
) -> bool {
    match call {
        AssertionCall::Pin(PinExchange::Agreeing(agreement), pin, request) => match
        pin::established(agreement@, response) {
            Err(fault) => turn matches Turn::Done(Err(err)) && crate::error::reports(err, fault),
            Ok(session) => turn matches Turn::Send(
                payload,
                AssertionCall::Pin(PinExchange::Exchanging(held), same_pin, same_request),
            ) && held@ == session && same_pin == pin && same_request == request
                && cbor::is_command(
                payload@,
                pin::CLIENT_PIN_COMMAND,
                pin::token_parameters(session, pin@),
            ),
        },
        AssertionCall::Pin(PinExchange::Exchanging(session), pin, request) => match
        pin::token_in(session@.shared, response) {
            Err(fault) => turn matches Turn::Done(Err(err)) && crate::error::reports(err, fault),
            Ok(token) => asks_for_assertion(query_of(request, Some(token)), turn),
        },
        AssertionCall::Asserting => turn matches Turn::Done(r) && crate::error::agrees(
            r,
            assertion_in(response),
        ),
    }
}

impl<'a> AssertionCall<'a> {
    /// Open the run with a PIN and the platform's half of the key agreement.
    pub fn start(agreement: KeyAgreement, pin: &'a str, request: AssertionRequest<'a>) -> (turn:
        Turn<AssertionCall<'a>, Assertion>)
        ensures
            turn matches Turn::Send(
                payload,
                AssertionCall::Pin(PinExchange::Agreeing(held), same_pin, same_request),
            ) && held@ == agreement@ && same_pin == pin && same_request == request
                && cbor::is_command(
                payload@,
                pin::CLIENT_PIN_COMMAND,
                pin::subcommand_parameters(pin::GET_KEY_AGREEMENT),
            ),
    {
        match PinExchange::start(agreement) {
            Turn::Send(payload, exchange) => Turn::Send(
                payload,
                AssertionCall::Pin(exchange, pin, request),
            ),
            Turn::Done(Err(err)) => Turn::Done(Err(err)),
            Turn::Done(Ok((_, token))) => AssertionCall::ask(request, token),
        }
    }

    /// Request the assertion.
    pub fn ask(request: AssertionRequest<'a>, token: Option<PinToken>) -> (turn: Turn<
        AssertionCall<'a>,
        Assertion,
    >)
        ensures
            asks_for_assertion(
                query_of(
                    request,
                    match token {
                        Some(token) => Some(token@),
                        None => None,
                    },
                ),
                turn,
            ),
    {
        match self::request(
            request.rp_id,
            request.client_data_hash,
            request.allow_list,
            request.extensions,
            token.as_ref(),
        ) {
            Ok(payload) => Turn::Send(payload, AssertionCall::Asserting),
            Err(err) => Turn::Done(Err(err)),
        }
    }

    /// Go on with the device's response.
    pub fn resume(self, response: &[u8]) -> (turn: Turn<AssertionCall<'a>, Assertion>)
        ensures
            assertion_step(self, response@, turn),
    {
        match self {
            AssertionCall::Pin(exchange, pin, request) => match exchange.resume(
                Some(pin),
                response,
            ) {
                Turn::Send(payload, next) => Turn::Send(
                    payload,
                    AssertionCall::Pin(next, pin, request),
                ),
                Turn::Done(Err(err)) => Turn::Done(Err(err)),
                Turn::Done(Ok((_, token))) => AssertionCall::ask(request, token),
            },
            AssertionCall::Asserting => Turn::Done(parse_response(response)),
        }
    }
}

/// Run `getAssertion`: send what each [`Turn::Send`] holds, and hand the response to
/// [`AssertionCall::resume`]. With a PIN, a token is fetched first, over a random key agreement.
pub fn call<'a>(request: AssertionRequest<'a>, pin: Option<&'a str>) -> (turn: Turn<
    AssertionCall<'a>,
    Assertion,
>)
    ensures
        match pin {
            None => asks_for_assertion(query_of(request, None), turn),
            Some(pin) => turn matches Turn::Send(
                payload,
                AssertionCall::Pin(PinExchange::Agreeing(_), same_pin, same_request),
            ) && same_pin == pin && same_request == request && cbor::is_command(
                payload@,
                pin::CLIENT_PIN_COMMAND,
                pin::subcommand_parameters(pin::GET_KEY_AGREEMENT),
            ),
        },
{
    match pin {
        Some(pin) => AssertionCall::start(KeyAgreement::generate(), pin, request),
        None => AssertionCall::ask(request, None),
    }
}

/// The payload of a silent (`up=false`) allow-list probe.
pub fn probe_request(rp_id: &str, client_data_hash: &[u8; 32], allow_list: &[&[u8]]) -> (r: Result<
    Vec<u8>,
    Error,
>)
    ensures
        r matches Ok(payload) && cbor::is_command(
            payload@,
            COMMAND,
            parameters(
                AssertionQuery {
                    rp_id: rp_id@,
                    client_data_hash: client_data_hash@,
                    allow_list: ids(allow_list@),
                    extensions: None,
                    options: AssertionOptions::Silent,
                    pin_token: None,
                },
            ),
        ),
{
    request_with_options(
        rp_id,
        client_data_hash,
        allow_list,
        None,
        None,
        AssertionOptions::Silent,
    )
}

/// What the reply to a silent probe says: the matching credential id, or `None` when the device
/// has none of the candidates.
///
/// # Errors
///
/// Statuses other than [`CtapStatus::NoCredentials`], and every other failure, are passed on.
/// A response that does not parse fails as in [`parse_response`].
pub fn probe_credential(reply: Result<Vec<u8>, Error>) -> (r: Result<Option<Vec<u8>>, Error>)
    ensures
        match reply {
            Ok(response) => match assertion_in(response@) {
                Ok(assertion) => r matches Ok(id) && text::bytes_view(id)
                    == assertion.credential_id,
                Err(fault) => r matches Err(err) && crate::error::reports(err, fault),
            },
            Err(Error::Ctap(CtapStatus::NoCredentials)) => r matches Ok(None),
            Err(err) => r == Err::<Option<Vec<u8>>, Error>(err),
        },
{
    match reply {
        Ok(response) => match parse_response(response.as_slice()) {
            Ok(assertion) => Ok(assertion.credential_id),
            Err(err) => Err(err),
        },
        Err(Error::Ctap(CtapStatus::NoCredentials)) => Ok(None),
        Err(other) => Err(other),
    }
}

} // verus!
