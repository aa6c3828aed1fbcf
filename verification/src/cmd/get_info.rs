//! `authenticatorGetInfo` (CTAP2 command `0x04`).

use crate::cbor;
use crate::cbor::{CborValue, Value};
use crate::cmd::{AuthenticatorInfo, Info, Turn};
use crate::error::{Error, Fault};
use crate::text;
use vstd::prelude::*;

verus! {

/// CTAP2 command byte for `authenticatorGetInfo`.
pub const COMMAND: u8 = 0x04;

/// The items of the array under a key; none where there is no array.
pub open spec fn items_under(map: CborValue, key: int) -> Seq<CborValue> {
    match cbor::field(map, cbor::number_key(key)) {
        Some(CborValue::Array(items)) => items,
        _ => Seq::empty(),
    }
}

/// The entries of the map under a key; none where there is no map.
pub open spec fn entries_under(map: CborValue, key: int) -> Seq<(CborValue, CborValue)> {
    match cbor::field(map, cbor::number_key(key)) {
        Some(CborValue::Mapping(entries)) => entries,
        _ => Seq::empty(),
    }
}

/// Picks the text out of an item.
pub open spec fn pick_text() -> spec_fn(CborValue) -> Option<Seq<char>> {
    |value: CborValue| cbor::text_of(value)
}

/// Picks the flag out of an entry of the options map.
pub open spec fn pick_flag() -> spec_fn((CborValue, CborValue)) -> Option<(Seq<char>, bool)> {
    |entry: (CborValue, CborValue)|
        match (cbor::text_of(entry.0), cbor::bool_of(entry.1)) {
            (Some(name), Some(flag)) => Some((name, flag)),
            _ => None,
        }
}

/// Picks a protocol number out of an item.
pub open spec fn pick_protocol() -> spec_fn(CborValue) -> Option<u8> {
    |value: CborValue|
        match cbor::integer_of(value) {
            Some(i) => if 0 <= i <= u8::MAX {
                Some(i as u8)
            } else {
                None
            },
            None => None,
        }
}

/// The algorithm that an item of the algorithms array names.
pub open spec fn algorithm_in(value: CborValue) -> Option<i32> {
    match cbor::field(value, cbor::name_key("alg"@)) {
        Some(alg) => match cbor::integer_of(alg) {
            Some(i) => if i32::MIN <= i <= i32::MAX {
                Some(i as i32)
            } else {
                None
            },
            None => None,
        },
        None => None,
    }
}

/// Picks the algorithm out of an item.
pub open spec fn pick_algorithm() -> spec_fn(CborValue) -> Option<i32> {
    |value: CborValue| algorithm_in(value)
}

/// The texts in the array under a key.
pub open spec fn texts_under(map: CborValue, key: int) -> Seq<Seq<char>> {
    items_under(map, key).filter_map(pick_text())
}

/// The 32-bit number under a key.
pub open spec fn u32_under(map: CborValue, key: int) -> Option<u32> {
    match cbor::integer_field(map, key) {
        Some(i) => if 0 <= i <= u32::MAX {
            Some(i as u32)
        } else {
            None
        },
        None => None,
    }
}

/// The model identifier under a key: sixteen zeros where there is none.
pub open spec fn aaguid_in(map: CborValue) -> Seq<u8> {
    match cbor::bytes_field(map, 0x03) {
        Some(bytes) => if bytes.len() == 16 {
            bytes
        } else {
            Seq::new(16, |i: int| 0u8)
        },
        None => Seq::new(16, |i: int| 0u8),
    }
}

/// Whether the map holds `true` under a key.
pub open spec fn is_set(map: CborValue, key: int) -> bool {
    cbor::field(map, cbor::number_key(key)) == Some(CborValue::Bool(true))
}

/// What an `authenticatorGetInfo` response says: each field by its key, as far as it has the
/// shape that the field should have.
pub open spec fn info_in(map: CborValue) -> Info {
    Info {
        versions: texts_under(map, 0x01),
        extensions: texts_under(map, 0x02),
        aaguid: aaguid_in(map),
        options: entries_under(map, 0x04).filter_map(pick_flag()),
        max_msg_size: u32_under(map, 0x05),
        pin_protocols: items_under(map, 0x06).filter_map(pick_protocol()),
        max_credential_count_in_list: u32_under(map, 0x07),
        max_credential_id_length: u32_under(map, 0x08),
        transports: texts_under(map, 0x09),
        algorithms: items_under(map, 0x0A).filter_map(pick_algorithm()),
        max_serialized_large_blob_array: u32_under(map, 0x0B),
        force_pin_change: is_set(map, 0x0C),
        min_pin_length: u32_under(map, 0x0D),
        firmware_version: u32_under(map, 0x0E),
        max_cred_blob_length: u32_under(map, 0x0F),
        max_rp_ids_for_set_min_pin_length: u32_under(map, 0x10),
        preferred_platform_uv_attempts: u32_under(map, 0x11),
        uv_modality: u32_under(map, 0x12),
        remaining_discoverable_credentials: u32_under(map, 0x14),
    }
}

/// Whether a key is one whose field this library reads.
pub open spec fn is_known(key: CborValue) -> bool {
    key matches CborValue::Integer(k) && (1 <= k <= 0x12 || k == 0x14)
}

/// A field that this library does not know changes nothing, wherever in the response it stands
/// and whatever it holds.
pub proof fn law_unknown_fields_are_ignored(
    before: Seq<(CborValue, CborValue)>,
    unknown: (CborValue, CborValue),
    after: Seq<(CborValue, CborValue)>,
)
    requires
        !is_known(unknown.0),
    ensures
        info_in(CborValue::Mapping(before + seq![unknown] + after)) == info_in(
            CborValue::Mapping(before + after),
        ),
{
    let with = CborValue::Mapping(before + seq![unknown] + after);
    let plain = CborValue::Mapping(before + after);
    assert forall|k: int| is_known(CborValue::Integer(k)) implies #[trigger] cbor::field(
        with,
        cbor::number_key(k),
    ) == cbor::field(plain, cbor::number_key(k)) by {
        cbor::law_lookup_passes_other_keys(before, unknown, after, cbor::number_key(k));
    }
}

/// The request: the command byte alone.
pub fn request() -> (r: Vec<u8>)
    ensures
        r@ == seq![COMMAND],
{
    let mut payload: Vec<u8> = Vec::new();
    payload.push(COMMAND);
    payload
}

/// What a `getInfo` response says.
pub open spec fn info_from(response: Seq<u8>) -> Result<Info, Fault> {
    match cbor::whole_item(response) {
        Ok(map) => Ok(info_in(map)),
        Err(fault) => Err(fault),
    }
}

/// Parse every field this crate exposes out of the response to [`request`].
///
/// # Errors
///
/// [`Error::Cbor`] if the response isn't valid CBOR.
pub fn parse_response(response: &[u8]) -> (r: Result<AuthenticatorInfo, Error>)
    ensures
        crate::error::agrees(r, info_from(response@)),
{
    let map = cbor::decode(response)?;
    Ok(parse(&map))
}

/// A run of `getInfo`.
pub enum InfoCall {
    /// The request is out.
    Asking,
}

/// Get at the device's info: what was fetched before is handed on, and only where nothing was,
/// the device is asked. Send what [`Turn::Send`] holds, and hand the response to
/// [`InfoCall::resume`].
pub fn call(fetched: Option<AuthenticatorInfo>) -> (turn: Turn<InfoCall, AuthenticatorInfo>)
    ensures
        match fetched {
            Some(info) => turn == Turn::<InfoCall, AuthenticatorInfo>::Done(Ok(info)),
            None => turn matches Turn::Send(payload, InfoCall::Asking) && payload@
                == seq![COMMAND],
        },
{
    match fetched {
        Some(info) => Turn::Done(Ok(info)),
        None => Turn::Send(request(), InfoCall::Asking),
    }
}

impl InfoCall {
    /// Go on with the device's response.
    pub fn resume(self, response: &[u8]) -> (turn: Turn<InfoCall, AuthenticatorInfo>)
        ensures
            turn matches Turn::Done(r) && crate::error::agrees(r, info_from(response@)),
    {
        Turn::Done(parse_response(response))
    }
}

/// The fields of a decoded response. Unknown fields, and fields of another shape than expected,
/// are passed over.
pub fn parse(map: &Value) -> (r: AuthenticatorInfo)
    ensures
        r@ == info_in(map@),
{
    let mut aaguid: [u8; 16] = [0; 16];
    assert(aaguid@ =~= Seq::new(16, |i: int| 0u8));
    if let Some(bytes) = cbor::get_bytes(map, 0x03) {
        if bytes.len() == 16 {
            aaguid = text::to_array::<16>(bytes.as_slice());
        }
    }
    let info = AuthenticatorInfo {
        versions: string_array(map, 0x01),
        extensions: string_array(map, 0x02),
        aaguid,
        options: flag_map(map),
        max_msg_size: u32_field(map, 0x05),
        pin_protocols: protocol_array(map),
        max_credential_count_in_list: u32_field(map, 0x07),
        max_credential_id_length: u32_field(map, 0x08),
        transports: string_array(map, 0x09),
        algorithms: algorithm_array(map),
        max_serialized_large_blob_array: u32_field(map, 0x0B),
        force_pin_change: match cbor::get_int_field(map, 0x0C) {
            Some(value) => match value.as_bool() {
                Some(flag) => flag,
                None => false,
            },
            None => false,
        },
        min_pin_length: u32_field(map, 0x0D),
        firmware_version: u32_field(map, 0x0E),
        max_cred_blob_length: u32_field(map, 0x0F),
        max_rp_ids_for_set_min_pin_length: u32_field(map, 0x10),
        preferred_platform_uv_attempts: u32_field(map, 0x11),
        uv_modality: u32_field(map, 0x12),
        remaining_discoverable_credentials: u32_field(map, 0x14),
    };
    info
}

/// The array under a key, where there is one.
fn array_under<'a>(map: &'a Value, key: i128) -> (r: Option<&'a Vec<Value>>)
    ensures
        match r {
            Some(items) => items_under(map@, key as int) == cbor::item_models(items@),
            None => items_under(map@, key as int) == Seq::<CborValue>::empty(),
        },
{
    match cbor::get_int_field(map, key) {
        Some(value) => match value {
            Value::Array(items) => {
                proof {
                    cbor::lemma_array_model(*items);
                }
                Some(items)
            },
            _ => None,
        },
        None => None,
    }
}

fn string_array(map: &Value, key: i128) -> (r: Vec<String>)
    ensures
        crate::cmd::texts(r@) == texts_under(map@, key as int),
{
    let mut out: Vec<String> = Vec::new();
    if let Some(items) = array_under(map, key) {
        let ghost models = items_under(map@, key as int);
        let mut i: usize = 0;
        assert(crate::cmd::texts(out@) =~= models.take(0).filter_map(pick_text()));
        while i < items.len()
            invariant
                i <= items.len(),
                models == cbor::item_models(items@),
                crate::cmd::texts(out@) == models.take(i as int).filter_map(pick_text()),
            decreases items.len() - i,
        {
            proof {
                text::lemma_pick_next(models, pick_text(), i as int);
            }
            let ghost before = out@;
            if let Some(text) = items[i].as_text() {
                out.push(text.to_owned());
                assert(crate::cmd::texts(out@) =~= crate::cmd::texts(before).push(text@));
            }
            i += 1;
        }
        assert(models.take(i as int) =~= models);
    }
    assert(crate::cmd::texts(out@) =~= texts_under(map@, key as int));
    out
}

fn flag_map(map: &Value) -> (r: Vec<(String, bool)>)
    ensures
        crate::cmd::flags(r@) == entries_under(map@, 0x04).filter_map(pick_flag()),
{
    let mut out: Vec<(String, bool)> = Vec::new();
    let ghost models = entries_under(map@, 0x04);
    if let Some(Value::Mapping(entries)) = cbor::get_int_field(map, 0x04) {
        proof {
            cbor::lemma_mapping_model(*entries);
        }
        let mut i: usize = 0;
        assert(crate::cmd::flags(out@) =~= models.take(0).filter_map(pick_flag()));
        while i < entries.len()
            invariant
                i <= entries.len(),
                models == cbor::entry_models(entries@),
                crate::cmd::flags(out@) == models.take(i as int).filter_map(pick_flag()),
            decreases entries.len() - i,
        {
            proof {
                text::lemma_pick_next(models, pick_flag(), i as int);
            }
            let ghost before = out@;
            if let Some(name) = entries[i].0.as_text() {
                if let Some(flag) = entries[i].1.as_bool() {
                    out.push((name.to_owned(), flag));
                    assert(crate::cmd::flags(out@) =~= crate::cmd::flags(before).push(
                        (name@, flag),
                    ));
                }
            }
            i += 1;
        }
        assert(models.take(i as int) =~= models);
    }
    assert(crate::cmd::flags(out@) =~= models.filter_map(pick_flag()));
    out
}

fn protocol_array(map: &Value) -> (r: Vec<u8>)
    ensures
        r@ == items_under(map@, 0x06).filter_map(pick_protocol()),
{
    let mut out: Vec<u8> = Vec::new();
    let ghost models = items_under(map@, 0x06);
    if let Some(items) = array_under(map, 0x06) {
        let mut i: usize = 0;
        assert(out@ =~= models.take(0).filter_map(pick_protocol()));
        while i < items.len()
            invariant
                i <= items.len(),
                models == cbor::item_models(items@),
                out@ == models.take(i as int).filter_map(pick_protocol()),
            decreases items.len() - i,
        {
            proof {
                text::lemma_pick_next(models, pick_protocol(), i as int);
            }
            if let Some(protocol) = items[i].as_integer() {
                if 0 <= protocol && protocol <= 0xFF {
                    out.push(protocol as u8);
                }
            }
            i += 1;
        }
        assert(models.take(i as int) =~= models);
    }
    assert(out@ =~= models.filter_map(pick_protocol()));
    out
}

fn algorithm_array(map: &Value) -> (r: Vec<i32>)
    ensures
        r@ == items_under(map@, 0x0A).filter_map(pick_algorithm()),
{
    let mut out: Vec<i32> = Vec::new();
    let ghost models = items_under(map@, 0x0A);
    if let Some(items) = array_under(map, 0x0A) {
        let mut i: usize = 0;
        assert(out@ =~= models.take(0).filter_map(pick_algorithm()));
        while i < items.len()
            invariant
                i <= items.len(),
                models == cbor::item_models(items@),
                out@ == models.take(i as int).filter_map(pick_algorithm()),
            decreases items.len() - i,
        {
            proof {
                text::lemma_pick_next(models, pick_algorithm(), i as int);
            }
            if let Some(value) = cbor::get_text_field(&items[i], "alg") {
                if let Some(algorithm) = value.as_integer() {
                    if -0x8000_0000 <= algorithm && algorithm <= 0x7FFF_FFFF {
                        out.push(algorithm as i32);
                    }
                }
            }
            i += 1;
        }
        assert(models.take(i as int) =~= models);
    }
    assert(out@ =~= models.filter_map(pick_algorithm()));
    out
}

fn u32_field(map: &Value, key: i128) -> (r: Option<u32>)
    ensures
        r == u32_under(map@, key as int),
{
    match cbor::get_integer(map, key) {
        Some(raw) => if 0 <= raw && raw <= 0xFFFF_FFFF {
            Some(raw as u32)
        } else {
            None
        },
        None => None,
    }
}

} // verus!
