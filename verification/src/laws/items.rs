//! CBOR items: how they are held, looked up, written and read.

use crate::cbor;
use crate::cbor::{CborValue, Value};
use crate::error::Fault;
use crate::outside::item;
use crate::text;
use vstd::prelude::*;

verus! {

/// A lookup gives what the first entry under the key holds.
pub proof fn law_lookup_finds_the_first_entry(
    entries: Seq<(CborValue, CborValue)>,
    key: CborValue,
    at: int,
)
    requires
        0 <= at < entries.len(),
        entries[at].0 == key,
        forall|j: int| 0 <= j < at ==> (#[trigger] entries[j]).0 != key,
    ensures
        cbor::field(CborValue::Mapping(entries), key) == Some(entries[at].1),
        cbor::entry(entries, key) == Some(entries[at].1),
        cbor::position(entries, key) == at,
{
    cbor::lemma_position_is(entries, key, at);
}

/// A lookup gives nothing where no entry is under the key, or the item is no map.
pub proof fn law_lookup_of_a_missing_key(item: CborValue, key: CborValue)
    requires
        item matches CborValue::Mapping(entries) ==> forall|j: int|
            0 <= j < entries.len() ==> (#[trigger] entries[j]).0 != key,
    ensures
        cbor::field(item, key) is None,
        item matches CborValue::Mapping(entries) ==> cbor::entry(entries, key) is None,
{
    match item {
        CborValue::Mapping(entries) => {
            cbor::lemma_position_is(entries, key, entries.len() as int);
        },
        _ => {},
    }
}

/// A field of a kind is found exactly where the map holds an item of that kind under the key.
pub proof fn law_fields_by_kind(item: CborValue, key: int, i: int, bytes: Seq<u8>)
    ensures
        cbor::integer_field(item, key) == Some(i) <==> cbor::field(item, CborValue::Integer(key))
            == Some(CborValue::Integer(i)),
        cbor::bytes_field(item, key) == Some(bytes) <==> cbor::field(item, CborValue::Integer(key))
            == Some(CborValue::Bytes(bytes)),
{
}

/// Keys are items of their own kind, and an item is taken for nothing but what it is.
pub proof fn law_kinds(item: CborValue, i: int, bytes: Seq<u8>, text: Seq<char>, b: bool)
    ensures
        cbor::number_key(i) == CborValue::Integer(i),
        cbor::name_key(text) == CborValue::Text(text),
        cbor::integer_of(item) == Some(i) <==> item == CborValue::Integer(i),
        cbor::bytes_of(item) == Some(bytes) <==> item == CborValue::Bytes(bytes),
        cbor::text_of(item) == Some(text) <==> item == CborValue::Text(text),
        cbor::bool_of(item) == Some(b) <==> item == CborValue::Bool(b),
{
}

/// Taking a field out of a map without repeated keys takes that field and no other.
pub proof fn law_take_takes_one_field(
    entries: Seq<(CborValue, CborValue)>,
    key: CborValue,
    other: CborValue,
)
    requires
        forall|i: int, j: int|
            0 <= i < j < entries.len() ==> (#[trigger] entries[i]).0 != (#[trigger] entries[j]).0,
    ensures
        cbor::entry(cbor::without(entries, key), key) is None,
        other != key ==> cbor::entry(cbor::without(entries, key), other) == cbor::entry(
            entries,
            other,
        ),
        cbor::without(entries, key).len() == (if cbor::entry(entries, key) is Some {
            entries.len() - 1
        } else {
            entries.len() as int
        }),
{
    assert(cbor::distinct_keys(entries));
    cbor::law_take_leaves_the_rest(entries, key, other);
    cbor::lemma_position(entries, key);
}

/// Taking a field out takes the first entry under the key, whose place the last entry fills; all
/// others stay where they are. Without such an entry nothing changes.
pub proof fn law_take_moves_the_last_entry(
    entries: Seq<(CborValue, CborValue)>,
    key: CborValue,
    at: int,
    i: int,
)
    requires
        0 <= at <= entries.len(),
        forall|j: int| 0 <= j < at ==> (#[trigger] entries[j]).0 != key,
        at < entries.len() ==> entries[at].0 == key,
    ensures
        at == entries.len() ==> cbor::without(entries, key) == entries,
        at < entries.len() ==> {
            &&& cbor::without(entries, key).len() == entries.len() - 1
            &&& 0 <= i < entries.len() - 1 ==> cbor::without(entries, key)[i] == (if i == at {
                entries.last()
            } else {
                entries[i]
            })
        },
{
    cbor::lemma_position_is(entries, key, at);
}

/// A value stands for the item of its own kind and content, level by level.
pub proof fn law_value_stands_for_its_item(value: Value)
    ensures
        match value {
            Value::Integer(i) => value@ == CborValue::Integer(i as int),
            Value::Bytes(bytes) => value@ == CborValue::Bytes(bytes@),
            Value::Text(text) => value@ == CborValue::Text(text@),
            Value::Bool(b) => value@ == CborValue::Bool(b),
            Value::Null => value@ == CborValue::Null,
            Value::Tag(tag, inner) => value@ == CborValue::Tag(tag, Box::new(inner@)),
            Value::Array(items) => value@ matches CborValue::Array(models) && models.len()
                == items@.len() && forall|i: int|
                0 <= i < items@.len() ==> #[trigger] models[i] == items@[i]@,
            Value::Mapping(entries) => value@ matches CborValue::Mapping(models) && models.len()
                == entries@.len() && forall|i: int|
                0 <= i < entries@.len() ==> #[trigger] models[i] == (entries@[i].0@, entries@[i].1@),
            Value::Float(bits) => value@ == CborValue::Float(bits) || value@ == CborValue::Nan,
        },
{
    match value {
        Value::Array(items) => {
            cbor::lemma_array_model(items);
        },
        Value::Mapping(entries) => {
            cbor::lemma_mapping_model(entries);
        },
        _ => {},
    }
}

/// A number keeps its bits, unless they are those of a NaN: all exponent bits set, and not all
/// the others clear.
pub proof fn law_numbers_keep_their_bits(bits: u64)
    ensures
        Value::Float(bits)@ == (if bits & 0x7FF0_0000_0000_0000 == 0x7FF0_0000_0000_0000 && bits
            & 0x000F_FFFF_FFFF_FFFF != 0 {
            CborValue::Nan
        } else {
            CborValue::Float(bits)
        }),
{
    assert((bits & 0x7FF0_0000_0000_0000 == 0x7FF0_0000_0000_0000 && bits & 0x000F_FFFF_FFFF_FFFF
        != 0) == (bits % 0x8000_0000_0000_0000 > 0x7FF0_0000_0000_0000)) by (bit_vector);
}

/// An item can be encoded exactly where every integer in it is one of CBOR's: from `-2^64` to
/// `2^64 - 1`.
pub proof fn law_encodable_goes_by_the_integers(item: CborValue)
    ensures
        match item {
            CborValue::Integer(i) => cbor::encodable(item) == (-18446744073709551616 <= i
                <= 18446744073709551615),
            CborValue::Tag(_, inner) => cbor::encodable(item) == cbor::encodable(*inner),
            CborValue::Array(items) => cbor::encodable(item) == (forall|i: int|
                0 <= i < items.len() ==> cbor::encodable(#[trigger] items[i])),
            CborValue::Mapping(entries) => cbor::encodable(item) == (forall|i: int|
                0 <= i < entries.len() ==> cbor::encodable((#[trigger] entries[i]).0)
                    && cbor::encodable(entries[i].1)),
            _ => cbor::encodable(item),
        },
        cbor::out_of_range() == Fault::Cbor(Some("integer out of CBOR range"@)),
{
}

/// An item reads back as it was written, unless it nests too deep or holds a tagged byte string
/// that stands for an integer; up to 256 levels are followed.
pub proof fn law_what_reads_back(item: CborValue, depth: nat)
    ensures
        match item {
            CborValue::Tag(tag, inner) => cbor::restorable(item, depth) == (depth > 0
                && cbor::restorable(*inner, (depth - 1) as nat) && !((tag == 2 || tag == 3)
                && *inner is Bytes && inner->Bytes_0.len() <= 16)),
            CborValue::Array(items) => cbor::restorable(item, depth) == (depth > 0 && forall|i: int|
                0 <= i < items.len() ==> cbor::restorable(#[trigger] items[i], (depth - 1) as nat)),
            CborValue::Mapping(entries) => cbor::restorable(item, depth) == (depth > 0
                && forall|i: int|
                0 <= i < entries.len() ==> cbor::restorable(
                    (#[trigger] entries[i]).0,
                    (depth - 1) as nat,
                ) && cbor::restorable(entries[i].1, (depth - 1) as nat)),
            _ => cbor::restorable(item, depth),
        },
        cbor::MAX_NESTING == 256,
{
}

/// A NaN is in an item exactly where the item is one, or one is in what it holds.
pub proof fn law_where_a_nan_is(item: CborValue)
    ensures
        match item {
            CborValue::Nan => cbor::has_nan(item),
            CborValue::Tag(_, inner) => cbor::has_nan(item) == cbor::has_nan(*inner),
            CborValue::Array(items) => cbor::has_nan(item) == (exists|i: int|
                0 <= i < items.len() && cbor::has_nan(#[trigger] items[i])),
            CborValue::Mapping(entries) => cbor::has_nan(item) == (exists|i: int|
                0 <= i < entries.len() && (cbor::has_nan((#[trigger] entries[i]).0)
                    || cbor::has_nan(entries[i].1))),
            _ => !cbor::has_nan(item),
        },
{
}

/// Bytes decode to an item exactly where the item stands at their front and takes them all.
pub proof fn law_decoding_takes_all_bytes(bytes: Seq<u8>, value: CborValue)
    ensures
        cbor::decoded(bytes) == Some(value) <==> item::leading_item(bytes) == Some(
            (value, bytes.len()),
        ),
        cbor::whole_item(bytes) == Ok::<CborValue, Fault>(value) <==> item::leading_item(bytes)
            == Some((value, bytes.len())),
        item::leading_item(bytes) is None ==> cbor::whole_item(bytes) == Err::<CborValue, Fault>(
            Fault::Cbor(None),
        ),
        item::leading_item(bytes) matches Some((_, used)) ==> (used != bytes.len()
            ==> cbor::whole_item(bytes) == Err::<CborValue, Fault>(
            Fault::Cbor(
                Some(
                    "trailing bytes after CBOR value ("@ + text::decimal(used) + "/"@
                        + text::decimal(bytes.len()) + " consumed)"@,
                ),
            ),
        )),
{
}

/// A command is its byte and then its parameters: whoever reads behind the byte finds them, and
/// they take all the rest.
pub proof fn law_command_layout(payload: Seq<u8>, command: u8, parameters: CborValue)
    requires
        cbor::is_command(payload, command, parameters),
    ensures
        payload.len() > 0,
        payload[0] == command,
        payload.skip(1) == item::item_bytes(parameters),
        item::leading_item(payload.skip(1)) == Some((parameters, (payload.len() - 1) as nat)),
{
    assert(payload.skip(1) =~= item::item_bytes(parameters));
}

/// What a node of a `ciborium::Value` stands for is of its own kind and content.
pub proof fn law_node_stands_for_its_item(node: item::Node)
    ensures
        match node {
            item::Node::Integer(i) => item::node_model(node) == CborValue::Integer(i as int),
            item::Node::Bytes(bytes) => item::node_model(node) == CborValue::Bytes(bytes@),
            item::Node::Float(bits) => item::node_model(node) == Value::Float(bits)@,
            item::Node::Text(text) => item::node_model(node) == CborValue::Text(text@),
            item::Node::Bool(b) => item::node_model(node) == CborValue::Bool(b),
            item::Node::Null => item::node_model(node) == CborValue::Null,
            item::Node::Tag(tag, inner) => item::node_model(node) == CborValue::Tag(
                tag,
                Box::new(item::raw_model(*inner)),
            ),
            item::Node::Array(items) => item::node_model(node) matches CborValue::Array(models)
                && models.len() == items@.len() && forall|i: int|
                0 <= i < items@.len() ==> #[trigger] models[i] == item::raw_model(items@[i]),
            item::Node::Mapping(entries) => item::node_model(node) matches CborValue::Mapping(
                models,
            ) && models.len() == entries@.len() && forall|i: int|
                0 <= i < entries@.len() ==> #[trigger] models[i] == (
                    item::raw_model(entries@[i].0),
                    item::raw_model(entries@[i].1),
                ),
        },
{
}

} // verus!
