//! CBOR items as `ciborium` reads and writes them.

use crate::cbor;
use crate::cbor::CborValue;
use crate::cbor::MAX_NESTING;
use ciborium::Value as RawValue;
use vstd::prelude::*;

verus! {

/// `ciborium::Value`, the tree in which `ciborium` holds an item.
#[verifier::external_type_specification]
#[verifier::external_body]
pub struct ExRawValue(RawValue);

/// The item that a `ciborium::Value` holds.
pub uninterp spec fn raw_model(raw: RawValue) -> CborValue;

/// The item at the front of some bytes and the number of bytes it takes, as
/// `ciborium::from_reader` finds them; `None` where it finds no item.
pub uninterp spec fn leading_item(bytes: Seq<u8>) -> Option<(CborValue, nat)>;

/// The bytes in which `ciborium::into_writer` writes an item that holds no NaN.
pub uninterp spec fn item_bytes(item: CborValue) -> Seq<u8>;

/// The top of a `ciborium::Value`: its variant, with the values below it left as they are.
pub enum Node {
    Integer(i128),
    Bytes(Vec<u8>),
    Float(u64),
    Text(String),
    Bool(bool),
    Null,
    Tag(u64, Box<RawValue>),
    Array(Vec<RawValue>),
    Mapping(Vec<(RawValue, RawValue)>),
}

/// The items of a sequence of values.
pub open spec fn raw_items(raws: Seq<RawValue>) -> Seq<CborValue> {
    Seq::new(raws.len(), |i: int| raw_model(raws[i]))
}

/// The entries of a sequence of pairs of values.
pub open spec fn raw_entries(raws: Seq<(RawValue, RawValue)>) -> Seq<(CborValue, CborValue)> {
    Seq::new(raws.len(), |i: int| (raw_model(raws[i].0), raw_model(raws[i].1)))
}

/// The item that a node is the top of.
pub open spec fn node_model(node: Node) -> CborValue {
    match node {
        Node::Integer(i) => CborValue::Integer(i as int),
        Node::Bytes(bytes) => CborValue::Bytes(bytes@),
        Node::Float(bits) => cbor::float_model(bits),
        Node::Text(text) => CborValue::Text(text@),
        Node::Bool(b) => CborValue::Bool(b),
        Node::Null => CborValue::Null,
        Node::Tag(tag, inner) => CborValue::Tag(tag, Box::new(raw_model(*inner))),
        Node::Array(items) => CborValue::Array(raw_items(items@)),
        Node::Mapping(entries) => CborValue::Mapping(raw_entries(entries@)),
    }
}

/// Takes a `ciborium::Value` apart by its variants. The node holds the same item, and an
/// integer in it is one that `ciborium::value::Integer` can hold, from `-2^64` to `2^64 - 1`.
#[verifier::external_body]
pub(crate) fn unfold(raw: RawValue) -> (node: Node)
    ensures
        node_model(node) == raw_model(raw),
        node matches Node::Integer(i) ==> cbor::in_integer_range(i as int),
{
    match raw {
        RawValue::Integer(i) => Node::Integer(i.into()),
        RawValue::Bytes(bytes) => Node::Bytes(bytes),
        RawValue::Float(number) => Node::Float(number.to_bits()),
        RawValue::Text(text) => Node::Text(text),
        RawValue::Bool(b) => Node::Bool(b),
        RawValue::Tag(tag, inner) => Node::Tag(tag, inner),
        RawValue::Array(items) => Node::Array(items),
        RawValue::Map(entries) => Node::Mapping(entries),
        _ => Node::Null,
    }
}

/// Builds the `ciborium::Value` variant of a node that is no float: it holds the same item.
#[verifier::external_body]
pub(crate) fn fold(node: Node) -> (raw: RawValue)
    requires
        node !is Float,
        node matches Node::Integer(i) ==> cbor::in_integer_range(i as int),
    ensures
        raw_model(raw) == node_model(node),
{
    match node {
        Node::Integer(i) => RawValue::Integer(i.try_into().unwrap()),
        Node::Bytes(bytes) => RawValue::Bytes(bytes),
        Node::Text(text) => RawValue::Text(text),
        Node::Bool(b) => RawValue::Bool(b),
        Node::Tag(tag, inner) => RawValue::Tag(tag, inner),
        Node::Array(items) => RawValue::Array(items),
        Node::Mapping(entries) => RawValue::Map(entries),
        _ => RawValue::Null,
    }
}

/// `ciborium::from_reader` on the nine bytes of a double-precision item, its head and then its
/// bits: the value holds the number with those bits.
#[verifier::external_body]
pub(crate) fn fold_float(bits: u64) -> (raw: RawValue)
    ensures
        raw_model(raw) == cbor::float_model(bits),
{
    let mut bytes: Vec<u8> = vec![0xFB];
    bytes.extend_from_slice(&bits.to_be_bytes());
    ciborium::from_reader(bytes.as_slice()).unwrap()
}

/// `ciborium::from_reader` at the front of `bytes`: the item there and the number of bytes
/// left behind it, or the text of the error. An item takes at least its head, which is one byte
/// or more. A read goes by the bytes of the item alone, so whatever follows them, the same item
/// is found. The text of an error is left unsaid: it holds the reader's own words.
#[verifier::external_body]
pub(crate) fn read_item(bytes: &[u8]) -> (r: Result<(RawValue, usize), String>)
    ensures
        match r {
            Ok((raw, left)) => {
                &&& left < bytes@.len()
                &&& leading_item(bytes@) == Some(
                    (raw_model(raw), (bytes@.len() - left) as nat),
                )
                &&& forall|tail: Seq<u8>|
                    #[trigger] leading_item(bytes@.take(bytes@.len() - left) + tail) == Some(
                        (raw_model(raw), (bytes@.len() - left) as nat),
                    )
            },
            Err(_) => leading_item(bytes@) is None,
        },
{
    let mut rest: &[u8] = bytes;
    match ciborium::from_reader::<RawValue, _>(&mut rest) {
        Ok(raw) => Ok((raw, rest.len())),
        Err(err) => Err(err.to_string()),
    }
}

/// `ciborium::into_writer` into a byte vector, which takes every write. An item without a NaN
/// has one form. Where the item is restorable, what is written reads back as the item, whatever
/// follows it; a NaN in it reads back as a NaN. Which bits of a NaN are written is left unsaid:
/// the machine decides.
#[verifier::external_body]
pub(crate) fn write_item(raw: &RawValue) -> (r: Result<Vec<u8>, String>)
    ensures
        match r {
            Ok(bytes) => {
                &&& !cbor::has_nan(raw_model(*raw)) ==> bytes@ == item_bytes(raw_model(*raw))
                &&& cbor::restorable(raw_model(*raw), MAX_NESTING as nat) ==> forall|tail: Seq<u8>|
                    #[trigger] leading_item(bytes@ + tail) == Some(
                        (raw_model(*raw), bytes@.len()),
                    )
            },
            Err(_) => false,
        },
{
    let mut out: Vec<u8> = Vec::new();
    match ciborium::into_writer(raw, &mut out) {
        Ok(()) => Ok(out),
        Err(err) => Err(err.to_string()),
    }
}

} // verus!
