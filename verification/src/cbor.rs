//! CBOR values in the shape that CTAP uses them, on top of `ciborium`.
//!
//! [`Value`] holds a CBOR item as plain data. `ciborium` reads and writes the bytes; the
//! functions here carry its values over into [`Value`] and back, node by node, and look fields
//! up in the maps that CTAP messages are made of.

use crate::error::Error;
use crate::error::Fault;
use crate::outside::item;
use crate::text;
use ciborium::Value as RawValue;
use vstd::prelude::*;

verus! {

/// A CBOR data item.
#[derive(Debug, PartialEq)]
pub enum Value {
    /// An integer. CBOR itself holds those from `-2^64` to `2^64 - 1`.
    Integer(i128),
    /// A byte string.
    Bytes(Vec<u8>),
    /// A floating-point number, by the bits of its IEEE 754 double-precision form.
    Float(u64),
    /// A text string.
    Text(String),
    /// A boolean.
    Bool(bool),
    /// Null.
    Null,
    /// A tagged item.
    Tag(u64, Box<Value>),
    /// An array.
    Array(Vec<Value>),
    /// A map, with its entries in the order in which they are written.
    Mapping(Vec<(Value, Value)>),
}

/// The mathematical model of a CBOR data item. All NaNs are one item: which bits a NaN keeps
/// on its way through a conversion differs from machine to machine.
pub enum CborValue {
    Integer(int),
    Bytes(Seq<u8>),
    Float(u64),
    Nan,
    Text(Seq<char>),
    Bool(bool),
    Null,
    Tag(u64, Box<CborValue>),
    Array(Seq<CborValue>),
    Mapping(Seq<(CborValue, CborValue)>),
}

/// The model of a double-precision number with the given bits.
pub open spec fn float_model(bits: u64) -> CborValue {
    if bits % 0x8000_0000_0000_0000 > 0x7FF0_0000_0000_0000 {
        CborValue::Nan
    } else {
        CborValue::Float(bits)
    }
}

/// The item that a [`Value`] stands for.
pub open spec fn model(value: Value) -> CborValue
    decreases value,
{
    match value {
        Value::Integer(i) => CborValue::Integer(i as int),
        Value::Bytes(bytes) => CborValue::Bytes(bytes@),
        Value::Float(bits) => float_model(bits),
        Value::Text(text) => CborValue::Text(text@),
        Value::Bool(b) => CborValue::Bool(b),
        Value::Null => CborValue::Null,
        Value::Tag(tag, inner) => CborValue::Tag(tag, Box::new(model(*inner))),
        Value::Array(items) => CborValue::Array(
            Seq::new(
                items@.len(),
                |i: int|
                    if 0 <= i < items@.len() {
                        model(items@[i])
                    } else {
                        CborValue::Null
                    },
            ),
        ),
        Value::Mapping(entries) => CborValue::Mapping(
            Seq::new(
                entries@.len(),
                |i: int|
                    if 0 <= i < entries@.len() {
                        (model(entries@[i].0), model(entries@[i].1))
                    } else {
                        (CborValue::Null, CborValue::Null)
                    },
            ),
        ),
    }
}

impl View for Value {
    type V = CborValue;

    open spec fn view(&self) -> CborValue {
        model(*self)
    }
}

/// The items of an array.
pub open spec fn item_models(items: Seq<Value>) -> Seq<CborValue> {
    Seq::new(items.len(), |i: int| items[i]@)
}

/// The entries of a map.
pub open spec fn entry_models(entries: Seq<(Value, Value)>) -> Seq<(CborValue, CborValue)> {
    Seq::new(entries.len(), |i: int| (entries[i].0@, entries[i].1@))
}

/// An array is modelled by the models of its items.
pub proof fn lemma_array_model(items: Vec<Value>)
    ensures
        Value::Array(items)@ == CborValue::Array(item_models(items@)),
{
    assert(Value::Array(items)@->Array_0 =~= item_models(items@));
}

/// A map is modelled by the models of its entries.
pub proof fn lemma_mapping_model(entries: Vec<(Value, Value)>)
    ensures
        Value::Mapping(entries)@ == CborValue::Mapping(entry_models(entries@)),
{
    assert(Value::Mapping(entries)@->Mapping_0 =~= entry_models(entries@));
}

/// Whether an integer fits a CBOR integer item.
pub open spec fn in_integer_range(i: int) -> bool {
    -0x1_0000_0000_0000_0000 <= i < 0x1_0000_0000_0000_0000
}

/// Whether CBOR can hold the item: every integer in it is in range.
pub open spec fn encodable(value: CborValue) -> bool
    decreases value,
{
    match value {
        CborValue::Integer(i) => in_integer_range(i),
        CborValue::Tag(_, inner) => encodable(*inner),
        CborValue::Array(items) => forall|i: int|
            0 <= i < items.len() ==> encodable(#[trigger] items[i]),
        CborValue::Mapping(entries) => forall|i: int|
            0 <= i < entries.len() ==> encodable((#[trigger] entries[i]).0) && encodable(
                entries[i].1,
            ),
        _ => true,
    }
}

/// Whether a NaN occurs in the item.
pub open spec fn has_nan(value: CborValue) -> bool
    decreases value,
{
    match value {
        CborValue::Nan => true,
        CborValue::Tag(_, inner) => has_nan(*inner),
        CborValue::Array(items) => exists|i: int|
            0 <= i < items.len() && has_nan(#[trigger] items[i]),
        CborValue::Mapping(entries) => exists|i: int|
            0 <= i < entries.len() && (has_nan((#[trigger] entries[i]).0) || has_nan(
                entries[i].1,
            )),
        _ => false,
    }
}

/// Whether a read gives the item back as it was written: it holds no tagged byte string that a
/// reader takes for an integer, and at most `depth` levels of nesting.
pub open spec fn restorable(value: CborValue, depth: nat) -> bool
    decreases value,
{
    match value {
        CborValue::Tag(tag, inner) => depth > 0 && restorable(*inner, (depth - 1) as nat) && !((tag
            == 2 || tag == 3) && (*inner matches CborValue::Bytes(bytes) && bytes.len() <= 16)),
        CborValue::Array(items) => depth > 0 && forall|i: int|
            0 <= i < items.len() ==> restorable(#[trigger] items[i], (depth - 1) as nat),
        CborValue::Mapping(entries) => depth > 0 && forall|i: int|
            0 <= i < entries.len() ==> restorable((#[trigger] entries[i]).0, (depth - 1) as nat)
                && restorable(entries[i].1, (depth - 1) as nat),
        _ => true,
    }
}

/// The nesting that a reader follows.
pub const MAX_NESTING: usize = 256;

/// Carries a `ciborium::Value` over into a [`Value`].
fn lift(raw: RawValue) -> (value: Value)
    ensures
        value@ == item::raw_model(raw),
        encodable(value@),
    decreases item::raw_model(raw),
{
    let node = item::unfold(raw);
    let ghost whole = item::raw_model(raw);
    match node {
        item::Node::Integer(i) => Value::Integer(i),
        item::Node::Bytes(bytes) => Value::Bytes(bytes),
        item::Node::Float(bits) => Value::Float(bits),
        item::Node::Text(text) => Value::Text(text),
        item::Node::Bool(b) => Value::Bool(b),
        item::Node::Null => Value::Null,
        item::Node::Tag(tag, inner) => {
            assert(decreases_to!(whole => whole->Tag_1));
            Value::Tag(tag, Box::new(lift(*inner)))
        },
        item::Node::Array(items) => {
            let ghost raws = items@;
            let mut out: Vec<Value> = Vec::new();
            for x in it: items.into_iter()
                invariant
                    it.seq() == raws,
                    out@.len() == it.index(),
                    whole == item::raw_model(raw),
                    whole == CborValue::Array(item::raw_items(raws)),
                    forall|j: int|
                        0 <= j < out@.len() ==> (#[trigger] out@[j])@ == item::raw_model(raws[j])
                            && encodable(out@[j]@),
            {
                proof {
                    assert(whole->Array_0[it.index()] == item::raw_model(x));
                    assert(decreases_to!(whole => whole->Array_0));
                    assert(decreases_to!(whole->Array_0 => whole->Array_0[it.index()]));
                }
                let value = lift(x);
                out.push(value);
            }
            proof {
                lemma_array_model(out);
                assert(item_models(out@) =~= item::raw_items(raws));
            }
            let value = Value::Array(out);
            assert forall|i: int| 0 <= i < whole->Array_0.len() implies encodable(
                #[trigger] whole->Array_0[i],
            ) by {
                assert(out@[i]@ == item::raw_model(raws[i]));
            }
            value
        },
        item::Node::Mapping(entries) => {
            let ghost raws = entries@;
            let mut out: Vec<(Value, Value)> = Vec::new();
            for x in it: entries.into_iter()
                invariant
                    it.seq() == raws,
                    out@.len() == it.index(),
                    whole == item::raw_model(raw),
                    whole == CborValue::Mapping(item::raw_entries(raws)),
                    forall|j: int|
                        0 <= j < out@.len() ==> (#[trigger] out@[j]).0@ == item::raw_model(
                            raws[j].0,
                        ) && out@[j].1@ == item::raw_model(raws[j].1) && encodable(out@[j].0@)
                            && encodable(out@[j].1@),
            {
                proof {
                    let entry = whole->Mapping_0[it.index()];
                    assert(entry == (item::raw_model(x.0), item::raw_model(x.1)));
                    assert(decreases_to!(whole => whole->Mapping_0));
                    assert(decreases_to!(whole->Mapping_0 => whole->Mapping_0[it.index()]));
                    assert(decreases_to!(entry => entry.0));
                    assert(decreases_to!(entry => entry.1));
                }
                let (raw_key, raw_value) = x;
                let key = lift(raw_key);
                let value = lift(raw_value);
                out.push((key, value));
            }
            proof {
                lemma_mapping_model(out);
                assert(entry_models(out@) =~= item::raw_entries(raws));
            }
            let value = Value::Mapping(out);
            assert forall|i: int| 0 <= i < whole->Mapping_0.len() implies encodable(
                (#[trigger] whole->Mapping_0[i]).0,
            ) && encodable(whole->Mapping_0[i].1) by {
                assert(out@[i].0@ == item::raw_model(raws[i].0));
            }
            value
        },
    }
}

/// The items of an encodable array are encodable.
proof fn lemma_item_encodable(items: Seq<CborValue>, i: int)
    requires
        encodable(CborValue::Array(items)),
        0 <= i < items.len(),
    ensures
        encodable(items[i]),
{
    let array = CborValue::Array(items);
    assert(array->Array_0[i] == items[i]);
}

/// The entries of an encodable map are encodable.
proof fn lemma_entry_encodable(entries: Seq<(CborValue, CborValue)>, i: int)
    requires
        encodable(CborValue::Mapping(entries)),
        0 <= i < entries.len(),
    ensures
        encodable(entries[i].0),
        encodable(entries[i].1),
{
    let mapping = CborValue::Mapping(entries);
    assert(mapping->Mapping_0[i] == entries[i]);
}

/// Carries a [`Value`] over into a `ciborium::Value`; `None` where an integer in it is out of
/// CBOR's range.
fn lower(value: &Value) -> (r: Option<RawValue>)
    ensures
        match r {
            Some(raw) => encodable(value@) && item::raw_model(raw) == value@,
            None => !encodable(value@),
        },
    decreases value,
{
    match value {
        Value::Integer(i) => {
            if *i < -0x1_0000_0000_0000_0000 || *i >= 0x1_0000_0000_0000_0000 {
                None
            } else {
                Some(item::fold(item::Node::Integer(*i)))
            }
        },
        Value::Bytes(bytes) => Some(item::fold(item::Node::Bytes(text::copy_bytes(bytes)))),
        Value::Float(bits) => Some(item::fold_float(*bits)),
        Value::Text(text) => Some(item::fold(item::Node::Text(text.clone()))),
        Value::Bool(b) => Some(item::fold(item::Node::Bool(*b))),
        Value::Null => Some(item::fold(item::Node::Null)),
        Value::Tag(tag, inner) => {
            match lower(inner) {
                Some(raw) => Some(item::fold(item::Node::Tag(*tag, Box::new(raw)))),
                None => None,
            }
        },
        Value::Array(items) => {
            let mut raws: Vec<RawValue> = Vec::new();
            let mut i: usize = 0;
            proof {
                lemma_array_model(*items);
            }
            while i < items.len()
                invariant
                    i <= items.len(),
                    raws@.len() == i,
                    value@ == CborValue::Array(item_models(items@)),
                    *value == Value::Array(*items),
                    forall|j: int|
                        0 <= j < i ==> item::raw_model(#[trigger] raws@[j]) == items@[j]@
                            && encodable(items@[j]@),
                decreases items.len() - i,
            {
                proof {
                    assert(item_models(items@)[i as int] == items@[i as int]@);
                    assert(decreases_to!(value => items));
                    assert(decreases_to!(items => items@));
                    assert(decreases_to!(items@ => items@[i as int]));
                }
                match lower(&items[i]) {
                    Some(raw) => {
                        raws.push(raw);
                    },
                    None => {
                        proof {
                            if encodable(value@) {
                                lemma_item_encodable(item_models(items@), i as int);
                            }
                        }
                        return None;
                    },
                }
                i += 1;
            }
            proof {
                assert(item::raw_items(raws@) =~= item_models(items@));
                assert forall|j: int| 0 <= j < items@.len() implies encodable(
                    #[trigger] item_models(items@)[j],
                ) by {
                    assert(item::raw_model(raws@[j]) == items@[j]@);
                }
            }
            Some(item::fold(item::Node::Array(raws)))
        },
        Value::Mapping(entries) => {
            let mut raws: Vec<(RawValue, RawValue)> = Vec::new();
            let mut i: usize = 0;
            proof {
                lemma_mapping_model(*entries);
            }
            while i < entries.len()
                invariant
                    i <= entries.len(),
                    raws@.len() == i,
                    value@ == CborValue::Mapping(entry_models(entries@)),
                    *value == Value::Mapping(*entries),
                    forall|j: int|
                        0 <= j < i ==> item::raw_model((#[trigger] raws@[j]).0) == entries@[j].0@
                            && item::raw_model(raws@[j].1) == entries@[j].1@ && encodable(
                            entries@[j].0@,
                        ) && encodable(entries@[j].1@),
                decreases entries.len() - i,
            {
                proof {
                    let entry = entries@[i as int];
                    assert(entry_models(entries@)[i as int] == (entry.0@, entry.1@));
                    assert(decreases_to!(value => entries));
                    assert(decreases_to!(entries => entries@));
                    assert(decreases_to!(entries@ => entries@[i as int]));
                    assert(decreases_to!(entry => entry.0));
                    assert(decreases_to!(entry => entry.1));
                }
                match (lower(&entries[i].0), lower(&entries[i].1)) {
                    (Some(raw_key), Some(raw_value)) => {
                        raws.push((raw_key, raw_value));
                    },
                    _ => {
                        proof {
                            if encodable(value@) {
                                lemma_entry_encodable(entry_models(entries@), i as int);
                            }
                        }
                        return None;
                    },
                }
                i += 1;
            }
            proof {
                assert(item::raw_entries(raws@) =~= entry_models(entries@));
                assert forall|j: int| 0 <= j < entries@.len() implies encodable(
                    (#[trigger] entry_models(entries@)[j]).0,
                ) && encodable(entry_models(entries@)[j].1) by {
                    assert(item::raw_model(raws@[j].0) == entries@[j].0@);
                }
            }
            Some(item::fold(item::Node::Mapping(raws)))
        },
    }
}

/// The item that makes up all of `bytes`; `None` where there is none, or bytes follow it.
pub open spec fn decoded(bytes: Seq<u8>) -> Option<CborValue> {
    match item::leading_item(bytes) {
        Some((value, used)) => if used == bytes.len() {
            Some(value)
        } else {
            None
        },
        None => None,
    }
}

/// What [`decode`] says of bytes behind the item.
pub open spec fn trailing_message(used: nat, total: nat) -> Seq<char> {
    "trailing bytes after CBOR value ("@ + text::decimal(used) + "/"@ + text::decimal(total)
        + " consumed)"@
}

/// The item that makes up all of `bytes`, or the failure to find one: the reader's, or the one
/// that counts the bytes behind the item.
pub open spec fn whole_item(bytes: Seq<u8>) -> Result<CborValue, Fault> {
    match item::leading_item(bytes) {
        None => Err(Fault::Cbor(None)),
        Some((value, used)) => if used == bytes.len() {
            Ok(value)
        } else {
            Err(Fault::Cbor(Some(trailing_message(used, bytes.len()))))
        },
    }
}

/// The failure to encode an item with an integer out of CBOR's range.
pub open spec fn out_of_range() -> Fault {
    Fault::Cbor(Some("integer out of CBOR range"@))
}

/// Encode a [`Value`] to CBOR bytes. Whoever reads them finds the value, whatever follows. Which
/// bits of a NaN are written is left open.
///
/// # Errors
///
/// [`Error::Cbor`] if an integer in the value is out of CBOR's range, and then only.
pub fn encode(value: &Value) -> (r: Result<Vec<u8>, Error>)
    ensures
        match r {
            Ok(bytes) => {
                &&& encodable(value@)
                &&& !has_nan(value@) ==> bytes@ == item::item_bytes(value@)
                &&& restorable(value@, MAX_NESTING as nat) ==> decoded(bytes@) == Some(value@)
                    && forall|tail: Seq<u8>| #[trigger]
                    item::leading_item(bytes@ + tail) == Some((value@, bytes@.len()))
            },
            Err(err) => !encodable(value@) && err@ == out_of_range(),
        },
{
    match lower(value) {
        Some(raw) => match item::write_item(&raw) {
            Ok(bytes) => {
                proof {
                    if restorable(value@, MAX_NESTING as nat) {
                        assert(bytes@ + Seq::<u8>::empty() =~= bytes@);
                    }
                }
                Ok(bytes)
            },
            Err(message) => Err(Error::Cbor(message)),
        },
        None => Err(Error::Cbor("integer out of CBOR range".to_owned())),
    }
}

/// Reads the item at the front of `bytes` and the number of bytes it takes. Those bytes alone
/// decide: behind them anything may follow.
///
/// # Errors
///
/// [`Error::Cbor`] if no item stands there.
pub fn decode_leading(bytes: &[u8]) -> (r: Result<(Value, usize), Error>)
    ensures
        match r {
            Ok((value, used)) => {
                &&& 0 < used <= bytes@.len()
                &&& item::leading_item(bytes@) == Some((value@, used as nat))
                &&& decoded(bytes@.take(used as int)) == Some(value@)
                &&& encodable(value@)
                &&& forall|tail: Seq<u8>| #[trigger]
                    item::leading_item(bytes@.take(used as int) + tail) == Some(
                        (value@, used as nat),
                    )
            },
            Err(err) => item::leading_item(bytes@) is None && err is Cbor,
        },
{
    match item::read_item(bytes) {
        Ok((raw, left)) => {
            let used: usize = bytes.len() - left;
            let value = lift(raw);
            assert(bytes@.take(used as int) + Seq::<u8>::empty() =~= bytes@.take(used as int));
            Ok((value, used))
        },
        Err(message) => Err(Error::Cbor(message)),
    }
}

/// Accept a value that was read off the front of `total` bytes, if it took them all.
///
/// # Errors
///
/// [`Error::Cbor`] if bytes are left behind the value.
pub fn require_all(value: Value, used: usize, total: usize) -> (r: Result<Value, Error>)
    ensures
        match r {
            Ok(whole) => used == total && whole == value,
            Err(err) => used != total && err@ == Fault::Cbor(
                Some(trailing_message(used as nat, total as nat)),
            ),
        },
{
    if used == total {
        return Ok(value);
    }
    let mut message = "trailing bytes after CBOR value (".to_owned();
    text::push_decimal(&mut message, used);
    message.append("/");
    text::push_decimal(&mut message, total);
    message.append(" consumed)");
    Err(Error::Cbor(message))
}

/// Decode a single CBOR value from a byte slice. Trailing bytes are an error, though the same
/// value still stands in front of them.
///
/// # Errors
///
/// [`Error::Cbor`] if the input is not a valid CBOR value or has trailing bytes.
pub fn decode(bytes: &[u8]) -> (r: Result<Value, Error>)
    ensures
        crate::error::agrees(r, whole_item(bytes@)),
        match r {
            Ok(value) => {
                &&& decoded(bytes@) == Some(value@)
                &&& encodable(value@)
                &&& forall|tail: Seq<u8>| #[trigger]
                    item::leading_item(bytes@ + tail) == Some((value@, bytes@.len()))
            },
            Err(_) => decoded(bytes@) is None,
        },
{
    match decode_leading(bytes) {
        Ok((value, used)) => {
            assert(used == bytes@.len() ==> bytes@.take(used as int) =~= bytes@);
            require_all(value, used, bytes.len())
        },
        Err(err) => Err(err),
    }
}

/// The integer that an item is.
pub open spec fn integer_of(item: CborValue) -> Option<int> {
    match item {
        CborValue::Integer(i) => Some(i),
        _ => None,
    }
}

/// The byte string that an item is.
pub open spec fn bytes_of(item: CborValue) -> Option<Seq<u8>> {
    match item {
        CborValue::Bytes(bytes) => Some(bytes),
        _ => None,
    }
}

/// The text that an item is.
pub open spec fn text_of(item: CborValue) -> Option<Seq<char>> {
    match item {
        CborValue::Text(text) => Some(text),
        _ => None,
    }
}

/// The boolean that an item is.
pub open spec fn bool_of(item: CborValue) -> Option<bool> {
    match item {
        CborValue::Bool(b) => Some(b),
        _ => None,
    }
}

/// The index of the first entry under `key`, or the number of entries where there is none.
pub open spec fn position(entries: Seq<(CborValue, CborValue)>, key: CborValue) -> int
    decreases entries.len(),
{
    if entries.len() == 0 || entries[0].0 == key {
        0
    } else {
        1 + position(entries.drop_first(), key)
    }
}

/// What the first entry under `key` holds.
pub open spec fn entry(entries: Seq<(CborValue, CborValue)>, key: CborValue) -> Option<CborValue> {
    if position(entries, key) < entries.len() {
        Some(entries[position(entries, key)].1)
    } else {
        None
    }
}

/// What is left once the first entry under `key` is out: the last entry takes its place.
pub open spec fn without(entries: Seq<(CborValue, CborValue)>, key: CborValue) -> Seq<
    (CborValue, CborValue),
> {
    if position(entries, key) < entries.len() {
        entries.update(position(entries, key), entries.last()).drop_last()
    } else {
        entries
    }
}

/// What an item holds under `key`: nothing, unless it is a map.
pub open spec fn field(item: CborValue, key: CborValue) -> Option<CborValue> {
    match item {
        CborValue::Mapping(entries) => entry(entries, key),
        _ => None,
    }
}

/// The key of a field that CTAP numbers.
pub open spec fn number_key(key: int) -> CborValue {
    CborValue::Integer(key)
}

/// The key of a field that CTAP names.
pub open spec fn name_key(key: Seq<char>) -> CborValue {
    CborValue::Text(key)
}

/// The integer under a numbered key.
pub open spec fn integer_field(item: CborValue, key: int) -> Option<int> {
    match field(item, number_key(key)) {
        Some(value) => integer_of(value),
        None => None,
    }
}

/// The byte string under a numbered key.
pub open spec fn bytes_field(item: CborValue, key: int) -> Option<Seq<u8>> {
    match field(item, number_key(key)) {
        Some(value) => bytes_of(value),
        None => None,
    }
}

/// The position is the first index at which the key stands.
pub proof fn lemma_position(entries: Seq<(CborValue, CborValue)>, key: CborValue)
    ensures
        0 <= position(entries, key) <= entries.len(),
        position(entries, key) < entries.len() ==> entries[position(entries, key)].0 == key,
        forall|j: int| 0 <= j < position(entries, key) ==> (#[trigger] entries[j]).0 != key,
    decreases entries.len(),
{
    if entries.len() > 0 && entries[0].0 != key {
        let rest = entries.drop_first();
        lemma_position(rest, key);
        assert forall|j: int| 0 <= j < position(entries, key) implies (#[trigger] entries[j]).0
            != key by {
            if j > 0 {
                assert(rest[j - 1] == entries[j]);
            }
        }
    }
}

/// No other index is the first at which the key stands.
pub proof fn lemma_position_is(entries: Seq<(CborValue, CborValue)>, key: CborValue, at: int)
    requires
        0 <= at <= entries.len(),
        at < entries.len() ==> entries[at].0 == key,
        forall|j: int| 0 <= j < at ==> (#[trigger] entries[j]).0 != key,
    ensures
        position(entries, key) == at,
{
    lemma_position(entries, key);
    let found = position(entries, key);
    if found < at {
        assert(entries[found].0 != key);
    }
    if at < found {
        assert(entries[at].0 != key);
    }
}

/// An entry under one key is nothing to a lookup of another, wherever it stands.
pub proof fn law_lookup_passes_other_keys(
    before: Seq<(CborValue, CborValue)>,
    extra: (CborValue, CborValue),
    after: Seq<(CborValue, CborValue)>,
    key: CborValue,
)
    requires
        extra.0 != key,
    ensures
        entry(before + seq![extra] + after, key) == entry(before + after, key),
{
    let with = before + seq![extra] + after;
    let plain = before + after;
    lemma_position(plain, key);
    let at = position(plain, key);
    let moved = if at < before.len() {
        at
    } else {
        at + 1
    };
    assert forall|j: int| 0 <= j < moved implies (#[trigger] with[j]).0 != key by {
        if j < before.len() {
            assert(with[j] == plain[j]);
        } else if j > before.len() {
            assert(with[j] == plain[j - 1]);
        }
    }
    if at < plain.len() {
        assert(with[moved] == plain[at]);
    }
    lemma_position_is(with, key, moved);
}

/// A lookup in two runs of entries looks in the first, and then in the second.
pub proof fn lemma_entry_in_runs(
    first: Seq<(CborValue, CborValue)>,
    second: Seq<(CborValue, CborValue)>,
    key: CborValue,
)
    ensures
        entry(first + second, key) == (match entry(first, key) {
            Some(value) => Some(value),
            None => entry(second, key),
        }),
{
    let both = first + second;
    lemma_position(first, key);
    lemma_position(second, key);
    let at = if position(first, key) < first.len() {
        position(first, key)
    } else {
        first.len() + position(second, key)
    };
    assert forall|j: int| 0 <= j < at implies (#[trigger] both[j]).0 != key by {
        if j < first.len() {
            assert(both[j] == first[j]);
        } else {
            assert(both[j] == second[j - first.len()]);
        }
    }
    lemma_position_is(both, key, at);
}

/// Whether no two entries share a key.
pub open spec fn distinct_keys(entries: Seq<(CborValue, CborValue)>) -> bool {
    forall|i: int, j: int|
        0 <= i < j < entries.len() ==> (#[trigger] entries[i]).0 != (#[trigger] entries[j]).0
}

/// Taking a field out of a map without repeated keys takes that field and no other: the keys
/// stay distinct, the field is gone, and every other field holds what it held.
pub proof fn law_take_leaves_the_rest(
    entries: Seq<(CborValue, CborValue)>,
    key: CborValue,
    other: CborValue,
)
    requires
        distinct_keys(entries),
    ensures
        distinct_keys(without(entries, key)),
        entry(without(entries, key), key) is None,
        other != key ==> entry(without(entries, key), other) == entry(entries, other),
{
    let rest = without(entries, key);
    let at = position(entries, key);
    lemma_position(entries, key);
    lemma_position(rest, key);
    lemma_position(rest, other);
    lemma_position(entries, other);
    if at < entries.len() {
        let last = entries.len() - 1;
        assert forall|i: int| 0 <= i < rest.len() implies #[trigger] rest[i] == (if i == at {
            entries[last]
        } else {
            entries[i]
        }) by {}
        assert forall|i: int| 0 <= i < rest.len() implies (#[trigger] rest[i]).0 != key by {
            if i == at {
                assert(entries[at].0 != entries[last].0);
            } else if i < at {
                assert(entries[i].0 != entries[at].0);
            } else {
                assert(entries[at].0 != entries[i].0);
            }
        }
        assert(distinct_keys(rest)) by {
            assert forall|i: int, j: int| 0 <= i < j < rest.len() implies (#[trigger] rest[i]).0
                != (#[trigger] rest[j]).0 by {
                let a = if i == at {
                    last
                } else {
                    i
                };
                let b = if j == at {
                    last
                } else {
                    j
                };
                assert(rest[i] == entries[a] && rest[j] == entries[b]);
                if a < b {
                    assert(entries[a].0 != entries[b].0);
                } else {
                    assert(entries[b].0 != entries[a].0);
                }
            }
        }
        if other != key {
            let was = position(entries, other);
            if was < entries.len() {
                let now = if was == last {
                    at
                } else {
                    was
                };
                assert(now < rest.len());
                assert(rest[now] == entries[was]);
                assert forall|j: int| 0 <= j < now implies (#[trigger] rest[j]).0 != other by {
                    assert(rest[j].0 != rest[now].0);
                }
                lemma_position_is(rest, other, now);
            } else {
                assert forall|j: int| 0 <= j < rest.len() implies (#[trigger] rest[j]).0
                    != other by {
                    let b = if j == at {
                        last
                    } else {
                        j
                    };
                    assert(entries[b].0 != other);
                }
                lemma_position_is(rest, other, rest.len() as int);
            }
        }
    }
}

impl Value {
    /// The integer, where the value is one.
    pub fn as_integer(&self) -> (r: Option<i128>)
        ensures
            match r {
                Some(i) => self@ == CborValue::Integer(i as int),
                None => integer_of(self@) is None,
            },
    {
        match self {
            Value::Integer(i) => Some(*i),
            _ => None,
        }
    }

    /// The byte string, where the value is one.
    pub fn as_bytes(&self) -> (r: Option<&Vec<u8>>)
        ensures
            match r {
                Some(bytes) => self@ == CborValue::Bytes(bytes@),
                None => bytes_of(self@) is None,
            },
    {
        match self {
            Value::Bytes(bytes) => Some(bytes),
            _ => None,
        }
    }

    /// The text, where the value is one.
    pub fn as_text(&self) -> (r: Option<&str>)
        ensures
            match r {
                Some(text) => self@ == CborValue::Text(text@),
                None => text_of(self@) is None,
            },
    {
        match self {
            Value::Text(text) => Some(text.as_str()),
            _ => None,
        }
    }

    /// The boolean, where the value is one.
    pub fn as_bool(&self) -> (r: Option<bool>)
        ensures
            r == bool_of(self@),
    {
        match self {
            Value::Bool(b) => Some(*b),
            _ => None,
        }
    }
}

/// Whether a value is the given integer.
fn is_integer(value: &Value, key: i128) -> (r: bool)
    ensures
        r == (value@ == number_key(key as int)),
{
    match value {
        Value::Integer(i) => *i == key,
        _ => false,
    }
}

/// Whether a value is the given text.
fn is_text(value: &Value, key: &str) -> (r: bool)
    ensures
        r == (value@ == name_key(key@)),
{
    match value {
        Value::Text(text) => text::same_text(text.as_str(), key),
        _ => false,
    }
}

/// The index of the first entry with an integer key.
fn position_of_int(entries: &Vec<(Value, Value)>, key: i128) -> (at: usize)
    ensures
        at == position(entry_models(entries@), number_key(key as int)),
        at <= entries@.len(),
{
    let mut i: usize = 0;
    while i < entries.len()
        invariant
            i <= entries.len(),
            forall|j: int|
                0 <= j < i ==> (#[trigger] entry_models(entries@)[j]).0 != number_key(key as int),
        decreases entries.len() - i,
    {
        if is_integer(&entries[i].0, key) {
            proof {
                lemma_position_is(entry_models(entries@), number_key(key as int), i as int);
            }
            return i;
        }
        i += 1;
    }
    proof {
        lemma_position_is(entry_models(entries@), number_key(key as int), i as int);
    }
    i
}

/// The index of the first entry with a text key.
fn position_of_text(entries: &Vec<(Value, Value)>, key: &str) -> (at: usize)
    ensures
        at == position(entry_models(entries@), name_key(key@)),
        at <= entries@.len(),
{
    let mut i: usize = 0;
    while i < entries.len()
        invariant
            i <= entries.len(),
            forall|j: int|
                0 <= j < i ==> (#[trigger] entry_models(entries@)[j]).0 != name_key(key@),
        decreases entries.len() - i,
    {
        if is_text(&entries[i].0, key) {
            proof {
                lemma_position_is(entry_models(entries@), name_key(key@), i as int);
            }
            return i;
        }
        i += 1;
    }
    proof {
        lemma_position_is(entry_models(entries@), name_key(key@), i as int);
    }
    i
}

/// Look up an integer-keyed map field. CTAP messages are CBOR maps with integer keys.
pub fn get_int_field(value: &Value, key: i128) -> (r: Option<&Value>)
    ensures
        match r {
            Some(found) => field(value@, number_key(key as int)) == Some(found@),
            None => field(value@, number_key(key as int)) is None,
        },
{
    match value {
        Value::Mapping(entries) => {
            proof {
                lemma_mapping_model(*entries);
            }
            let at: usize = position_of_int(entries, key);
            if at < entries.len() {
                Some(&entries[at].1)
            } else {
                None
            }
        },
        _ => None,
    }
}

/// Look up a string-keyed map field. Used inside extension sub-maps, where CTAP encodes
/// extension identifiers as text strings.
pub fn get_text_field<'a>(value: &'a Value, key: &str) -> (r: Option<&'a Value>)
    ensures
        match r {
            Some(found) => field(value@, name_key(key@)) == Some(found@),
            None => field(value@, name_key(key@)) is None,
        },
{
    match value {
        Value::Mapping(entries) => {
            proof {
                lemma_mapping_model(*entries);
            }
            let at: usize = position_of_text(entries, key);
            if at < entries.len() {
                Some(&entries[at].1)
            } else {
                None
            }
        },
        _ => None,
    }
}

/// The integer under an integer key, where the value is a map that holds one there.
pub fn get_integer(value: &Value, key: i128) -> (r: Option<i128>)
    ensures
        match r {
            Some(i) => integer_field(value@, key as int) == Some(i as int),
            None => integer_field(value@, key as int) is None,
        },
{
    match get_int_field(value, key) {
        Some(found) => found.as_integer(),
        None => None,
    }
}

/// The byte string under an integer key, where the value is a map that holds one there.
pub fn get_bytes(value: &Value, key: i128) -> (r: Option<&Vec<u8>>)
    ensures
        match r {
            Some(bytes) => bytes_field(value@, key as int) == Some(bytes@),
            None => bytes_field(value@, key as int) is None,
        },
{
    match get_int_field(value, key) {
        Some(found) => found.as_bytes(),
        None => None,
    }
}

/// Force a [`Value`] to bytes, returning a parse error if it isn't a byte string.
///
/// # Errors
///
/// [`Error::Parse`] carrying `label` if `value` isn't a byte string.
pub fn require_bytes<'a>(value: &'a Value, label: &'static str) -> (r: Result<&'a [u8], Error>)
    ensures
        match r {
            Ok(bytes) => value@ == CborValue::Bytes(bytes@),
            Err(err) => bytes_of(value@) is None && err == Error::Parse(label),
        },
{
    match value {
        Value::Bytes(bytes) => Ok(bytes.as_slice()),
        _ => Err(Error::Parse(label)),
    }
}

/// Removes an entry by moving the last one into its place.
fn take_at(entries: &mut Vec<(Value, Value)>, at: usize) -> (r: Value)
    requires
        at < old(entries)@.len(),
    ensures
        r == old(entries)@[at as int].1,
        entry_models(final(entries)@) == entry_models(old(entries)@).update(
            at as int,
            entry_models(old(entries)@).last(),
        ).drop_last(),
{
    let (_, value) = entries.swap_remove(at);
    assert(entry_models(entries@) =~= entry_models(old(entries)@).update(
        at as int,
        entry_models(old(entries)@).last(),
    ).drop_last());
    value
}

/// Remove and return the value at an integer-keyed entry.
pub fn take_int_field(entries: &mut Vec<(Value, Value)>, key: i128) -> (r: Option<Value>)
    ensures
        entry_models(final(entries)@) == without(
            entry_models(old(entries)@),
            number_key(key as int),
        ),
        match r {
            Some(found) => entry(entry_models(old(entries)@), number_key(key as int)) == Some(
                found@,
            ),
            None => entry(entry_models(old(entries)@), number_key(key as int)) is None,
        },
{
    let at: usize = position_of_int(entries, key);
    if at < entries.len() {
        Some(take_at(entries, at))
    } else {
        None
    }
}

/// Remove and return the value at a text-keyed entry.
pub fn take_text_field(entries: &mut Vec<(Value, Value)>, key: &str) -> (r: Option<Value>)
    ensures
        entry_models(final(entries)@) == without(entry_models(old(entries)@), name_key(key@)),
        match r {
            Some(found) => entry(entry_models(old(entries)@), name_key(key@)) == Some(found@),
            None => entry(entry_models(old(entries)@), name_key(key@)) is None,
        },
{
    let at: usize = position_of_text(entries, key);
    if at < entries.len() {
        Some(take_at(entries, at))
    } else {
        None
    }
}

/// Whether an item can be written, has one form and is then read back as it was.
pub open spec fn faithful(item: CborValue, depth: nat) -> bool {
    encodable(item) && restorable(item, depth) && !has_nan(item)
}

/// A faithful item stays so where more nesting is granted.
pub proof fn lemma_faithful_deeper(item: CborValue, depth: nat, more: nat)
    requires
        faithful(item, depth),
        depth <= more,
    ensures
        faithful(item, more),
{
    lemma_restorable_deeper(item, depth, more);
}

proof fn lemma_restorable_deeper(item: CborValue, depth: nat, more: nat)
    requires
        restorable(item, depth),
        depth <= more,
    ensures
        restorable(item, more),
    decreases item,
{
    match item {
        CborValue::Tag(_, inner) => {
            lemma_restorable_deeper(*inner, (depth - 1) as nat, (more - 1) as nat);
        },
        CborValue::Array(items) => {
            assert forall|i: int| 0 <= i < items.len() implies restorable(
                #[trigger] items[i],
                (more - 1) as nat,
            ) by {
                assert(decreases_to!(item => items));
                assert(decreases_to!(items => items[i]));
                lemma_restorable_deeper(items[i], (depth - 1) as nat, (more - 1) as nat);
            }
        },
        CborValue::Mapping(entries) => {
            assert forall|i: int| 0 <= i < entries.len() implies restorable(
                (#[trigger] entries[i]).0,
                (more - 1) as nat,
            ) && restorable(entries[i].1, (more - 1) as nat) by {
                assert(decreases_to!(item => entries));
                assert(decreases_to!(entries => entries[i]));
                assert(decreases_to!(entries[i] => entries[i].0));
                assert(decreases_to!(entries[i] => entries[i].1));
                lemma_restorable_deeper(entries[i].0, (depth - 1) as nat, (more - 1) as nat);
                lemma_restorable_deeper(entries[i].1, (depth - 1) as nat, (more - 1) as nat);
            }
        },
        _ => {},
    }
}

/// An array of faithful items is faithful, one level up.
pub proof fn lemma_faithful_array(items: Seq<CborValue>, depth: nat)
    requires
        forall|i: int| 0 <= i < items.len() ==> faithful(#[trigger] items[i], depth),
    ensures
        faithful(CborValue::Array(items), depth + 1),
{
    let array = CborValue::Array(items);
    assert forall|i: int| 0 <= i < items.len() implies encodable(#[trigger] array->Array_0[i])
        && restorable(array->Array_0[i], depth) && !has_nan(array->Array_0[i]) by {
        assert(faithful(items[i], depth));
    }
}

/// A map of faithful entries is faithful, one level up.
pub proof fn lemma_faithful_mapping(entries: Seq<(CborValue, CborValue)>, depth: nat)
    requires
        forall|i: int|
            0 <= i < entries.len() ==> faithful((#[trigger] entries[i]).0, depth) && faithful(
                entries[i].1,
                depth,
            ),
    ensures
        faithful(CborValue::Mapping(entries), depth + 1),
{
    let mapping = CborValue::Mapping(entries);
    assert forall|i: int| 0 <= i < entries.len() implies encodable(
        (#[trigger] mapping->Mapping_0[i]).0,
    ) && encodable(mapping->Mapping_0[i].1) && restorable(mapping->Mapping_0[i].0, depth)
        && restorable(mapping->Mapping_0[i].1, depth) && !has_nan(mapping->Mapping_0[i].0)
        && !has_nan(mapping->Mapping_0[i].1) by {
        assert(faithful(entries[i].0, depth));
    }
}

/// A map is encodable where all its entries are, and only there.
pub proof fn lemma_encodable_mapping(entries: Seq<(CborValue, CborValue)>)
    ensures
        encodable(CborValue::Mapping(entries)) == (forall|i: int|
            0 <= i < entries.len() ==> encodable((#[trigger] entries[i]).0) && encodable(
                entries[i].1,
            )),
{
    let mapping = CborValue::Mapping(entries);
    assert(mapping->Mapping_0 == entries);
    if encodable(mapping) {
        assert forall|i: int| 0 <= i < entries.len() implies encodable((#[trigger] entries[i]).0)
            && encodable(entries[i].1) by {
            lemma_entry_encodable(entries, i);
        }
    }
}

/// What is found in an encodable map is encodable, and so is what is left once it is out.
pub proof fn lemma_encodable_field(entries: Seq<(CborValue, CborValue)>, key: CborValue)
    requires
        encodable(CborValue::Mapping(entries)),
    ensures
        entry(entries, key) matches Some(value) ==> encodable(value),
        encodable(CborValue::Mapping(without(entries, key))),
{
    lemma_position(entries, key);
    lemma_encodable_mapping(entries);
    let rest = without(entries, key);
    assert forall|i: int| 0 <= i < rest.len() implies encodable((#[trigger] rest[i]).0)
        && encodable(rest[i].1) by {
        let at = if i == position(entries, key) {
            entries.len() - 1
        } else {
            i
        };
        assert(rest[i] == entries[at]);
    }
    lemma_encodable_mapping(rest);
}

/// A NaN in a map is one in an entry.
pub proof fn lemma_nan_in_mapping(entries: Seq<(CborValue, CborValue)>)
    requires
        has_nan(CborValue::Mapping(entries)),
    ensures
        exists|i: int|
            0 <= i < entries.len() && (has_nan((#[trigger] entries[i]).0) || has_nan(
                entries[i].1,
            )),
{
    let mapping = CborValue::Mapping(entries);
    assert(mapping->Mapping_0 == entries);
}

/// A map is restorable where its entries are, one level down.
pub proof fn lemma_restorable_mapping(entries: Seq<(CborValue, CborValue)>, depth: nat)
    requires
        forall|i: int|
            0 <= i < entries.len() ==> restorable((#[trigger] entries[i]).0, depth) && restorable(
                entries[i].1,
                depth,
            ),
    ensures
        restorable(CborValue::Mapping(entries), depth + 1),
{
    let mapping = CborValue::Mapping(entries);
    assert(mapping->Mapping_0 == entries);
}

/// A CTAP2 command: the command byte and then its parameters.
pub open spec fn command_bytes(command: u8, parameters: CborValue) -> Seq<u8> {
    seq![command] + item::item_bytes(parameters)
}

/// Whether a payload is the given CTAP2 command: in its one form, and so that whoever decodes
/// what follows the command byte finds the parameters.
pub open spec fn is_command(payload: Seq<u8>, command: u8, parameters: CborValue) -> bool {
    payload == command_bytes(command, parameters) && decoded(payload.skip(1)) == Some(parameters)
}

/// Encode a CTAP2 command: the command byte and then its parameters.
///
/// # Errors
///
/// [`Error::Cbor`] if an integer in the parameters is out of CBOR's range, and then only.
pub fn encode_command(command: u8, parameters: &Value) -> (r: Result<Vec<u8>, Error>)
    ensures
        match r {
            Ok(payload) => {
                &&& encodable(parameters@)
                &&& payload@.len() > 0 && payload@[0] == command
                &&& !has_nan(parameters@) ==> payload@ == command_bytes(command, parameters@)
                &&& restorable(parameters@, MAX_NESTING as nat) ==> decoded(payload@.skip(1))
                    == Some(parameters@)
            },
            Err(err) => !encodable(parameters@) && err@ == out_of_range(),
        },
{
    let bytes = encode(parameters)?;
    let mut payload: Vec<u8> = Vec::new();
    payload.push(command);
    text::push_bytes(&mut payload, bytes.as_slice());
    proof {
        assert(payload@ =~= seq![command] + bytes@);
        assert(payload@.skip(1) =~= bytes@);
    }
    Ok(payload)
}

} // verus!
