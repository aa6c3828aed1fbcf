//! Status codes, error messages and CBOR.

use ctap_fido2::cbor;
use ctap_fido2::cbor::Value;
use ctap_fido2::error::{CtapStatus, Error};
use ctap_fido2::hid::KeepAlive;

#[test]
fn ctap_status_round_trip() {
    // Every typed variant must encode back to the byte it came from.
    for byte in [
        0x00, 0x01, 0x11, 0x27, 0x2E, 0x2F, 0x31, 0x32, 0x33, 0x34, 0x35, 0x36, 0x37,
    ] {
        assert_eq!(CtapStatus::from_byte(byte).as_byte(), byte);
    }
    // Unknown bytes flow through `Other` losslessly.
    assert_eq!(CtapStatus::from_byte(0xAA).as_byte(), 0xAA);
    assert!(matches!(
        CtapStatus::from_byte(0xAA),
        CtapStatus::Other(0xAA)
    ));
}

#[test]
fn keepalive_classification() {
    assert_eq!(KeepAlive::from_byte(0x01), KeepAlive::Processing);
    assert_eq!(KeepAlive::from_byte(0x02), KeepAlive::UserPresenceNeeded);
    assert!(matches!(KeepAlive::from_byte(0xFF), KeepAlive::Other(0xFF)));
}

#[test]
fn cbor_round_trip_int_keyed_map() {
    let original = Value::Mapping(vec![
        (Value::Integer(1), Value::Bytes(vec![0xDE, 0xAD])),
        (Value::Integer(2), Value::Text("hmac-secret".into())),
    ]);
    let bytes = cbor::encode(&original).expect("encode");
    let decoded = cbor::decode(&bytes).expect("decode");

    let field1 = cbor::get_int_field(&decoded, 1).expect("field 1 present");
    assert_eq!(
        field1.as_bytes().map(Vec::as_slice),
        Some([0xDE, 0xAD].as_slice())
    );

    let field2 = cbor::get_int_field(&decoded, 2).expect("field 2 present");
    assert_eq!(field2.as_text(), Some("hmac-secret"));

    assert!(cbor::get_int_field(&decoded, 99).is_none());
}

#[test]
fn cbor_text_field_lookup() {
    let map = Value::Mapping(vec![
        (Value::Text("a".into()), Value::Integer(1)),
        (Value::Text("b".into()), Value::Integer(2)),
    ]);
    assert_eq!(
        cbor::get_text_field(&map, "b").and_then(Value::as_integer),
        Some(2.into())
    );
    assert!(cbor::get_text_field(&map, "z").is_none());
}

#[test]
fn cbor_require_bytes_errors_on_wrong_type() {
    let value = Value::Integer(7);
    match cbor::require_bytes(&value, "test_field") {
        Err(Error::Parse("test_field")) => {}
        other => panic!("expected parse error, got {other:?}"),
    }
}

#[test]
fn every_status_byte_survives() {
    for byte in 0..=255_u8 {
        assert_eq!(u8::from(CtapStatus::from(byte)), byte);
    }
    assert_eq!(CtapStatus::from_byte(0x00), CtapStatus::Success);
    assert_eq!(CtapStatus::from_byte(0x06), CtapStatus::ChannelBusy);
    assert_eq!(CtapStatus::from_byte(0x2D), CtapStatus::KeepaliveCancel);
    assert_eq!(CtapStatus::from_byte(0x37), CtapStatus::PinPolicyViolation);
}

#[test]
fn error_messages() {
    assert_eq!(CtapStatus::NoCredentials.message(), "CTAP status 0x2E");
    assert_eq!(CtapStatus::Success.message(), "CTAP status 0x00");
    assert_eq!(CtapStatus::Other(0xFB).message(), "CTAP status 0xFB");
    assert_eq!(Error::Ctap(CtapStatus::PinBlocked).message(), "CTAP status 0x32");
    assert_eq!(
        Error::MissingExtension("hmac-secret").message(),
        "device omitted required extension: hmac-secret"
    );
    assert_eq!(Error::Hid("gone".into()).message(), "hidapi: gone");
    assert_eq!(Error::Cbor("bad".into()).message(), "cbor: bad");
    assert_eq!(Error::Pin("no").message(), "pin protocol: no");
    assert_eq!(Error::Parse("odd").message(), "parse: odd");
    let io = Error::from(std::io::Error::other("unplugged"));
    assert_eq!(io.message(), "hid io: unplugged");
}

#[test]
fn cbor_wire_form() {
    let value = Value::Mapping(vec![
        (Value::Integer(1), Value::Integer(-25)),
        (Value::Text("up".into()), Value::Bool(false)),
        (Value::Null, Value::Tag(24, Box::new(Value::Bytes(vec![9])))),
        (Value::Integer(500), Value::Array(vec![Value::Bool(true)])),
    ]);
    let bytes = cbor::encode(&value).unwrap();
    assert_eq!(
        bytes,
        [
            0xA4, 0x01, 0x38, 0x18, 0x62, 0x75, 0x70, 0xF4, 0xF6, 0xD8, 0x18, 0x41, 0x09, 0x19,
            0x01, 0xF4, 0x81, 0xF5
        ]
    );
    assert_eq!(cbor::decode(&bytes).unwrap(), value);
}

#[test]
fn cbor_integers_at_the_edges() {
    let max: i128 = (1 << 64) - 1;
    let min: i128 = -(1 << 64);
    for i in [max, min, 0, -1, i64::MAX as i128, i64::MIN as i128] {
        let bytes = cbor::encode(&Value::Integer(i)).unwrap();
        assert_eq!(cbor::decode(&bytes).unwrap(), Value::Integer(i));
    }
    assert!(matches!(cbor::encode(&Value::Integer(max + 1)), Err(Error::Cbor(_))));
    assert!(matches!(cbor::encode(&Value::Integer(min - 1)), Err(Error::Cbor(_))));
    let nested = Value::Array(vec![Value::Mapping(vec![(
        Value::Null,
        Value::Tag(1, Box::new(Value::Integer(max + 1))),
    )])]);
    assert!(matches!(cbor::encode(&nested), Err(Error::Cbor(_))));
}

#[test]
fn cbor_floats_by_their_bits() {
    let value = Value::Float(1.5_f64.to_bits());
    let bytes = cbor::encode(&value).unwrap();
    assert_eq!(bytes, [0xF9, 0x3E, 0x00]);
    assert_eq!(cbor::decode(&bytes).unwrap(), value);
    let tenth = Value::Float(0.1_f64.to_bits());
    let bytes = cbor::encode(&tenth).unwrap();
    assert_eq!(bytes.len(), 9);
    assert_eq!(cbor::decode(&bytes).unwrap(), tenth);
}

#[test]
fn cbor_nan_reads_back_as_nan() {
    for bits in [
        0x7FF8_0000_0000_0000_u64,
        0xFFF8_0000_0000_0000,
        0x7FF8_0000_2000_0000,
        0x7FF8_0000_0000_0001,
        0x7FF0_0000_0000_0001,
        0xFFFF_FFFF_FFFF_FFFF,
    ] {
        let value = Value::Array(vec![Value::Float(bits), Value::Integer(7)]);
        let bytes = cbor::encode(&value).unwrap();
        match cbor::decode(&bytes).unwrap() {
            Value::Array(items) => {
                assert_eq!(items.len(), 2);
                match items[0] {
                    Value::Float(read) => assert!(f64::from_bits(read).is_nan()),
                    _ => panic!("no float"),
                }
                assert_eq!(items[1], Value::Integer(7));
            }
            _ => panic!("no array"),
        }
    }
}

#[test]
fn cbor_integers_out_of_range_are_refused() {
    for i in [1_i128 << 64, -(1_i128 << 64) - 1] {
        let value = Value::Mapping(vec![(Value::Null, Value::Integer(i))]);
        match cbor::encode(&value) {
            Err(Error::Cbor(message)) => assert_eq!(message, "integer out of CBOR range"),
            _ => panic!("integer accepted"),
        }
    }
}

#[test]
fn cbor_trailing_bytes_are_counted() {
    match cbor::decode(&[0x01, 0x02, 0x03]) {
        Err(Error::Cbor(message)) => assert_eq!(
            message,
            "trailing bytes after CBOR value (1/3 consumed)"
        ),
        _ => panic!("trailing bytes accepted"),
    }
    let mut long = cbor::encode(&Value::Bytes(vec![0; 1234])).unwrap();
    long.push(0);
    match cbor::decode(&long) {
        Err(Error::Cbor(message)) => assert_eq!(
            message,
            "trailing bytes after CBOR value (1237/1238 consumed)"
        ),
        _ => panic!("trailing bytes accepted"),
    }
    assert!(matches!(cbor::decode(&[]), Err(Error::Cbor(_))));
    assert!(matches!(cbor::decode(&[0x18]), Err(Error::Cbor(_))));
}

#[test]
fn cbor_leading_item_goes_by_its_own_bytes() {
    let item = cbor::encode(&Value::Text("credBlob".into())).unwrap();
    for tail in [vec![], vec![0xFF], vec![0x01, 0x02]] {
        let mut bytes = item.clone();
        bytes.extend_from_slice(&tail);
        let (value, used) = cbor::decode_leading(&bytes).unwrap();
        assert_eq!(value, Value::Text("credBlob".into()));
        assert_eq!(used, item.len());
    }
}

#[test]
fn cbor_nesting_is_limited() {
    let nest = |depth: usize| {
        let mut value = Value::Null;
        for _ in 0..depth {
            value = Value::Array(vec![value]);
        }
        value
    };
    let bytes = cbor::encode(&nest(256)).unwrap();
    assert!(cbor::decode(&bytes).is_ok());
    let bytes = cbor::encode(&nest(257)).unwrap();
    assert!(matches!(cbor::decode(&bytes), Err(Error::Cbor(_))));
}

#[test]
fn cbor_first_of_repeated_keys_wins() {
    let map = Value::Mapping(vec![
        (Value::Integer(1), Value::Integer(10)),
        (Value::Integer(2), Value::Integer(20)),
        (Value::Integer(1), Value::Integer(11)),
    ]);
    assert_eq!(cbor::get_integer(&map, 1), Some(10));
    assert_eq!(cbor::get_integer(&map, 2), Some(20));
    assert!(cbor::get_bytes(&map, 2).is_none());
    assert!(cbor::get_int_field(&Value::Null, 1).is_none());
}

#[test]
fn cbor_take_leaves_the_other_fields() {
    let mut entries = vec![
        (Value::Integer(1), Value::Text("one".into())),
        (Value::Text("name".into()), Value::Bool(true)),
        (Value::Integer(3), Value::Null),
        (Value::Integer(4), Value::Integer(44)),
    ];
    assert_eq!(
        cbor::take_int_field(&mut entries, 1),
        Some(Value::Text("one".into()))
    );
    assert_eq!(entries.len(), 3);
    assert_eq!(entries[0], (Value::Integer(4), Value::Integer(44)));
    assert_eq!(cbor::take_int_field(&mut entries, 1), None);
    assert_eq!(cbor::take_text_field(&mut entries, "name"), Some(Value::Bool(true)));
    assert_eq!(cbor::take_text_field(&mut entries, "name"), None);
    assert_eq!(cbor::take_int_field(&mut entries, 4), Some(Value::Integer(44)));
    assert_eq!(cbor::take_int_field(&mut entries, 3), Some(Value::Null));
    assert!(entries.is_empty());
}

#[test]
fn cbor_accessors() {
    assert_eq!(Value::Bool(true).as_bool(), Some(true));
    assert_eq!(Value::Null.as_bool(), None);
    assert_eq!(Value::Bytes(vec![1]).as_integer(), None);
    assert_eq!(Value::Text("t".into()).as_bytes(), None);
    assert_eq!(
        cbor::require_bytes(&Value::Bytes(vec![1, 2]), "label").unwrap(),
        [1, 2]
    );
}

#[test]
fn cbor_require_all() {
    assert_eq!(cbor::require_all(Value::Null, 4, 4).unwrap(), Value::Null);
    match cbor::require_all(Value::Null, 0, 10) {
        Err(Error::Cbor(message)) => assert_eq!(
            message,
            "trailing bytes after CBOR value (0/10 consumed)"
        ),
        _ => panic!("trailing bytes accepted"),
    }
}
