//! PIN protocol v1, against a device that is played by the test.

use ctap_fido2::cbor;
use ctap_fido2::cbor::Value;
use ctap_fido2::cmd::Turn;
use ctap_fido2::error::Error;
use ctap_fido2::pin;
use ctap_fido2::pin::{cbc, KeyAgreement, PinExchange, PinSession};

fn secret(last: u8) -> [u8; 32] {
    let mut bytes = [0_u8; 32];
    bytes[31] = last;
    bytes
}

fn agreement(last: u8) -> KeyAgreement {
    KeyAgreement::from_secret(secret(last)).unwrap()
}

fn key_response(last: u8) -> Vec<u8> {
    let (x, y) = agreement(last).public_key();
    let map = Value::Mapping(vec![(
        Value::Integer(1),
        pin::encode_platform_cose_pubkey(&x, &y),
    )]);
    cbor::encode(&map).unwrap()
}

fn sessions() -> (PinSession, PinSession) {
    let platform = PinSession::establish(agreement(1), &key_response(2)).unwrap();
    let device = PinSession::establish(agreement(2), &key_response(1)).unwrap();
    (platform, device)
}

fn token_response(sealed: Vec<u8>) -> Vec<u8> {
    cbor::encode(&Value::Mapping(vec![(
        Value::Integer(2),
        Value::Bytes(sealed),
    )]))
    .unwrap()
}

fn pin_message<T>(r: Result<T, Error>) -> &'static str {
    match r {
        Err(Error::Pin(message)) => message,
        _ => "another outcome",
    }
}

#[test]
fn generator_point() {
    let (x, y) = agreement(1).public_key();
    assert_eq!(x[..4], [0x6B, 0x17, 0xD1, 0xF2]);
    assert_eq!(x[28..], [0xD8, 0x98, 0xC2, 0x96]);
    assert_eq!(y[..4], [0x4F, 0xE3, 0x42, 0xE2]);
    assert_eq!(y[28..], [0x37, 0xBF, 0x51, 0xF5]);
}

#[test]
fn not_every_secret_is_one() {
    assert!(KeyAgreement::from_secret([0; 32]).is_none());
    assert!(KeyAgreement::from_secret([0xFF; 32]).is_none());
}

#[test]
fn generated_secrets_differ() {
    assert_ne!(
        KeyAgreement::generate().public_key(),
        KeyAgreement::generate().public_key()
    );
}

#[test]
fn both_sides_agree() {
    let (platform, device) = sessions();
    assert_eq!(platform.shared_secret(), device.shared_secret());

    let (x, y) = agreement(2).public_key();
    let point = p256::EncodedPoint::from_affine_coordinates(&x.into(), &y.into(), false);
    let other: Option<p256::PublicKey> =
        p256::elliptic_curve::sec1::FromEncodedPoint::from_encoded_point(&point).into();
    let key = p256::SecretKey::from_bytes(&secret(1).into()).unwrap();
    let shared = p256::ecdh::diffie_hellman(key.to_nonzero_scalar(), other.unwrap().as_affine());
    assert_eq!(
        *platform.shared_secret(),
        hmac_sha256::Hash::hash(shared.raw_secret_bytes())
    );
}

#[test]
fn platform_key_is_read_back() {
    let (platform, _) = sessions();
    let key = platform.platform_cose_pubkey().unwrap();
    let (x, y) = pin::parse_cose_p256_pubkey(&key).unwrap();
    assert_eq!((x, y), agreement(1).public_key());
    assert_eq!(cbor::get_integer(&key, 1), Some(2));
    assert_eq!(cbor::get_integer(&key, 3), Some(-25));
    assert_eq!(cbor::get_integer(&key, -1), Some(1));
}

#[test]
fn agreement_key_failures_are_named() {
    let (x, y) = agreement(2).public_key();
    let int = |k: i128, v: i128| (Value::Integer(k), Value::Integer(v));
    let bytes = |k: i128, v: &[u8]| (Value::Integer(k), Value::Bytes(v.to_vec()));
    let parse = |entries: Vec<(Value, Value)>| {
        pin_message(pin::parse_cose_p256_pubkey(&Value::Mapping(entries)))
    };
    assert_eq!(parse(vec![]), "COSE key missing kty");
    assert_eq!(parse(vec![int(1, 1)]), "COSE key kty is not EC2");
    assert_eq!(parse(vec![int(1, 2)]), "COSE key missing alg");
    assert_eq!(
        parse(vec![int(1, 2), int(3, -7)]),
        "COSE key alg is not ECDH-ES+HKDF-256"
    );
    assert_eq!(parse(vec![int(1, 2), int(3, -25)]), "COSE key missing crv");
    assert_eq!(
        parse(vec![int(1, 2), int(3, -25), int(-1, 2)]),
        "COSE key crv is not P-256"
    );
    let head = || vec![int(1, 2), int(3, -25), int(-1, 1)];
    assert_eq!(parse(head()), "COSE key missing x coordinate");
    let with = |more: Vec<(Value, Value)>| {
        let mut entries = head();
        entries.extend(more);
        entries
    };
    assert_eq!(parse(with(vec![bytes(-2, &x)])), "COSE key missing y coordinate");
    assert_eq!(
        parse(with(vec![bytes(-2, &x), bytes(-3, &y[..31])])),
        "COSE key coordinates wrong length"
    );
    assert_eq!(
        parse(with(vec![bytes(-2, &x), bytes(-3, &x)])),
        "authenticator pubkey is not on curve"
    );
    assert_eq!(
        pin::parse_cose_p256_pubkey(&Value::Mapping(with(vec![bytes(-2, &x), bytes(-3, &y)])))
            .unwrap(),
        (x, y)
    );
}

#[test]
fn establish_failures() {
    assert!(matches!(
        PinSession::establish(agreement(1), &[0xFF]),
        Err(Error::Cbor(_))
    ));
    assert_eq!(
        pin_message(PinSession::establish(agreement(1), &[0xA0])),
        "getKeyAgreement response missing key agreement field"
    );
    // {1: {}}
    assert_eq!(
        pin_message(PinSession::establish(agreement(1), &[0xA1, 0x01, 0xA0])),
        "COSE key missing kty"
    );
}

#[test]
fn subcommand_payloads() {
    assert_eq!(
        pin::pin_retries_request().unwrap(),
        [0x06, 0xA2, 0x01, 0x01, 0x02, 0x01]
    );
    assert_eq!(
        agreement(1).request().unwrap(),
        [0x06, 0xA2, 0x01, 0x01, 0x02, 0x02]
    );
}

#[test]
fn retries() {
    assert_eq!(pin::get_pin_retries(&[0xA1, 0x03, 0x08]).unwrap(), 8);
    assert_eq!(
        pin_message(pin::get_pin_retries(&[0xA1, 0x03, 0x19, 0x01, 0x00])),
        "getPinRetries value out of u8 range"
    );
    assert_eq!(
        pin_message(pin::get_pin_retries(&[0xA1, 0x03, 0x20])),
        "getPinRetries value out of u8 range"
    );
    assert_eq!(
        pin_message(pin::get_pin_retries(&[0xA0])),
        "getPinRetries response missing pinRetries"
    );
    assert!(matches!(pin::get_pin_retries(&[]), Err(Error::Cbor(_))));
}

#[test]
fn pin_travels_as_half_its_digest() {
    let (platform, device) = sessions();
    let payload = platform.pin_token_request("1234").unwrap();
    assert_eq!(payload[0], pin::CLIENT_PIN_COMMAND);
    let map = cbor::decode(&payload[1..]).unwrap();
    assert_eq!(cbor::get_integer(&map, 1), Some(1));
    assert_eq!(cbor::get_integer(&map, 2), Some(5));
    let key = cbor::get_int_field(&map, 3).unwrap();
    assert_eq!(
        pin::parse_cose_p256_pubkey(key).unwrap(),
        agreement(1).public_key()
    );
    let sealed = cbor::get_bytes(&map, 6).unwrap();
    assert_eq!(
        device.aes_cbc_decrypt(sealed).unwrap(),
        [
            0x03, 0xAC, 0x67, 0x42, 0x16, 0xF3, 0xE1, 0x5C, 0x76, 0x1E, 0xE1, 0xA5, 0xE2, 0x55,
            0xF0, 0x67
        ]
    );
}

#[test]
fn token_is_what_the_device_sealed() {
    let (platform, device) = sessions();
    for len in [16, 32, 48] {
        let token = vec![0x5A_u8; len];
        let sealed = device.aes_cbc_encrypt(&token).unwrap();
        let read = platform.get_pin_token(&token_response(sealed)).unwrap();
        assert_eq!(
            read.auth_param(b"message"),
            hmac_sha256::HMAC::mac(b"message", &token)[..16]
        );
    }
}

#[test]
fn token_lengths() {
    let (platform, _) = sessions();
    for len in [0, 8, 24, 64] {
        assert_eq!(
            pin_message(platform.get_pin_token(&token_response(vec![0; len]))),
            "encrypted pinUvAuthToken length must be 16, 32, or 48 bytes"
        );
    }
    assert_eq!(
        pin_message(platform.get_pin_token(&[0xA0])),
        "getPinToken response missing token"
    );
    assert!(matches!(platform.get_pin_token(&[]), Err(Error::Cbor(_))));
}

#[test]
fn cbc_known_block() {
    let mut key = [0_u8; 32];
    for (i, byte) in key.iter_mut().enumerate() {
        *byte = i as u8;
    }
    let plaintext = [
        0x00, 0x11, 0x22, 0x33, 0x44, 0x55, 0x66, 0x77, 0x88, 0x99, 0xAA, 0xBB, 0xCC, 0xDD, 0xEE,
        0xFF,
    ];
    let ciphertext = [
        0x8E, 0xA2, 0xB7, 0xCA, 0x51, 0x67, 0x45, 0xBF, 0xEA, 0xFC, 0x49, 0x90, 0x4B, 0x49, 0x60,
        0x89,
    ];
    assert_eq!(cbc::aes256_cbc_encrypt(&key, &plaintext), ciphertext);
    assert_eq!(cbc::aes256_cbc_decrypt(&key, &ciphertext), plaintext);
}

#[test]
fn cbc_chains_and_round_trips() {
    let (platform, device) = sessions();
    let plaintext = [7_u8; 64];
    let ciphertext = platform.aes_cbc_encrypt(&plaintext).unwrap();
    assert_eq!(ciphertext.len(), 64);
    assert_ne!(ciphertext[..16], ciphertext[16..32]);
    assert_eq!(device.aes_cbc_decrypt(&ciphertext).unwrap(), plaintext);
    let opened = platform.aes_cbc_decrypt(&plaintext).unwrap();
    assert_eq!(platform.aes_cbc_encrypt(&opened).unwrap(), plaintext);
}

#[test]
fn cbc_lengths() {
    let (platform, _) = sessions();
    for len in [0, 15, 17] {
        assert_eq!(
            pin_message(platform.aes_cbc_encrypt(&vec![0; len])),
            "AES-CBC plaintext must be a non-empty multiple of 16"
        );
        assert_eq!(
            pin_message(platform.aes_cbc_decrypt(&vec![0; len])),
            "AES-CBC ciphertext must be a non-empty multiple of 16"
        );
    }
}

#[test]
fn truncated_mac() {
    assert_eq!(
        pin::hmac_truncated(&[0; 32], b""),
        [
            0xB6, 0x13, 0x67, 0x9A, 0x08, 0x14, 0xD9, 0xEC, 0x77, 0x2F, 0x95, 0xD7, 0x78, 0xC3,
            0x5F, 0xC5
        ]
    );
}

#[test]
fn exchange_with_and_without_a_pin() {
    let (_, device) = sessions();
    let start = |last: u8| match PinExchange::start(agreement(last)) {
        Turn::Send(payload, exchange) => {
            assert_eq!(payload, [0x06, 0xA2, 0x01, 0x01, 0x02, 0x02]);
            exchange
        }
        Turn::Done(_) => panic!("no request"),
    };
    match start(1).resume(None, &key_response(2)) {
        Turn::Done(Ok((session, None))) => {
            assert_eq!(session.shared_secret(), device.shared_secret());
        }
        _ => panic!("no session"),
    }
    let exchange = match start(1).resume(Some("1234"), &key_response(2)) {
        Turn::Send(payload, exchange) => {
            let (platform, _) = sessions();
            assert_eq!(payload, platform.pin_token_request("1234").unwrap());
            exchange
        }
        Turn::Done(_) => panic!("no token request"),
    };
    let sealed = device.aes_cbc_encrypt(&[3; 32]).unwrap();
    match exchange.resume(Some("1234"), &token_response(sealed)) {
        Turn::Done(Ok((session, Some(token)))) => {
            assert_eq!(session.shared_secret(), device.shared_secret());
            assert_eq!(
                token.auth_param(b"m"),
                hmac_sha256::HMAC::mac(b"m", [3_u8; 32])[..16]
            );
        }
        _ => panic!("no token"),
    }
    assert!(matches!(
        start(1).resume(Some("1234"), &[0xA0]),
        Turn::Done(Err(Error::Pin(_)))
    ));
}

#[test]
fn decoded_responses() {
    let map = |key: i128, value: Value| Value::Mapping(vec![(Value::Integer(key), value)]);
    assert_eq!(pin::parse_pin_retries(&map(3, Value::Integer(255))).unwrap(), 255);
    assert_eq!(
        pin_message(pin::parse_pin_retries(&map(3, Value::Null))),
        "getPinRetries response missing pinRetries"
    );
    assert_eq!(*pin::key_field(&map(1, Value::Null)).unwrap(), Value::Null);
    assert_eq!(
        pin_message(pin::key_field(&map(2, Value::Null))),
        "getKeyAgreement response missing key agreement field"
    );
    assert_eq!(pin::sealed_token(&map(2, Value::Bytes(vec![1; 48]))).unwrap(), [1; 48]);
    assert_eq!(
        pin_message(pin::sealed_token(&map(2, Value::Integer(1)))),
        "getPinToken response missing token"
    );
    // Coordinates are read before anyone asks whether they are on the curve.
    let key = pin::encode_platform_cose_pubkey(&[1; 32], &[2; 32]);
    assert_eq!(pin::parse_coordinates(&key).unwrap(), ([1; 32], [2; 32]));
    assert_eq!(
        pin_message(pin::parse_cose_p256_pubkey(&key)),
        "authenticator pubkey is not on curve"
    );
}
