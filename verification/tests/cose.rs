//! COSE parsing and signature verification.

use ctap_fido2::cbor::Value;
use ctap_fido2::error::Error;
use ctap_fido2::{cbor, cose, CredentialPublicKey};
use ed25519_dalek::Signer as _;
use p256::ecdsa::{Signature as P256Signature, SigningKey as P256SigningKey};

fn build_cose_es256(x: [u8; 32], y: [u8; 32]) -> Vec<u8> {
    let map = Value::Mapping(vec![
        (Value::Integer(1), Value::Integer(2)),
        (Value::Integer(3), Value::Integer(-7)),
        (Value::Integer(-1), Value::Integer(1)),
        (Value::Integer(-2), Value::Bytes(x.to_vec())),
        (Value::Integer(-3), Value::Bytes(y.to_vec())),
    ]);
    cbor::encode(&map).unwrap()
}

fn build_cose_eddsa(x: [u8; 32]) -> Vec<u8> {
    let map = Value::Mapping(vec![
        (Value::Integer(1), Value::Integer(1)),
        (Value::Integer(3), Value::Integer(-8)),
        (Value::Integer(-1), Value::Integer(6)),
        (Value::Integer(-2), Value::Bytes(x.to_vec())),
    ]);
    cbor::encode(&map).unwrap()
}

fn fresh_es256() -> (P256SigningKey, [u8; 32], [u8; 32]) {
    let mut seed = [0_u8; 32];
    seed[31] = 1;
    let key = P256SigningKey::from_bytes(seed.as_slice().into()).unwrap();
    let point = key.verifying_key().to_encoded_point(false);
    let mut x = [0_u8; 32];
    let mut y = [0_u8; 32];
    x.copy_from_slice(point.x().unwrap());
    y.copy_from_slice(point.y().unwrap());
    (key, x, y)
}

fn fresh_eddsa() -> (ed25519_dalek::SigningKey, [u8; 32]) {
    let mut seed = [0_u8; 32];
    seed[0] = 9;
    let key = ed25519_dalek::SigningKey::from_bytes(&seed);
    let verifying = key.verifying_key();
    (key, verifying.to_bytes())
}

#[test]
fn es256_parse_accepts_valid_key() {
    let (_, x, y) = fresh_es256();
    CredentialPublicKey::from_cose_bytes(build_cose_es256(x, y)).unwrap();
}

#[test]
fn eddsa_parse_accepts_valid_key() {
    let (_, x) = fresh_eddsa();
    CredentialPublicKey::from_cose_bytes(build_cose_eddsa(x)).unwrap();
}

#[test]
fn rejects_wrong_kty_for_es256() {
    let (_, x, y) = fresh_es256();
    let map = Value::Mapping(vec![
        (Value::Integer(1), Value::Integer(1)),
        (Value::Integer(3), Value::Integer(-7)),
        (Value::Integer(-1), Value::Integer(1)),
        (Value::Integer(-2), Value::Bytes(x.to_vec())),
        (Value::Integer(-3), Value::Bytes(y.to_vec())),
    ]);
    CredentialPublicKey::from_cose_bytes(cbor::encode(&map).unwrap()).unwrap_err();
}

#[test]
fn rejects_unknown_algorithm() {
    let map = Value::Mapping(vec![
        (Value::Integer(1), Value::Integer(2)),
        (Value::Integer(3), Value::Integer(-257)),
        (Value::Integer(-1), Value::Integer(1)),
        (Value::Integer(-2), Value::Bytes(vec![0_u8; 32])),
        (Value::Integer(-3), Value::Bytes(vec![0_u8; 32])),
    ]);
    CredentialPublicKey::from_cose_bytes(cbor::encode(&map).unwrap()).unwrap_err();
}

#[test]
fn rejects_truncated_es256_coords() {
    let map = Value::Mapping(vec![
        (Value::Integer(1), Value::Integer(2)),
        (Value::Integer(3), Value::Integer(-7)),
        (Value::Integer(-1), Value::Integer(1)),
        (Value::Integer(-2), Value::Bytes(vec![0_u8; 16])),
        (Value::Integer(-3), Value::Bytes(vec![0_u8; 32])),
    ]);
    CredentialPublicKey::from_cose_bytes(cbor::encode(&map).unwrap()).unwrap_err();
}

#[test]
fn rejects_garbage_cbor() {
    CredentialPublicKey::from_cose_bytes(vec![0xFF, 0xFF, 0xFF]).unwrap_err();
}

#[test]
fn es256_verify_round_trip() {
    let (signing_key, x, y) = fresh_es256();
    let pubkey = CredentialPublicKey::from_cose_bytes(build_cose_es256(x, y)).unwrap();
    let message = b"hello, ctap2";
    let sig: P256Signature = signing_key.sign(message);
    pubkey.verify(message, sig.to_der().as_bytes()).unwrap();
}

#[test]
fn es256_verify_rejects_wrong_message() {
    let (signing_key, x, y) = fresh_es256();
    let pubkey = CredentialPublicKey::from_cose_bytes(build_cose_es256(x, y)).unwrap();
    let sig: P256Signature = signing_key.sign(b"original");
    pubkey
        .verify(b"tampered", sig.to_der().as_bytes())
        .unwrap_err();
}

#[test]
fn es256_verify_rejects_non_der_signature() {
    let (_, x, y) = fresh_es256();
    let pubkey = CredentialPublicKey::from_cose_bytes(build_cose_es256(x, y)).unwrap();
    // Raw r||s without ASN.1 wrapping should be rejected outright.
    pubkey.verify(b"any", &[0xAB_u8; 64]).unwrap_err();
}

#[test]
fn eddsa_verify_round_trip() {
    let (signing_key, x) = fresh_eddsa();
    let pubkey = CredentialPublicKey::from_cose_bytes(build_cose_eddsa(x)).unwrap();
    let message = b"hello, ed25519";
    let sig = signing_key.sign(message);
    pubkey.verify(message, &sig.to_bytes()).unwrap();
}

#[test]
fn eddsa_verify_rejects_wrong_length() {
    let (_, x) = fresh_eddsa();
    let pubkey = CredentialPublicKey::from_cose_bytes(build_cose_eddsa(x)).unwrap();
    pubkey.verify(b"any", &[0_u8; 63]).unwrap_err();
}

#[test]
fn eddsa_verify_rejects_tampered_signature() {
    let (signing_key, x) = fresh_eddsa();
    let pubkey = CredentialPublicKey::from_cose_bytes(build_cose_eddsa(x)).unwrap();
    let mut sig = signing_key.sign(b"original").to_bytes();
    sig[0] ^= 0x01;
    pubkey.verify(b"original", &sig).unwrap_err();
}

fn pin_message<T>(r: Result<T, Error>) -> &'static str {
    match r {
        Err(Error::Pin(message)) => message,
        Err(_) => "another error",
        Ok(_) => "no error",
    }
}

fn load(entries: Vec<(Value, Value)>) -> Result<CredentialPublicKey, Error> {
    CredentialPublicKey::from_cose_bytes(cbor::encode(&Value::Mapping(entries)).unwrap())
}

#[test]
fn each_missing_or_wrong_field_is_named() {
    let x = || (Value::Integer(-2), Value::Bytes(vec![1; 32]));
    let y = || (Value::Integer(-3), Value::Bytes(vec![2; 32]));
    let int = |k: i128, v: i128| (Value::Integer(k), Value::Integer(v));

    assert_eq!(pin_message(load(vec![])), "COSE key missing alg");
    assert_eq!(
        pin_message(load(vec![(Value::Integer(3), Value::Null)])),
        "COSE key missing alg"
    );
    assert_eq!(pin_message(load(vec![int(3, -257)])), "unsupported COSE algorithm");

    assert_eq!(pin_message(load(vec![int(3, -7)])), "COSE key missing kty");
    assert_eq!(
        pin_message(load(vec![int(3, -7), int(1, 1)])),
        "ES256 COSE key kty is not EC2"
    );
    assert_eq!(pin_message(load(vec![int(3, -7), int(1, 2)])), "COSE key missing crv");
    assert_eq!(
        pin_message(load(vec![int(3, -7), int(1, 2), int(-1, 6)])),
        "ES256 COSE key crv is not P-256"
    );
    assert_eq!(pin_message(load(vec![int(3, -7), int(1, 2), int(-1, 1)])), "x");
    assert_eq!(pin_message(load(vec![int(3, -7), int(1, 2), int(-1, 1), x()])), "y");
    assert!(load(vec![int(3, -7), int(1, 2), int(-1, 1), x(), y()]).is_ok());

    assert_eq!(pin_message(load(vec![int(3, -8)])), "COSE key missing kty");
    assert_eq!(
        pin_message(load(vec![int(3, -8), int(1, 2)])),
        "EdDSA COSE key kty is not OKP"
    );
    assert_eq!(pin_message(load(vec![int(3, -8), int(1, 1)])), "COSE key missing crv");
    assert_eq!(
        pin_message(load(vec![int(3, -8), int(1, 1), int(-1, 1)])),
        "EdDSA COSE key crv is not Ed25519"
    );
    assert_eq!(pin_message(load(vec![int(3, -8), int(1, 1), int(-1, 6)])), "x");
    assert!(load(vec![int(3, -8), int(1, 1), int(-1, 6), x()]).is_ok());
}

#[test]
fn each_verification_failure_is_named() {
    let (signing_key, x, y) = fresh_es256();
    let key = CredentialPublicKey::from_cose_bytes(build_cose_es256(x, y)).unwrap();
    let sig: P256Signature = signing_key.sign(b"original");
    let der = sig.to_der();
    assert_eq!(
        pin_message(key.verify(b"tampered", der.as_bytes())),
        "ES256 signature verification failed"
    );
    assert_eq!(
        pin_message(key.verify(b"original", &[0xAB_u8; 64])),
        "ES256 signature is not valid DER"
    );
    let off = CredentialPublicKey::from_cose_bytes(build_cose_es256([1; 32], [1; 32])).unwrap();
    assert_eq!(
        pin_message(off.verify(b"original", der.as_bytes())),
        "ES256 pubkey not on curve"
    );

    let (signing_key, x) = fresh_eddsa();
    let key = CredentialPublicKey::from_cose_bytes(build_cose_eddsa(x)).unwrap();
    let sig = signing_key.sign(b"original").to_bytes();
    assert_eq!(
        pin_message(key.verify(b"tampered", &sig)),
        "Ed25519 signature verification failed"
    );
    assert_eq!(
        pin_message(key.verify(b"original", &sig[..63])),
        "Ed25519 signature is not 64 bytes"
    );
    // y = 2 is not the y-coordinate of a curve point.
    let mut bad = [0_u8; 32];
    bad[0] = 2;
    let bad = CredentialPublicKey::from_cose_bytes(build_cose_eddsa(bad)).unwrap();
    assert_eq!(
        pin_message(bad.verify(b"original", &[0; 63])),
        "Ed25519 pubkey is not a valid compressed point"
    );
}

#[test]
fn stored_bytes_restore_the_key() {
    let (_, x, y) = fresh_es256();
    let bytes = build_cose_es256(x, y);
    let key = CredentialPublicKey::from_cose_bytes(bytes.clone()).unwrap();
    assert_eq!(key.as_cose_bytes(), bytes.as_slice());
    let again = CredentialPublicKey::from_cose_bytes(key.as_cose_bytes().to_vec()).unwrap();
    assert_eq!(key, again);
    assert_eq!(key.clone(), key);
}

fn cbor_message<T>(r: Result<T, Error>) -> String {
    match r {
        Err(Error::Cbor(message)) => message,
        _ => panic!("no CBOR error"),
    }
}

#[test]
fn key_with_trailing_bytes_is_refused() {
    let (_, x) = fresh_eddsa();
    let mut bytes = build_cose_eddsa(x);
    let len = bytes.len();
    bytes.push(0x00);
    assert_eq!(
        cbor_message(CredentialPublicKey::from_cose_bytes(bytes)),
        format!(
            "trailing bytes after CBOR value ({}/{} consumed)",
            len,
            len + 1
        )
    );
}

#[test]
fn authdata_key_ends_where_its_item_ends() {
    let (_, x) = fresh_eddsa();
    let key = build_cose_eddsa(x);
    let mut auth_data = vec![7_u8; 10];
    auth_data.extend_from_slice(&key);
    auth_data.extend_from_slice(&[0xA0, 0xFF]);
    let (parsed, end) = cose::parse_authdata_pubkey(&auth_data, 10).unwrap();
    assert_eq!(parsed.as_cose_bytes(), key.as_slice());
    assert_eq!(end, 10 + key.len());

    // Behind the end the reader finds as little as at the end, and says so itself.
    let at_end = cbor_message(cose::parse_authdata_pubkey(&auth_data, auth_data.len()));
    assert_eq!(at_end, cbor_message(cbor::decode(&[])));
    for offset in [auth_data.len() + 1, usize::MAX] {
        assert_eq!(
            cbor_message(cose::parse_authdata_pubkey(&auth_data, offset)),
            at_end
        );
    }
    assert_eq!(
        pin_message(cose::parse_authdata_pubkey(&auth_data, 10 + key.len())),
        "COSE key missing alg"
    );
}

#[test]
fn decoded_keys_verify_too() {
    let (signing_key, x) = fresh_eddsa();
    let key = cbor::decode(&build_cose_eddsa(x)).unwrap();
    cose::validate(&key).unwrap();
    let sig = signing_key.sign(b"message").to_bytes();
    cose::verify_with(&key, b"message", &sig).unwrap();
    cose::verify_with(&key, b"another", &sig).unwrap_err();
    assert_eq!(pin_message(cose::validate(&Value::Null)), "COSE key missing alg");
}
