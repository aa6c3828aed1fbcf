//! The CTAP2 commands, against a device that is played by the test.

use ctap_fido2::cbor;
use ctap_fido2::cbor::Value;
use ctap_fido2::cmd::get_assertion;
use ctap_fido2::cmd::get_assertion::{
    AssertionCall, AssertionRequest, HmacSecretCall, HmacSecretRequest, HmacSecretResponse,
};
use ctap_fido2::cmd::get_info;
use ctap_fido2::cmd::get_next_assertion;
use ctap_fido2::cmd::make_credential;
use ctap_fido2::cmd::make_credential::{CredProtect, CredentialCall, Registration};
use ctap_fido2::cmd::reset;
use ctap_fido2::cmd::{Algorithm, MakeCredentialOptions, Turn};
use ctap_fido2::error::{CtapStatus, Error};
use ctap_fido2::pin;
use ctap_fido2::pin::{KeyAgreement, PinSession};
use ctap_fido2::CredentialPublicKey;
use ed25519_dalek::Signer as _;

fn text(value: &str) -> Value {
    Value::Text(value.to_string())
}

fn mapping(entries: Vec<(Value, Value)>) -> Vec<u8> {
    cbor::encode(&Value::Mapping(entries)).unwrap()
}

fn agreement(last: u8) -> KeyAgreement {
    let mut bytes = [0_u8; 32];
    bytes[31] = last;
    KeyAgreement::from_secret(bytes).unwrap()
}

fn key_response(last: u8) -> Vec<u8> {
    let (x, y) = agreement(last).public_key();
    mapping(vec![(
        Value::Integer(1),
        pin::encode_platform_cose_pubkey(&x, &y),
    )])
}

fn device_session() -> PinSession {
    PinSession::establish(agreement(2), &key_response(1)).unwrap()
}

fn token_response(token: &[u8]) -> Vec<u8> {
    let sealed = device_session().aes_cbc_encrypt(token).unwrap();
    mapping(vec![(Value::Integer(2), Value::Bytes(sealed))])
}

fn parse_message<T>(r: Result<T, Error>) -> &'static str {
    match r {
        Err(Error::Parse(message)) => message,
        Err(Error::Pin(message)) => message,
        Err(Error::MissingExtension(name)) => name,
        Err(Error::Cbor(_)) => "cbor",
        _ => "another outcome",
    }
}

/// Verify our parser silently ignores unknown fields rather than erroring on "unknown info".
#[test]
fn parse_tolerates_unknown_fields() {
    let map = Value::Mapping(vec![
        (
            Value::Integer(0x01),
            Value::Array(vec![text("U2F_V2"), text("FIDO_2_0"), text("FIDO_2_1")]),
        ),
        (
            Value::Integer(0x02),
            Value::Array(vec![
                text("credProtect"),
                text("hmac-secret"),
                text("thirdPartyPayment"),
            ]),
        ),
        (Value::Integer(0x03), Value::Bytes(vec![0xEC; 16])),
        (
            Value::Integer(0x04),
            Value::Mapping(vec![
                (text("rk"), Value::Bool(true)),
                (text("up"), Value::Bool(true)),
                (text("clientPin"), Value::Bool(true)),
                (text("credMgmt"), Value::Bool(true)),
            ]),
        ),
        (Value::Integer(0x05), Value::Integer(3072)),
        (
            Value::Integer(0x06),
            Value::Array(vec![Value::Integer(2), Value::Integer(1)]),
        ),
        // CTAP 2.2 field `attestationFormats` at key 0x16 .
        (
            Value::Integer(0x16),
            Value::Array(vec![text("packed"), text("none")]),
        ),
        // A key the crate has no knowledge of.
        (Value::Integer(0xFF), text("future")),
    ]);

    let info = get_info::parse(&map);

    assert_eq!(info.versions, ["U2F_V2", "FIDO_2_0", "FIDO_2_1"]);
    assert_eq!(
        info.extensions,
        ["credProtect", "hmac-secret", "thirdPartyPayment"]
    );
    assert_eq!(info.aaguid, [0xEC; 16]);
    assert_eq!(info.option("credMgmt"), Some(true));
    assert_eq!(info.max_msg_size, Some(3072));
    assert_eq!(info.pin_protocols, [2, 1]);
    assert!(info.supports_pin_protocol_v1());
    assert!(info.supports_pin_protocol_v2());
    assert!(info.client_pin_set());
    assert!(info.hmac_secret());
}

#[test]
fn info_reads_every_field() {
    let mut entries = vec![
        (Value::Integer(0x09), Value::Array(vec![text("usb"), Value::Null, text("nfc")])),
        (
            Value::Integer(0x0A),
            Value::Array(vec![
                Value::Mapping(vec![(text("alg"), Value::Integer(-7))]),
                Value::Mapping(vec![(text("type"), text("public-key"))]),
                Value::Mapping(vec![(text("alg"), Value::Integer(1 << 40))]),
                Value::Mapping(vec![(text("alg"), Value::Integer(-8))]),
            ]),
        ),
        (Value::Integer(0x0C), Value::Bool(true)),
        (
            Value::Integer(0x06),
            Value::Array(vec![Value::Integer(256), Value::Integer(-1), Value::Integer(1)]),
        ),
    ];
    for key in [0x05, 0x07, 0x08, 0x0B, 0x0D, 0x0E, 0x0F, 0x10, 0x11, 0x12, 0x14] {
        entries.push((Value::Integer(key), Value::Integer(key * 100)));
    }
    let info = get_info::parse_response(&mapping(entries)).unwrap();
    assert_eq!(info.transports, ["usb", "nfc"]);
    assert_eq!(info.algorithms, [-7, -8]);
    assert!(info.force_pin_change);
    assert_eq!(info.pin_protocols, [1]);
    assert_eq!(info.max_msg_size, Some(500));
    assert_eq!(info.max_credential_count_in_list, Some(700));
    assert_eq!(info.max_credential_id_length, Some(800));
    assert_eq!(info.max_serialized_large_blob_array, Some(1100));
    assert_eq!(info.min_pin_length, Some(1300));
    assert_eq!(info.firmware_version, Some(1400));
    assert_eq!(info.max_cred_blob_length, Some(1500));
    assert_eq!(info.max_rp_ids_for_set_min_pin_length, Some(1600));
    assert_eq!(info.preferred_platform_uv_attempts, Some(1700));
    assert_eq!(info.uv_modality, Some(1800));
    assert_eq!(info.remaining_discoverable_credentials, Some(2000));
    assert!(info.versions.is_empty());
    assert!(!info.hmac_secret());
    assert!(!info.client_pin_set());
}

#[test]
fn info_of_misshapen_fields() {
    let info = get_info::parse_response(&mapping(vec![
        (Value::Integer(0x01), text("FIDO_2_0")),
        (Value::Integer(0x03), Value::Bytes(vec![1; 15])),
        (
            Value::Integer(0x04),
            Value::Mapping(vec![
                (text("rk"), Value::Integer(1)),
                (Value::Integer(1), Value::Bool(true)),
                (text("clientPin"), Value::Bool(false)),
                (text("clientPin"), Value::Bool(true)),
            ]),
        ),
        (Value::Integer(0x05), Value::Integer(-1)),
        (Value::Integer(0x07), Value::Integer(1 << 32)),
        (Value::Integer(0x0C), Value::Integer(1)),
    ]))
    .unwrap();
    assert!(info.versions.is_empty());
    assert_eq!(info.aaguid, [0; 16]);
    assert_eq!(info.options.len(), 2);
    assert_eq!(info.option("rk"), None);
    assert_eq!(info.option("clientPin"), Some(false));
    assert!(!info.client_pin_set());
    assert_eq!(info.max_msg_size, None);
    assert_eq!(info.max_credential_count_in_list, None);
    assert!(!info.force_pin_change);
    // Without `pinProtocols`, a device is taken to speak v1.
    assert!(info.supports_pin_protocol_v1());
    assert!(!info.supports_pin_protocol_v2());

    let empty = get_info::parse(&Value::Null);
    assert!(empty.supports_pin_protocol_v1());
    let v2_only = get_info::parse(&Value::Mapping(vec![(
        Value::Integer(0x06),
        Value::Array(vec![Value::Integer(2)]),
    )]));
    assert!(!v2_only.supports_pin_protocol_v1());
    assert!(v2_only.supports_pin_protocol_v2());
    assert_eq!(parse_message(get_info::parse_response(&[0xFF])), "cbor");
}

#[test]
fn bare_requests() {
    assert_eq!(get_info::request(), [0x04]);
    assert_eq!(reset::request(), [0x07]);
    assert_eq!(get_next_assertion::request(), [0x08]);
}

#[test]
fn small_conversions() {
    assert_eq!(Algorithm::Es256.cose_id(), -7);
    assert_eq!(i32::from(Algorithm::EdDsa), -8);
    assert_eq!(CredProtect::UvOptional.as_u8(), 1);
    assert_eq!(CredProtect::UvOptionalWithList.as_u8(), 2);
    assert_eq!(CredProtect::UvRequired.as_u8(), 3);
    let options = MakeCredentialOptions::default();
    assert_eq!(options.algorithm, Algorithm::Es256);
    assert!(options.pin.is_none() && options.cred_protect.is_none());
    assert!(options.cred_blob.is_none());
    assert!(!options.resident_key && !options.large_blob_key && !options.min_pin_length);
}

#[test]
fn assertion_request_fields() {
    let cdh = [0xAB; 32];
    let payload = get_assertion::request("example.com", &cdh, &[], None, None).unwrap();
    assert_eq!(payload[0], 0x02);
    assert_eq!(
        cbor::decode(&payload[1..]).unwrap(),
        Value::Mapping(vec![
            (Value::Integer(1), text("example.com")),
            (Value::Integer(2), Value::Bytes(cdh.to_vec())),
        ])
    );

    let extensions = Value::Mapping(vec![(text("credBlob"), Value::Bool(true))]);
    let ids: [&[u8]; 2] = [&[1, 2], &[3]];
    let session = PinSession::establish(agreement(1), &key_response(2)).unwrap();
    let token = session.get_pin_token(&token_response(&[9; 32])).unwrap();
    let payload =
        get_assertion::request("example.com", &cdh, &ids, Some(extensions), Some(&token)).unwrap();
    let map = cbor::decode(&payload[1..]).unwrap();
    assert_eq!(
        cbor::get_int_field(&map, 3),
        Some(&Value::Array(vec![
            Value::Mapping(vec![
                (text("id"), Value::Bytes(vec![1, 2])),
                (text("type"), text("public-key")),
            ]),
            Value::Mapping(vec![
                (text("id"), Value::Bytes(vec![3])),
                (text("type"), text("public-key")),
            ]),
        ]))
    );
    assert_eq!(
        cbor::get_int_field(&map, 4),
        Some(&Value::Mapping(vec![(text("credBlob"), Value::Bool(true))]))
    );
    assert_eq!(cbor::get_int_field(&map, 5), None);
    assert_eq!(
        cbor::get_bytes(&map, 6).unwrap().as_slice(),
        &hmac_sha256::HMAC::mac(cdh, [9_u8; 32])[..16]
    );
    assert_eq!(cbor::get_integer(&map, 7), Some(1));

    assert_eq!(
        parse_message(get_assertion::request(
            "example.com",
            &cdh,
            &[],
            Some(Value::Integer(1 << 64)),
            None
        )),
        "cbor"
    );
}

#[test]
fn probe_request_and_reply() {
    let payload = get_assertion::probe_request("example.com", &[1; 32], &[&[5]]).unwrap();
    let map = cbor::decode(&payload[1..]).unwrap();
    assert_eq!(
        cbor::get_int_field(&map, 5),
        Some(&Value::Mapping(vec![(text("up"), Value::Bool(false))]))
    );
    assert_eq!(cbor::get_int_field(&map, 6), None);

    let found = assertion_response(vec![0; 37], vec![1], Some(vec![5]));
    assert_eq!(get_assertion::probe_credential(Ok(found)).unwrap(), Some(vec![5]));
    let unnamed = assertion_response(vec![0; 37], vec![1], None);
    assert_eq!(get_assertion::probe_credential(Ok(unnamed)).unwrap(), None);
    let none = get_assertion::probe_credential(Err(Error::Ctap(CtapStatus::NoCredentials)));
    assert_eq!(none.unwrap(), None);
    assert!(matches!(
        get_assertion::probe_credential(Err(Error::Ctap(CtapStatus::PinRequired))),
        Err(Error::Ctap(CtapStatus::PinRequired))
    ));
    assert!(matches!(
        get_assertion::probe_credential(Err(Error::Parse("odd"))),
        Err(Error::Parse("odd"))
    ));
    assert_eq!(
        parse_message(get_assertion::probe_credential(Ok(vec![0xA0]))),
        "getAssertion response missing authData"
    );
}

fn assertion_response(auth_data: Vec<u8>, signature: Vec<u8>, id: Option<Vec<u8>>) -> Vec<u8> {
    let mut entries = vec![
        (Value::Integer(2), Value::Bytes(auth_data)),
        (Value::Integer(3), Value::Bytes(signature)),
    ];
    if let Some(id) = id {
        entries.push((
            Value::Integer(1),
            Value::Mapping(vec![(text("id"), Value::Bytes(id))]),
        ));
    }
    mapping(entries)
}

#[test]
fn assertion_response_fields() {
    let response = mapping(vec![
        (
            Value::Integer(1),
            Value::Mapping(vec![
                (text("type"), text("public-key")),
                (text("id"), Value::Bytes(vec![1])),
            ]),
        ),
        (Value::Integer(2), Value::Bytes(vec![2])),
        (Value::Integer(3), Value::Bytes(vec![3])),
        (
            Value::Integer(4),
            Value::Mapping(vec![
                (text("id"), Value::Bytes(vec![4])),
                (text("displayName"), text("Alice")),
                (text("name"), text("alice@example.com")),
            ]),
        ),
        (Value::Integer(5), Value::Integer(2)),
    ]);
    for assertion in [
        get_assertion::parse_response(&response).unwrap(),
        get_next_assertion::parse_response(&response).unwrap(),
    ] {
        assert_eq!(assertion.credential_id, Some(vec![1]));
        assert_eq!(assertion.auth_data, [2]);
        assert_eq!(assertion.signature, [3]);
        let user = assertion.user.unwrap();
        assert_eq!(user.id, [4]);
        assert_eq!(user.name.as_deref(), Some("alice@example.com"));
        assert_eq!(user.display_name.as_deref(), Some("Alice"));
        assert_eq!(assertion.number_of_credentials, Some(2));
    }
}

#[test]
fn assertion_response_failures() {
    let parse = |bytes: &[u8]| parse_message(get_assertion::parse_response(bytes));
    assert_eq!(parse(&[]), "cbor");
    assert_eq!(parse(&[0x01]), "getAssertion response not a CBOR map");
    assert_eq!(parse(&[0xA0]), "getAssertion response missing authData");
    assert_eq!(
        parse(&[0xA1, 0x02, 0x40]),
        "getAssertion response missing signature"
    );
    // A user without a handle is none, and a count out of range is none.
    let assertion = get_assertion::parse_response(&mapping(vec![
        (Value::Integer(2), Value::Bytes(vec![])),
        (Value::Integer(3), Value::Bytes(vec![])),
        (Value::Integer(4), Value::Mapping(vec![(text("name"), text("n"))])),
        (Value::Integer(5), Value::Integer(1 << 32)),
    ]))
    .unwrap();
    assert!(assertion.user.is_none());
    assert!(assertion.number_of_credentials.is_none());
    assert!(assertion.credential_id.is_none());
}

#[test]
fn assertion_call_with_a_pin() {
    let cdh = [3; 32];
    let ids: [&[u8]; 1] = [&[1]];
    let request = || AssertionRequest {
        rp_id: "example.com",
        client_data_hash: &cdh,
        allow_list: &ids,
        extensions: None,
    };
    let call = match AssertionCall::start(agreement(1), "1234", request()) {
        Turn::Send(_, call) => call,
        Turn::Done(_) => panic!("no request"),
    };
    let call = match call.resume(&key_response(2)) {
        Turn::Send(_, call) => call,
        Turn::Done(_) => panic!("no token request"),
    };
    let call = match call.resume(&token_response(&[8; 16])) {
        Turn::Send(payload, call) => {
            let map = cbor::decode(&payload[1..]).unwrap();
            assert_eq!(
                cbor::get_bytes(&map, 6).unwrap().as_slice(),
                &hmac_sha256::HMAC::mac(cdh, [8_u8; 16])[..16]
            );
            call
        }
        Turn::Done(_) => panic!("no assertion request"),
    };
    match call.resume(&assertion_response(vec![6; 37], vec![7], None)) {
        Turn::Done(Ok(assertion)) => assert_eq!(assertion.signature, [7]),
        _ => panic!("no assertion"),
    }

    match get_assertion::call(request(), None) {
        Turn::Send(payload, AssertionCall::Asserting) => {
            assert_eq!(
                payload,
                get_assertion::request("example.com", &cdh, &ids, None, None).unwrap()
            );
        }
        _ => panic!("no assertion request"),
    }
    assert!(matches!(
        get_assertion::call(request(), Some("1234")),
        Turn::Send(_, AssertionCall::Pin(..))
    ));
}

fn auth_data(flags: u8, attested: &[u8], extensions: &[u8]) -> Vec<u8> {
    let mut out = vec![0x77; 32];
    out.push(flags);
    out.extend_from_slice(&[0, 0, 0, 1]);
    out.extend_from_slice(attested);
    out.extend_from_slice(extensions);
    out
}

fn attested(id: &[u8], key: &[u8]) -> Vec<u8> {
    let mut out = vec![0xAA; 16];
    out.push((id.len() / 256) as u8);
    out.push((id.len() % 256) as u8);
    out.extend_from_slice(id);
    out.extend_from_slice(key);
    out
}

fn signer() -> (ed25519_dalek::SigningKey, Vec<u8>) {
    let key = ed25519_dalek::SigningKey::from_bytes(&[9; 32]);
    let cose = mapping(vec![
        (Value::Integer(1), Value::Integer(1)),
        (Value::Integer(3), Value::Integer(-8)),
        (Value::Integer(-1), Value::Integer(6)),
        (
            Value::Integer(-2),
            Value::Bytes(key.verifying_key().to_bytes().to_vec()),
        ),
    ]);
    (key, cose)
}

#[test]
fn extensions_behind_the_header_or_the_credential() {
    let map = mapping(vec![(text("hmac-secret"), Value::Bytes(vec![1]))]);
    let value = cbor::decode(&map).unwrap();
    assert_eq!(
        get_assertion::decode_extensions(&auth_data(0x80, &[], &map)).unwrap(),
        value
    );
    let (_, key) = signer();
    let credential = attested(&[1, 2, 3], &key);
    assert_eq!(
        get_assertion::decode_extensions(&auth_data(0xC0, &credential, &map)).unwrap(),
        value
    );

    let decode = |bytes: &[u8]| parse_message(get_assertion::decode_extensions(bytes));
    assert_eq!(decode(&[0; 36]), "authData truncated before flags");
    assert_eq!(decode(&auth_data(0x41, &[], &[])), "hmac-secret");
    assert_eq!(
        decode(&auth_data(0xC0, &[0; 17], &[])),
        "authData truncated in attested credential"
    );
    let mut long = vec![0; 16];
    long.extend_from_slice(&[0x01, 0x00]);
    assert_eq!(
        decode(&auth_data(0xC0, &long, &[0; 255])),
        "credId length exceeds authData"
    );
    assert_eq!(decode(&auth_data(0xC0, &attested(&[1], &[]), &[])), "cbor");
    assert_eq!(decode(&auth_data(0x80, &[], &[])), "cbor");
}

#[test]
fn info_is_fetched_once() {
    let call = match get_info::call(None) {
        Turn::Send(payload, call) => {
            assert_eq!(payload, [0x04]);
            call
        }
        _ => panic!("nothing to send"),
    };
    let response = mapping(vec![(
        Value::Integer(1),
        Value::Array(vec![text("FIDO_2_0")]),
    )]);
    let info = match call.resume(&response) {
        Turn::Done(Ok(info)) => info,
        _ => panic!("no info"),
    };
    assert_eq!(info.versions, ["FIDO_2_0"]);
    match get_info::call(Some(info)) {
        Turn::Done(Ok(info)) => assert_eq!(info.versions, ["FIDO_2_0"]),
        _ => panic!("asked again"),
    }
    assert!(matches!(
        get_info::InfoCall::Asking.resume(&[0xFF]),
        Turn::Done(Err(Error::Cbor(_)))
    ));
}

fn cbor_message<T>(r: Result<T, Error>) -> String {
    match r {
        Err(Error::Cbor(message)) => message,
        _ => panic!("no CBOR error"),
    }
}

#[test]
fn trailing_bytes_are_counted_wherever_a_response_is_read() {
    let two = "trailing bytes after CBOR value (1/2 consumed)";
    let response = [0xA0, 0x00];
    assert_eq!(cbor_message(get_info::parse_response(&response)), two);
    assert_eq!(cbor_message(get_assertion::parse_response(&response)), two);
    assert_eq!(
        cbor_message(get_next_assertion::parse_response(&response)),
        two
    );
    assert_eq!(cbor_message(make_credential::parse_response(&response)), two);
    assert_eq!(cbor_message(pin::get_pin_retries(&response)), two);
    assert_eq!(
        cbor_message(PinSession::establish(agreement(1), &response)),
        two
    );
    assert_eq!(
        cbor_message(device_session().get_pin_token(&response)),
        two
    );
    assert_eq!(
        cbor_message(get_assertion::decode_extensions(&auth_data(0x80, &[], &response))),
        two
    );
    assert_eq!(
        cbor_message(get_assertion::probe_credential(Ok(response.to_vec()))),
        two
    );
    let (_, key) = signer();
    let credential = attested(&[1, 2, 3], &key);
    assert_eq!(
        cbor_message(make_credential::parse_credential(&auth_data(
            0xC0,
            &credential,
            &response
        ))),
        two
    );
}

#[test]
fn extensions_with_a_nan_or_a_wide_integer() {
    let cdh = [5_u8; 32];
    let map = |value| Some(Value::Mapping(vec![(text("x"), value)]));
    let payload =
        get_assertion::request("rp", &cdh, &[], map(Value::Float(f64::NAN.to_bits())), None)
            .unwrap();
    assert_eq!(payload[0], get_assertion::COMMAND);
    let sent = cbor::decode(&payload[1..]).unwrap();
    match cbor::get_text_field(cbor::get_int_field(&sent, 4).unwrap(), "x") {
        Some(Value::Float(bits)) => assert!(f64::from_bits(*bits).is_nan()),
        _ => panic!("no float"),
    }
    assert_eq!(
        cbor_message(get_assertion::request(
            "rp",
            &cdh,
            &[],
            map(Value::Integer(i128::MAX)),
            None
        )),
        "integer out of CBOR range"
    );
}

struct Device {
    outputs: Vec<u8>,
    blob: Option<Vec<u8>>,
    tamper: bool,
}

impl Device {
    fn answer(&self, payload: &[u8], cdh: &[u8; 32]) -> Vec<u8> {
        let session = device_session();
        let map = cbor::decode(&payload[1..]).unwrap();
        let extensions = cbor::get_int_field(&map, 4).unwrap();
        let input = cbor::get_text_field(extensions, "hmac-secret").unwrap();
        let sealed = cbor::get_bytes(input, 2).unwrap();
        assert_eq!(
            cbor::get_bytes(input, 3).unwrap().as_slice(),
            pin::hmac_truncated(session.shared_secret(), sealed)
        );
        assert_eq!(cbor::get_integer(input, 4), Some(1));
        let mut out = vec![(
            text("hmac-secret"),
            Value::Bytes(session.aes_cbc_encrypt(&self.outputs).unwrap()),
        )];
        if let Some(blob) = &self.blob {
            out.push((text("credBlob"), Value::Bytes(blob.clone())));
        }
        let data = auth_data(0x81, &[], &mapping(out));
        let mut signed = data.clone();
        signed.extend_from_slice(cdh);
        if self.tamper {
            signed.push(0);
        }
        let signature = signer().0.sign(&signed).to_bytes().to_vec();
        assertion_response(data, signature, None)
    }
}

fn run_hmac(device: &Device, req: &HmacSecretRequest<'_>) -> Result<HmacSecretResponse, Error> {
    let mut turn = HmacSecretCall::start(agreement(1), req);
    loop {
        turn = match turn {
            Turn::Done(r) => return r,
            Turn::Send(payload, call) => {
                let response = match (payload[0], payload[payload.len() - 1]) {
                    (0x06, 0x02) => key_response(2),
                    (0x06, _) => token_response(&[4; 32]),
                    _ => device.answer(&payload, req.client_data_hash),
                };
                call.resume(&response)
            }
        };
    }
}

const CDH: [u8; 32] = [0xAB; 32];
const SALT: [u8; 32] = [0xCD; 32];
const SALT2: [u8; 32] = [0xCE; 32];

fn hmac_request<'a>() -> HmacSecretRequest<'a> {
    HmacSecretRequest {
        rp_id: "example.com",
        client_data_hash: &CDH,
        cred_id: &[1, 2, 3],
        salt: &SALT,
        salt2: None,
        pin: None,
        public_key: None,
        request_cred_blob: false,
    }
}

fn device(len: usize) -> Device {
    Device {
        outputs: (0..len).map(|i| i as u8).collect(),
        blob: None,
        tamper: false,
    }
}

#[test]
fn hmac_secret_of_one_salt() {
    let response = run_hmac(&device(32), &hmac_request()).unwrap();
    assert_eq!(response.secret.0[..], device(32).outputs[..]);
    assert!(response.secret2.is_none());
    assert!(response.cred_blob.is_none());
}

#[test]
fn hmac_secret_of_two_salts() {
    let mut req = hmac_request();
    req.salt2 = Some(&SALT2);
    let response = run_hmac(&device(64), &req).unwrap();
    assert_eq!(response.secret.0[..], device(64).outputs[..32]);
    assert_eq!(response.secret2.as_ref().unwrap().0[..], device(64).outputs[32..]);
    assert_eq!(parse_message(run_hmac(&device(32), &req)), "hmac-secret salt2");
}

#[test]
fn second_output_needs_a_second_salt() {
    let response = run_hmac(&device(64), &hmac_request()).unwrap();
    assert_eq!(response.secret.0[..], device(64).outputs[..32]);
    assert!(response.secret2.is_none());
}

#[test]
fn hmac_secret_salts_are_sealed() {
    let mut req = hmac_request();
    req.salt2 = Some(&SALT2);
    let session = PinSession::establish(agreement(1), &key_response(2)).unwrap();
    let payload = get_assertion::hmac_secret_request(&session, &req, None).unwrap();
    let map = cbor::decode(&payload[1..]).unwrap();
    let extensions = cbor::get_int_field(&map, 4).unwrap();
    let input = cbor::get_text_field(extensions, "hmac-secret").unwrap();
    let opened = device_session()
        .aes_cbc_decrypt(cbor::get_bytes(input, 2).unwrap())
        .unwrap();
    assert_eq!(opened[..32], SALT);
    assert_eq!(opened[32..], SALT2);
    assert_eq!(
        pin::parse_cose_p256_pubkey(cbor::get_int_field(input, 1).unwrap()).unwrap(),
        agreement(1).public_key()
    );
    assert!(cbor::get_text_field(extensions, "credBlob").is_none());
}

#[test]
fn hmac_secret_blob_on_request() {
    let mut with_blob = device(32);
    with_blob.blob = Some(vec![1, 2]);
    let mut req = hmac_request();
    assert!(run_hmac(&with_blob, &req).unwrap().cred_blob.is_none());
    req.request_cred_blob = true;
    assert_eq!(run_hmac(&with_blob, &req).unwrap().cred_blob, Some(vec![1, 2]));
    assert_eq!(run_hmac(&device(32), &req).unwrap().cred_blob, None);
}

#[test]
fn hmac_secret_with_a_pin_and_a_key() {
    let key = CredentialPublicKey::from_cose_bytes(signer().1).unwrap();
    let mut req = hmac_request();
    req.pin = Some("1234");
    req.public_key = Some(&key);
    let response = run_hmac(&device(32), &req).unwrap();
    assert_eq!(response.secret.0[..], device(32).outputs[..]);

    let mut tampered = device(32);
    tampered.tamper = true;
    assert_eq!(
        parse_message(run_hmac(&tampered, &req)),
        "Ed25519 signature verification failed"
    );
    // The signature is checked before anything else: here the output is unusable too.
    tampered.outputs = vec![0; 16];
    assert_eq!(
        parse_message(run_hmac(&tampered, &req)),
        "Ed25519 signature verification failed"
    );
}

#[test]
fn hmac_secret_output_lengths() {
    assert_eq!(
        parse_message(run_hmac(&device(16), &hmac_request())),
        "hmac-secret output is neither 32 nor 64 bytes"
    );
    assert_eq!(
        parse_message(run_hmac(&device(48), &hmac_request())),
        "hmac-secret output is neither 32 nor 64 bytes"
    );
    let session = PinSession::establish(agreement(1), &key_response(2)).unwrap();
    let finish = |extensions: Vec<(Value, Value)>| {
        let data = auth_data(0x80, &[], &mapping(extensions));
        let assertion =
            get_assertion::parse_response(&assertion_response(data, vec![], None)).unwrap();
        parse_message(get_assertion::finish_hmac_secret(
            &session,
            &hmac_request(),
            &assertion,
        ))
    };
    assert_eq!(finish(vec![]), "hmac-secret");
    assert_eq!(finish(vec![(text("hmac-secret"), Value::Bool(true))]), "hmac-secret");
    assert_eq!(
        finish(vec![(text("hmac-secret"), Value::Bytes(vec![0; 33]))]),
        "AES-CBC ciphertext must be a non-empty multiple of 16"
    );
}

#[test]
fn hmac_secret_call_draws_a_key() {
    let req = hmac_request();
    match get_assertion::call_hmac_secret(&req) {
        Turn::Send(payload, _) => assert_eq!(payload, [0x06, 0xA2, 0x01, 0x01, 0x02, 0x02]),
        Turn::Done(_) => panic!("no request"),
    }
}

#[test]
fn registration_request_fields() {
    let blob = [5_u8; 32];
    let options = MakeCredentialOptions {
        algorithm: Algorithm::EdDsa,
        pin: None,
        resident_key: true,
        cred_protect: Some(CredProtect::UvRequired),
        cred_blob: Some(&blob),
        large_blob_key: true,
        min_pin_length: true,
    };
    let registration = Registration::with_user(
        "example.com",
        &CDH,
        &options,
        [0x11; 32],
        [0x14, 0xFB, 0x9C, 0x03, 0xD9, 0x7E],
    );
    let payload = make_credential::request(&registration, None).unwrap();
    assert_eq!(payload[0], 0x01);
    assert_eq!(
        cbor::decode(&payload[1..]).unwrap(),
        Value::Mapping(vec![
            (Value::Integer(1), Value::Bytes(CDH.to_vec())),
            (
                Value::Integer(2),
                Value::Mapping(vec![(text("id"), text("example.com"))])
            ),
            (
                Value::Integer(3),
                Value::Mapping(vec![
                    (text("id"), Value::Bytes(vec![0x11; 32])),
                    (text("name"), text("FPucA9l+")),
                ])
            ),
            (
                Value::Integer(4),
                Value::Array(vec![Value::Mapping(vec![
                    (text("alg"), Value::Integer(-8)),
                    (text("type"), text("public-key")),
                ])])
            ),
            (
                Value::Integer(6),
                Value::Mapping(vec![
                    (text("hmac-secret"), Value::Bool(true)),
                    (text("credProtect"), Value::Integer(3)),
                    (text("credBlob"), Value::Bytes(blob.to_vec())),
                    (text("largeBlobKey"), Value::Bool(true)),
                    (text("minPinLength"), Value::Bool(true)),
                ])
            ),
            (
                Value::Integer(7),
                Value::Mapping(vec![
                    (text("uv"), Value::Bool(false)),
                    (text("rk"), Value::Bool(true)),
                ])
            ),
        ])
    );
}

#[test]
fn registration_defaults_keep_uv_off() {
    let options = MakeCredentialOptions::default();
    let registration = Registration::new("example.com", &CDH, &options);
    assert_eq!(registration.user_name.len(), 8);
    let payload = make_credential::request(&registration, None).unwrap();
    let map = cbor::decode(&payload[1..]).unwrap();
    assert_eq!(
        cbor::get_int_field(&map, 6),
        Some(&Value::Mapping(vec![(text("hmac-secret"), Value::Bool(true))]))
    );
    assert_eq!(
        cbor::get_int_field(&map, 7),
        Some(&Value::Mapping(vec![(text("uv"), Value::Bool(false))]))
    );
    assert_eq!(cbor::get_int_field(&map, 8), None);
    assert_eq!(cbor::get_int_field(&map, 9), None);
    let again = Registration::new("example.com", &CDH, &options);
    assert_ne!(registration.user_id, again.user_id);
}

#[test]
fn long_blob_is_refused_after_the_pin() {
    let blob = [0_u8; 33];
    let options = MakeCredentialOptions {
        cred_blob: Some(&blob),
        ..MakeCredentialOptions::default()
    };
    let registration = Registration::new("example.com", &CDH, &options);
    assert_eq!(
        parse_message(make_credential::request(&registration, None)),
        "credBlob exceeds 32 bytes"
    );
    let call = match CredentialCall::start(agreement(1), "1234", registration) {
        Turn::Send(_, call) => call,
        Turn::Done(_) => panic!("no request"),
    };
    let call = match call.resume(&key_response(2)) {
        Turn::Send(_, call) => call,
        Turn::Done(_) => panic!("no token request"),
    };
    match call.resume(&token_response(&[1; 16])) {
        Turn::Done(r) => assert_eq!(parse_message(r), "credBlob exceeds 32 bytes"),
        Turn::Send(..) => panic!("request sent"),
    }
}

fn credential_response(extensions: &[u8], flags: u8) -> Vec<u8> {
    let (_, key) = signer();
    mapping(vec![
        (Value::Integer(1), text("packed")),
        (
            Value::Integer(2),
            Value::Bytes(auth_data(flags, &attested(&[1, 2, 3], &key), extensions)),
        ),
        (
            Value::Integer(3),
            Value::Mapping(vec![(text("alg"), Value::Integer(-7))]),
        ),
        (Value::Integer(4), Value::Bytes(vec![6; 32])),
    ])
}

fn echo() -> Vec<u8> {
    mapping(vec![
        (text("hmac-secret"), Value::Bool(true)),
        (text("credBlob"), Value::Bool(true)),
        (text("credProtect"), Value::Integer(2)),
        (text("minPinLength"), Value::Integer(6)),
    ])
}

#[test]
fn credential_response_fields() {
    let credential = make_credential::parse_response(&credential_response(&echo(), 0xC1)).unwrap();
    assert_eq!(credential.id, [1, 2, 3]);
    assert_eq!(credential.public_key.as_cose_bytes(), signer().1.as_slice());
    assert_eq!(credential.attestation.fmt, "packed");
    assert_eq!(
        credential.attestation.att_stmt,
        [0xA1, 0x63, 0x61, 0x6C, 0x67, 0x26]
    );
    assert_eq!(credential.attestation.auth_data[32], 0xC1);
    assert_eq!(credential.large_blob_key, Some(vec![6; 32]));
    assert!(credential.extensions.cred_blob_set);
    assert_eq!(credential.extensions.cred_protect, Some(2));
    assert_eq!(credential.extensions.min_pin_length, Some(6));

    // Without the ED flag the echo is not looked for.
    let plain = make_credential::parse_response(&credential_response(&echo(), 0x41)).unwrap();
    assert!(!plain.extensions.cred_blob_set);
    assert_eq!(plain.extensions.cred_protect, None);
    // An echo that is no map says nothing.
    let odd = make_credential::parse_response(&credential_response(&[0x01], 0xC1)).unwrap();
    assert!(!odd.extensions.cred_blob_set);
    assert_eq!(
        parse_message(make_credential::parse_response(&credential_response(&[0xFF], 0xC1))),
        "cbor"
    );
}

#[test]
fn echo_of_repeated_and_misshapen_entries() {
    let echo = mapping(vec![
        (text("credProtect"), Value::Integer(2)),
        (text("credBlob"), Value::Bool(true)),
        (text("minPinLength"), Value::Integer(1 << 32)),
        (text("credProtect"), Value::Integer(256)),
        (text("credBlob"), Value::Integer(1)),
        (Value::Integer(1), Value::Null),
    ]);
    let credential = make_credential::parse_response(&credential_response(&echo, 0xC1)).unwrap();
    assert!(!credential.extensions.cred_blob_set);
    assert_eq!(credential.extensions.cred_protect, None);
    assert_eq!(credential.extensions.min_pin_length, None);
}

#[test]
fn nothing_unrequested_comes_back() {
    let response = credential_response(&echo(), 0xC1);
    let credential =
        make_credential::finish(&MakeCredentialOptions::default(), &response).unwrap();
    assert_eq!(credential.large_blob_key, None);
    assert_eq!(credential.extensions.cred_protect, None);
    assert_eq!(credential.extensions.min_pin_length, None);
    let options = MakeCredentialOptions {
        cred_protect: Some(CredProtect::UvOptionalWithList),
        large_blob_key: true,
        min_pin_length: true,
        ..MakeCredentialOptions::default()
    };
    let credential = make_credential::finish(&options, &response).unwrap();
    assert_eq!(credential.large_blob_key, Some(vec![6; 32]));
    assert_eq!(credential.extensions.cred_protect, Some(2));
    assert_eq!(credential.extensions.min_pin_length, Some(6));
}

#[test]
fn credential_response_failures() {
    let parse = |entries: Vec<(Value, Value)>| {
        parse_message(make_credential::parse_response(&mapping(entries)))
    };
    assert_eq!(parse_message(make_credential::parse_response(&[])), "cbor");
    assert_eq!(
        parse_message(make_credential::parse_response(&[0x80])),
        "makeCredential response not a CBOR map"
    );
    assert_eq!(parse(vec![]), "makeCredential response missing fmt");
    let fmt = || (Value::Integer(1), text("none"));
    let data = |bytes: Vec<u8>| (Value::Integer(2), Value::Bytes(bytes));
    let statement = || (Value::Integer(3), Value::Mapping(vec![]));
    assert_eq!(parse(vec![fmt()]), "makeCredential response missing authData");
    assert_eq!(
        parse(vec![fmt(), data(vec![])]),
        "makeCredential response missing attStmt"
    );
    assert_eq!(
        parse(vec![fmt(), data(vec![0; 54]), statement()]),
        "authData too short for attested credential"
    );
    assert_eq!(
        parse(vec![fmt(), data(auth_data(0x81, &[0; 18], &[])), statement()]),
        "authData missing AT flag, no attested credential data"
    );
    let mut long = vec![0; 16];
    long.extend_from_slice(&[0x00, 0x05]);
    assert_eq!(
        parse(vec![fmt(), data(auth_data(0x41, &long, &[0; 4])), statement()]),
        "credential id length exceeds authData"
    );
    assert_eq!(
        parse(vec![
            fmt(),
            data(auth_data(0x41, &attested(&[1], &[0xA0]), &[])),
            statement()
        ]),
        "COSE key missing alg"
    );
}

#[test]
fn registration_with_a_pin() {
    let options = MakeCredentialOptions {
        pin: Some("1234"),
        ..MakeCredentialOptions::default()
    };
    assert!(matches!(
        make_credential::call("example.com", &CDH, &options),
        Turn::Send(_, CredentialCall::Pin(..))
    ));
    let registration = Registration::new("example.com", &CDH, &options);
    let call = match CredentialCall::start(agreement(1), "1234", registration) {
        Turn::Send(payload, call) => {
            assert_eq!(payload, [0x06, 0xA2, 0x01, 0x01, 0x02, 0x02]);
            call
        }
        Turn::Done(_) => panic!("no request"),
    };
    let call = match call.resume(&key_response(2)) {
        Turn::Send(payload, call) => {
            let session = PinSession::establish(agreement(1), &key_response(2)).unwrap();
            assert_eq!(payload, session.pin_token_request("1234").unwrap());
            call
        }
        Turn::Done(_) => panic!("no token request"),
    };
    let call = match call.resume(&token_response(&[8; 32])) {
        Turn::Send(payload, call) => {
            let map = cbor::decode(&payload[1..]).unwrap();
            assert_eq!(
                cbor::get_bytes(&map, 8).unwrap().as_slice(),
                &hmac_sha256::HMAC::mac(CDH, [8_u8; 32])[..16]
            );
            assert_eq!(cbor::get_integer(&map, 9), Some(1));
            call
        }
        Turn::Done(_) => panic!("no registration request"),
    };
    match call.resume(&credential_response(&echo(), 0xC1)) {
        Turn::Done(Ok(credential)) => assert_eq!(credential.id, [1, 2, 3]),
        _ => panic!("no credential"),
    }
}

#[test]
fn registration_without_a_pin() {
    let options = MakeCredentialOptions::default();
    let call = match make_credential::call("example.com", &CDH, &options) {
        Turn::Send(payload, call) => {
            assert_eq!(payload[0], 0x01);
            call
        }
        Turn::Done(_) => panic!("no request"),
    };
    match call.resume(&[0xA0]) {
        Turn::Done(r) => assert_eq!(parse_message(r), "makeCredential response missing fmt"),
        Turn::Send(..) => panic!("request sent"),
    }
}

#[test]
fn outputs_are_split_by_salts() {
    let plain: Vec<u8> = (0..64).collect();
    let (first, second) = get_assertion::split_output(&plain[..32], false).unwrap();
    assert_eq!(first.0[..], plain[..32]);
    assert!(second.is_none());
    let (first, second) = get_assertion::split_output(&plain, true).unwrap();
    assert_eq!(first.0[..], plain[..32]);
    assert_eq!(second.unwrap().0[..], plain[32..]);
    assert!(get_assertion::split_output(&plain, false).unwrap().1.is_none());
    assert_eq!(
        parse_message(get_assertion::split_output(&plain[..32], true)),
        "hmac-secret salt2"
    );
    assert_eq!(
        parse_message(get_assertion::split_output(&plain[..31], false)),
        "hmac-secret output is neither 32 nor 64 bytes"
    );
}

#[test]
fn places_in_auth_data() {
    let plain = auth_data(0x80, &[], &[]);
    assert_eq!(get_assertion::locate_extensions(&plain).unwrap(), (37, false));
    let full = auth_data(0xC0, &attested(&[1, 2, 3], &[0xA0]), &[]);
    assert_eq!(get_assertion::locate_extensions(&full).unwrap(), (58, true));
    assert_eq!(make_credential::locate_id(&full).unwrap(), (58, true));
    let quiet = auth_data(0x40, &attested(&[], &[]), &[]);
    assert_eq!(make_credential::locate_id(&quiet).unwrap(), (55, false));
    assert_eq!(
        parse_message(make_credential::locate_id(&plain)),
        "authData too short for attested credential"
    );
    assert_eq!(get_assertion::read_flags(0x45), (true, false));
    assert_eq!(get_assertion::read_flags(0xBF), (false, true));
}

#[test]
fn decoded_command_responses() {
    let assertion = get_assertion::parse(Value::Mapping(vec![
        (Value::Integer(3), Value::Bytes(vec![3])),
        (Value::Integer(2), Value::Bytes(vec![2])),
    ]))
    .unwrap();
    assert_eq!(assertion.auth_data, [2]);
    assert_eq!(
        parse_message(get_assertion::parse(Value::Null)),
        "getAssertion response not a CBOR map"
    );
    let fields = make_credential::parse_fields(Value::Mapping(vec![
        (Value::Integer(1), text("none")),
        (Value::Integer(2), Value::Bytes(vec![2])),
        (Value::Integer(3), Value::Null),
    ]))
    .unwrap();
    assert_eq!(fields.fmt, "none");
    assert_eq!(fields.statement, Value::Null);
    assert!(fields.large_blob_key.is_none());
    let echo = make_credential::parse_echo(&cbor::decode(&echo()).unwrap());
    assert_eq!(echo.cred_protect, Some(2));
    assert!(!make_credential::parse_echo(&Value::Null).cred_blob_set);
}
