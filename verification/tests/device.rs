//! Which devices are listed.

use ctap_fido2::cbor::Value;
use ctap_fido2::cmd::get_info;
use ctap_fido2::cmd::AuthenticatorInfo;
use ctap_fido2::device;
use ctap_fido2::device::{DeviceInfo, HidEntry};
use ctap_fido2::error::{CtapStatus, Error};

fn entry(usage_page: u16, usage: u16, path: Option<&str>) -> HidEntry {
    HidEntry {
        usage_page,
        usage,
        path: path.map(str::to_string),
        vendor_id: 0x1050,
        product_id: 0x0407,
        product_string: Some("Key".to_string()),
        serial_number: None,
    }
}

fn info(extension: &str) -> AuthenticatorInfo {
    get_info::parse(&Value::Mapping(vec![(
        Value::Integer(2),
        Value::Array(vec![
            Value::Text("credProtect".to_string()),
            Value::Text(extension.to_string()),
        ]),
    )]))
}

fn descriptor(path: &str) -> DeviceInfo {
    DeviceInfo {
        path: path.to_string(),
        vendor_id: 1,
        product_id: 2,
        product_string: None,
        serial_number: Some("7".to_string()),
    }
}

#[test]
fn candidates_are_fido_devices_with_a_path() {
    let found = device::candidates(vec![
        entry(0xF1D0, 0x0001, Some("a")),
        entry(0xF1D0, 0x0002, Some("b")),
        entry(0x0001, 0x0001, Some("c")),
        entry(0xF1D0, 0x0001, None),
        entry(device::FIDO_USAGE_PAGE, device::FIDO_USAGE, Some("d")),
    ]);
    assert_eq!(found.len(), 2);
    assert_eq!(found[0].path, "a");
    assert_eq!(found[1].path, "d");
    assert_eq!(found[0].vendor_id, 0x1050);
    assert_eq!(found[0].product_id, 0x0407);
    assert_eq!(found[0].product_string.as_deref(), Some("Key"));
    assert!(found[0].serial_number.is_none());
}

#[test]
fn listed_devices_advertise_hmac_secret() {
    let listed = device::list_devices(vec![
        (descriptor("a"), Ok(info("hmac-secret"))),
        (descriptor("b"), Err(Error::Ctap(CtapStatus::InvalidCommand))),
        (descriptor("c"), Ok(info("largeBlobKey"))),
        (descriptor("d"), Ok(info("hmac-secret"))),
    ]);
    assert_eq!(listed.len(), 2);
    assert_eq!(listed[0].path, "a");
    assert_eq!(listed[1].path, "d");
    assert_eq!(listed[1].serial_number.as_deref(), Some("7"));
    assert!(device::list_devices(vec![]).is_empty());
}
