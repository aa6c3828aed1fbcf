//! USB HID enumeration: which of the devices that the system reports are authenticators with
//! `hmac-secret`. The caller asks the system for the devices, opens the candidates and runs
//! `getInfo` on each.

use crate::cmd::AuthenticatorInfo;
use crate::error::Error;
use crate::text;
use vstd::prelude::*;

verus! {

/// FIDO authenticator HID usage page.
pub const FIDO_USAGE_PAGE: u16 = 0xF1D0;

/// FIDO usage within the FIDO usage page.
pub const FIDO_USAGE: u16 = 0x0001;

/// Metadata about a discovered authenticator.
#[derive(Clone, Debug)]
pub struct DeviceInfo {
    /// `hidraw` path on Linux or platform-specific opaque path elsewhere.
    pub path: String,
    /// USB vendor id.
    pub vendor_id: u16,
    /// USB product id.
    pub product_id: u16,
    /// Manufacturer-provided product string, when set.
    pub product_string: Option<String>,
    /// Manufacturer-assigned serial number, when the device exposes one.
    pub serial_number: Option<String>,
}

/// A HID device as the system reports it.
pub struct HidEntry {
    /// HID usage page.
    pub usage_page: u16,
    /// HID usage.
    pub usage: u16,
    /// The path, where it is text.
    pub path: Option<String>,
    /// USB vendor id.
    pub vendor_id: u16,
    /// USB product id.
    pub product_id: u16,
    /// Manufacturer-provided product string, when set.
    pub product_string: Option<String>,
    /// Manufacturer-assigned serial number, when the device exposes one.
    pub serial_number: Option<String>,
}

/// What a [`DeviceInfo`] says.
pub struct Device {
    pub path: Seq<char>,
    pub vendor_id: u16,
    pub product_id: u16,
    pub product_string: Option<Seq<char>>,
    pub serial_number: Option<Seq<char>>,
}

impl View for DeviceInfo {
    type V = Device;

    open spec fn view(&self) -> Device {
        Device {
            path: self.path@,
            vendor_id: self.vendor_id,
            product_id: self.product_id,
            product_string: text::text_view(self.product_string),
            serial_number: text::text_view(self.serial_number),
        }
    }
}

/// What each descriptor says.
pub open spec fn devices(infos: Seq<DeviceInfo>) -> Seq<Device> {
    Seq::new(infos.len(), |i: int| infos[i]@)
}

/// The candidate that a reported device is: one of FIDO usage whose path is text.
pub open spec fn candidate_of(entry: HidEntry) -> Option<Device> {
    match entry.path {
        Some(path) => if entry.usage_page == FIDO_USAGE_PAGE && entry.usage == FIDO_USAGE {
            Some(
                Device {
                    path: path@,
                    vendor_id: entry.vendor_id,
                    product_id: entry.product_id,
                    product_string: text::text_view(entry.product_string),
                    serial_number: text::text_view(entry.serial_number),
                },
            )
        } else {
            None
        },
        None => None,
    }
}

/// Picks the candidate out of a reported device.
pub open spec fn pick_candidate() -> spec_fn(HidEntry) -> Option<Device> {
    |entry: HidEntry| candidate_of(entry)
}

/// The device that a probed candidate is listed as: none where it failed to open or to answer
/// `getInfo`, or does not advertise `hmac-secret`.
pub open spec fn listed_as(probed: (DeviceInfo, Result<AuthenticatorInfo, Error>)) -> Option<
    Device,
> {
    match probed.1 {
        Ok(info) => if info@.extensions.contains("hmac-secret"@) {
            Some(probed.0@)
        } else {
            None
        },
        Err(_) => None,
    }
}

/// Picks the listed device out of a probed candidate.
pub open spec fn pick_listed() -> spec_fn(
    (DeviceInfo, Result<AuthenticatorInfo, Error>),
) -> Option<Device> {
    |probed: (DeviceInfo, Result<AuthenticatorInfo, Error>)| listed_as(probed)
}

/// The devices to probe, in the order in which the system reports them.
pub fn candidates(entries: Vec<HidEntry>) -> (r: Vec<DeviceInfo>)
    ensures
        devices(r@) == entries@.filter_map(pick_candidate()),
{
    let mut out: Vec<DeviceInfo> = Vec::new();
    let ghost all = entries@;
    assert(devices(out@) =~= all.take(0).filter_map(pick_candidate()));
    for entry in it: entries.into_iter()
        invariant
            it.seq() == all,
            devices(out@) == all.take(it.index()).filter_map(pick_candidate()),
    {
        let ghost before = out@;
        proof {
            text::lemma_pick_next(all, pick_candidate(), it.index());
        }
        if entry.usage_page == FIDO_USAGE_PAGE && entry.usage == FIDO_USAGE {
            if let Some(path) = entry.path {
                let info = DeviceInfo {
                    path,
                    vendor_id: entry.vendor_id,
                    product_id: entry.product_id,
                    product_string: entry.product_string,
                    serial_number: entry.serial_number,
                };
                out.push(info);
                assert(devices(out@) =~= devices(before).push(info@));
            }
        }
    }
    assert(all.take(all.len() as int) =~= all);
    out
}

/// List authenticators advertising `hmac-secret`, in the order in which they were probed.
/// Devices that failed to open or to answer `getInfo` are silently skipped.
pub fn list_devices(probed: Vec<(DeviceInfo, Result<AuthenticatorInfo, Error>)>) -> (r: Vec<
    DeviceInfo,
>)
    ensures
        devices(r@) == probed@.filter_map(pick_listed()),
{
    let mut out: Vec<DeviceInfo> = Vec::new();
    let ghost all = probed@;
    assert(devices(out@) =~= all.take(0).filter_map(pick_listed()));
    for entry in it: probed.into_iter()
        invariant
            it.seq() == all,
            devices(out@) == all.take(it.index()).filter_map(pick_listed()),
    {
        let ghost before = out@;
        proof {
            text::lemma_pick_next(all, pick_listed(), it.index());
        }
        let (device, answer) = entry;
        if let Ok(info) = answer {
            if info.hmac_secret() {
                let ghost listed = device@;
                out.push(device);
                assert(devices(out@) =~= devices(before).push(listed));
            }
        }
    }
    assert(all.take(all.len() as int) =~= all);
    out
}

} // verus!
