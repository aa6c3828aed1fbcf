//! Which devices are probed and listed.

use crate::cmd::AuthenticatorInfo;
use crate::device;
use crate::device::{DeviceInfo, HidEntry};
use crate::error::Error;
use vstd::prelude::*;

verus! {

/// Whether a descriptor says of a device what the system reported.
pub open spec fn describes(info: DeviceInfo, entry: HidEntry) -> bool {
    &&& entry.path matches Some(path) && info.path@ == path@
    &&& info.vendor_id == entry.vendor_id
    &&& info.product_id == entry.product_id
    &&& match (info.product_string, entry.product_string) {
        (Some(told), Some(reported)) => told@ == reported@,
        (None, None) => true,
        _ => false,
    }
    &&& match (info.serial_number, entry.serial_number) {
        (Some(told), Some(reported)) => told@ == reported@,
        (None, None) => true,
        _ => false,
    }
}

/// The devices to probe are found one by one, in the order of the report: one more reported
/// device adds its descriptor exactly where it has usage 1 on page 0xF1D0 and its path is text.
pub proof fn law_candidates_one_by_one(
    entries: Seq<HidEntry>,
    found: Seq<DeviceInfo>,
    before: Seq<DeviceInfo>,
)
    requires
        device::devices(found) == entries.filter_map(device::pick_candidate()),
        entries.len() > 0 ==> device::devices(before) == entries.drop_last().filter_map(
            device::pick_candidate(),
        ),
    ensures
        entries.len() == 0 ==> found.len() == 0,
        entries.len() > 0 ==> {
            let last = entries.last();
            &&& forall|i: int| 0 <= i < before.len() ==> (#[trigger] found[i])@ == before[i]@
            &&& if last.usage_page == 0xF1D0 && last.usage == 1 && last.path is Some {
                found.len() == before.len() + 1 && describes(found.last(), last)
            } else {
                found.len() == before.len()
            }
        },
{
    assert(device::devices(found).len() == found.len());
    if entries.len() > 0 {
        let all = device::devices(found);
        let less = device::devices(before);
        let last = entries.last();
        assert(less.len() == before.len());
        if last.usage_page == 0xF1D0 && last.usage == 1 && last.path is Some {
            let picked = device::candidate_of(last)->0;
            assert(all == less + seq![picked]);
            assert(all[found.len() - 1] == found.last()@);
        } else {
            assert(all == less);
        }
        assert forall|i: int| 0 <= i < before.len() implies (#[trigger] found[i])@ == before[i]@ by {
            assert(all[i] == found[i]@ && less[i] == before[i]@);
        }
    }
}

/// The devices that are listed are found one by one, in the order in which they were probed: one
/// more probed device is listed, as it is, exactly where it answered and names `hmac-secret`
/// among its extensions.
pub proof fn law_listed_devices_one_by_one(
    probed: Seq<(DeviceInfo, Result<AuthenticatorInfo, Error>)>,
    listed: Seq<DeviceInfo>,
    before: Seq<DeviceInfo>,
)
    requires
        device::devices(listed) == probed.filter_map(device::pick_listed()),
        probed.len() > 0 ==> device::devices(before) == probed.drop_last().filter_map(
            device::pick_listed(),
        ),
    ensures
        probed.len() == 0 ==> listed.len() == 0,
        probed.len() > 0 ==> {
            let last = probed.last();
            &&& forall|i: int| 0 <= i < before.len() ==> (#[trigger] listed[i])@ == before[i]@
            &&& if last.1 matches Ok(info) && exists|i: int|
                0 <= i < info.extensions@.len() && (#[trigger] info.extensions@[i])@
                    == "hmac-secret"@ {
                listed.len() == before.len() + 1 && listed.last()@ == last.0@
            } else {
                listed.len() == before.len()
            }
        },
{
    assert(device::devices(listed).len() == listed.len());
    if probed.len() > 0 {
        let all = device::devices(listed);
        let less = device::devices(before);
        let last = probed.last();
        assert(less.len() == before.len());
        if let Ok(info) = last.1 {
            let names = info@.extensions;
            if exists|i: int|
                0 <= i < info.extensions@.len() && (#[trigger] info.extensions@[i])@
                    == "hmac-secret"@ {
                let i = choose|i: int|
                    0 <= i < info.extensions@.len() && (#[trigger] info.extensions@[i])@
                        == "hmac-secret"@;
                assert(names[i] == "hmac-secret"@);
                assert(names.contains("hmac-secret"@));
                assert(all == less + seq![last.0@]);
                assert(all[listed.len() - 1] == listed.last()@);
            } else {
                assert forall|i: int| 0 <= i < names.len() implies names[i] != "hmac-secret"@ by {
                    assert(names[i] == info.extensions@[i]@);
                }
                assert(!names.contains("hmac-secret"@));
                assert(all == less);
            }
        } else {
            assert(all == less);
        }
        assert forall|i: int| 0 <= i < before.len() implies (#[trigger] listed[i])@
            == before[i]@ by {
            assert(all[i] == listed[i]@ && less[i] == before[i]@);
        }
    }
}

/// A descriptor is seen by its own fields.
pub proof fn law_descriptors_are_seen_by_their_fields(a: DeviceInfo, b: DeviceInfo)
    requires
        a@ == b@,
    ensures
        a.path@ == b.path@,
        a.vendor_id == b.vendor_id,
        a.product_id == b.product_id,
        a.product_string is Some == b.product_string is Some,
        a.product_string matches Some(name) ==> name@ == b.product_string->0@,
        a.serial_number is Some == b.serial_number is Some,
        a.serial_number matches Some(number) ==> number@ == b.serial_number->0@,
{
}

} // verus!
