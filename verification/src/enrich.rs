//! Enrichment: filling what the probes left open, from the name services and
//! from the maker tables.

use crate::address::normalized_mac;
use crate::case::lower;
use crate::device::{records, DeviceRecord, NetworkDevice};
use crate::merge::{is_unknown, unknown};
use crate::text::opt_text;
use crate::vendor::{device_type_of, guess_device_type, lookup_vendor_map, wider_vendor_of};
use vstd::prelude::*;

verus! {

/// What the name services answered for one device. `None` stands for a
/// service that was not asked or gave no name.
pub struct ResolvedNames {
    pub reverse_dns: Option<String>,
    pub netbios: Option<String>,
}

/// What the name services answered, as plain values.
pub struct NameAnswers {
    pub reverse_dns: Option<Seq<char>>,
    pub netbios: Option<Seq<char>>,
}

impl View for ResolvedNames {
    type V = NameAnswers;

    open spec fn view(&self) -> NameAnswers {
        NameAnswers { reverse_dns: opt_text(self.reverse_dns), netbios: opt_text(self.netbios) }
    }
}

/// No answer from either service.
pub open spec fn no_answers() -> NameAnswers {
    NameAnswers { reverse_dns: None, netbios: None }
}

/// The host name after the services were heard: a known name stays; else
/// the reverse lookup counts, and the name table where that left it empty.
pub open spec fn resolved_hostname(hostname: Seq<char>, names: NameAnswers) -> Seq<char> {
    let first = if hostname.len() == 0 && names.reverse_dns is Some {
        names.reverse_dns->0
    } else {
        hostname
    };
    if first.len() == 0 && names.netbios is Some {
        names.netbios->0
    } else {
        first
    }
}

/// The reverse lookup gave no name.
pub open spec fn gave_nothing(answer: Option<Seq<char>>) -> bool {
    match answer {
        Some(name) => name.len() == 0,
        None => true,
    }
}

/// Whether the name services are to be asked about the device: only where
/// it has no host name yet.
pub fn wants_lookup(device: &NetworkDevice) -> (r: bool)
    ensures
        r == (device@.hostname.len() == 0),
{
    device.hostname.as_str().is_empty()
}

/// Whether the name table is to be asked about the device, given what the
/// reverse lookup answered: only where the device has no host name and the
/// reverse lookup gave none.
pub fn wants_name_table(device: &NetworkDevice, reverse_dns: &Option<String>) -> (r: bool)
    ensures
        r == (device@.hostname.len() == 0 && gave_nothing(opt_text(*reverse_dns))),
{
    if !device.hostname.as_str().is_empty() {
        return false;
    }
    match reverse_dns {
        Some(name) => name.as_str().is_empty(),
        None => true,
    }
}

/// An answer that was not wanted makes no difference: a device with a host
/// name keeps it whatever the services say, and the name table is not heard
/// where the reverse lookup gave a name.
pub proof fn lemma_unwanted_answers(d: DeviceRecord, names: NameAnswers, other: NameAnswers)
    ensures
        d.hostname.len() > 0 ==> enriched(d, names) == enriched(d, other),
        !gave_nothing(names.reverse_dns) && names.reverse_dns == other.reverse_dns ==> enriched(
            d,
            names,
        ) == enriched(d, other),
{
}

/// The record after enrichment, in this order: the host name from the name
/// services, an unknown maker from the hardware address, an unknown kind
/// from the maker.
pub open spec fn enriched(d: DeviceRecord, names: NameAnswers) -> DeviceRecord {
    let vendor = if d.vendor == unknown() {
        wider_vendor_of(normalized_mac(d.mac))
    } else {
        d.vendor
    };
    let device_type = if d.device_type == unknown() {
        device_type_of(lower(vendor))
    } else {
        d.device_type
    };
    DeviceRecord {
        hostname: resolved_hostname(d.hostname, names),
        vendor: vendor,
        device_type: device_type,
        ..d
    }
}

/// The answers for the device at position `i`; none where the list is too
/// short.
pub open spec fn answers_at(names: Seq<ResolvedNames>, i: int) -> NameAnswers {
    if 0 <= i < names.len() {
        names[i]@
    } else {
        no_answers()
    }
}

/// Every record enriched with the answers at its position.
pub open spec fn enriched_all(set: Seq<DeviceRecord>, names: Seq<ResolvedNames>) -> Seq<
    DeviceRecord,
> {
    Seq::new(set.len(), |i: int| enriched(set[i], answers_at(names, i)))
}

/// Enriches one record.
pub fn enrich_device(device: &mut NetworkDevice, names: &ResolvedNames)
    ensures
        final(device)@ == enriched(old(device)@, names@),
{
    if device.hostname.as_str().is_empty() {
        match &names.reverse_dns {
            Some(name) => {
                device.hostname = name.clone();
            },
            None => {},
        }
    }
    if device.hostname.as_str().is_empty() {
        match &names.netbios {
            Some(name) => {
                device.hostname = name.clone();
            },
            None => {},
        }
    }
    if is_unknown(&device.vendor) {
        device.vendor = lookup_vendor_map(device.mac.as_str());
    }
    if is_unknown(&device.device_type) {
        device.device_type = guess_device_type(device.ip.as_str(), device.vendor.as_str());
    }
}

/// Enriches every record of the set, each with the answers at its position
/// in `names`.
pub fn enrich_devices(devices: &mut Vec<NetworkDevice>, names: &Vec<ResolvedNames>)
    ensures
        records(final(devices)@) == enriched_all(records(old(devices)@), names@),
{
    let n = devices.len();
    let none = ResolvedNames { reverse_dns: None, netbios: None };
    let mut i: usize = 0;
    while i < n
        invariant
            i <= n == devices.len(),
            devices.len() == old(devices).len(),
            none@ == no_answers(),
            forall|k: int|
                0 <= k < i ==> #[trigger] records(devices@)[k] == enriched(
                    records(old(devices)@)[k],
                    answers_at(names@, k),
                ),
            forall|k: int| i <= k < n ==> #[trigger] devices@[k] == old(devices)@[k],
        decreases n - i,
    {
        let ghost before = devices@;
        let mut device = devices[i].clone();
        if i < names.len() {
            enrich_device(&mut device, &names[i]);
        } else {
            enrich_device(&mut device, &none);
        }
        devices.set(i, device);
        proof {
            assert(before[i as int] == old(devices)@[i as int]);
            assert forall|k: int| 0 <= k < i + 1 implies #[trigger] records(devices@)[k]
                == enriched(records(old(devices)@)[k], answers_at(names@, k)) by {
                if k < i {
                    assert(records(devices@)[k] == records(before)[k]);
                }
            }
            assert forall|k: int| i + 1 <= k < n implies #[trigger] devices@[k] == old(
                devices,
            )@[k] by {
                assert(devices@[k] == before[k]);
            }
        }
        i += 1;
    }
    proof {
        assert(records(devices@) =~= enriched_all(records(old(devices)@), names@));
    }
}

/// Enrichment done twice, with the same answers, is enrichment done once.
pub proof fn lemma_enrich_idempotent(d: DeviceRecord, names: NameAnswers)
    ensures
        enriched(enriched(d, names), names) == enriched(d, names),
{
}

} // verus!
