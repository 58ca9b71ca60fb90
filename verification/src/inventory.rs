//! Reading the inventory: counts, and pages of the devices that match a
//! filter.

use crate::device::{records, strings, DeviceRecord, NetworkDevice};
use crate::search::contains;
use crate::tally::{count_labels, counts, is_tally_of, tally, Count};
use vstd::prelude::*;

verus! {

// ---------------------------------------------------------------------------
// Counts
// ---------------------------------------------------------------------------

/// The record is online.
pub open spec fn is_online(d: DeviceRecord) -> bool {
    d.status == "online"@
}

/// The record is marked for investigation.
pub open spec fn is_flagged(d: DeviceRecord) -> bool {
    d.tags.contains("investigate"@)
}

/// How many records of the set are online.
pub open spec fn online_count(set: Seq<DeviceRecord>) -> nat
    decreases set.len(),
{
    if set.len() == 0 {
        0
    } else {
        online_count(set.drop_last()) + if is_online(set.last()) {
            1nat
        } else {
            0nat
        }
    }
}

/// How many records of the set are marked for investigation.
pub open spec fn flagged_count(set: Seq<DeviceRecord>) -> nat
    decreases set.len(),
{
    if set.len() == 0 {
        0
    } else {
        flagged_count(set.drop_last()) + if is_flagged(set.last()) {
            1nat
        } else {
            0nat
        }
    }
}

/// The kinds of the records, in order.
pub open spec fn kinds_of(set: Seq<DeviceRecord>) -> Seq<Seq<char>> {
    Seq::new(set.len(), |i: int| set[i].device_type)
}

/// The makers of the records, in order.
pub open spec fn makers_of(set: Seq<DeviceRecord>) -> Seq<Seq<char>> {
    Seq::new(set.len(), |i: int| set[i].vendor)
}

/// Whether `label` is among `tags`.
pub fn has_tag(tags: &Vec<String>, label: &String) -> (r: bool)
    ensures
        r == strings(tags@).contains(label@),
{
    let mut i: usize = 0;
    while i < tags.len()
        invariant
            i <= tags.len(),
            forall|k: int| 0 <= k < i ==> #[trigger] strings(tags@)[k] != label@,
        decreases tags.len() - i,
    {
        if tags[i] == *label {
            assert(strings(tags@)[i as int] == label@);
            return true;
        }
        i += 1;
    }
    false
}

/// Whether the device is online.
pub fn device_is_online(d: &NetworkDevice) -> (r: bool)
    ensures
        r == is_online(d@),
{
    let online = "online".to_owned();
    d.status == online
}

/// How many devices are online.
pub fn count_online(devices: &Vec<NetworkDevice>) -> (n: usize)
    ensures
        n == online_count(records(devices@)),
        n <= devices.len(),
{
    let mut n: usize = 0;
    let mut i: usize = 0;
    proof {
        assert(records(devices@).subrange(0, 0) =~= Seq::<DeviceRecord>::empty());
    }
    while i < devices.len()
        invariant
            i <= devices.len(),
            n <= i,
            n == online_count(records(devices@).subrange(0, i as int)),
        decreases devices.len() - i,
    {
        proof {
            let seen = records(devices@).subrange(0, i + 1);
            assert(seen.drop_last() =~= records(devices@).subrange(0, i as int));
            assert(seen.last() == devices@[i as int]@);
        }
        if device_is_online(&devices[i]) {
            n += 1;
        }
        i += 1;
    }
    proof {
        assert(records(devices@).subrange(0, devices.len() as int) =~= records(devices@));
    }
    n
}

/// How many devices are marked for investigation.
pub fn count_flagged(devices: &Vec<NetworkDevice>) -> (n: usize)
    ensures
        n == flagged_count(records(devices@)),
        n <= devices.len(),
{
    let label = "investigate".to_owned();
    let mut n: usize = 0;
    let mut i: usize = 0;
    proof {
        assert(records(devices@).subrange(0, 0) =~= Seq::<DeviceRecord>::empty());
    }
    while i < devices.len()
        invariant
            i <= devices.len(),
            n <= i,
            label@ == "investigate"@,
            n == flagged_count(records(devices@).subrange(0, i as int)),
        decreases devices.len() - i,
    {
        proof {
            let seen = records(devices@).subrange(0, i + 1);
            assert(seen.drop_last() =~= records(devices@).subrange(0, i as int));
            assert(seen.last() == devices@[i as int]@);
        }
        if has_tag(&devices[i].tags, &label) {
            n += 1;
        }
        i += 1;
    }
    proof {
        assert(records(devices@).subrange(0, devices.len() as int) =~= records(devices@));
    }
    n
}

/// The inventory with its counts.
pub struct InventoryReport {
    pub devices: Vec<NetworkDevice>,
    pub total_count: usize,
    pub online_count: usize,
    pub last_scan: u64,
}

/// Counts the inventory as it stands at time `now`.
pub fn get_device_inventory(devices: Vec<NetworkDevice>, now: u64) -> (report: InventoryReport)
    ensures
        report.devices == devices,
        report.total_count == devices.len(),
        report.online_count == online_count(records(devices@)),
        report.last_scan == now,
{
    let total_count = devices.len();
    let online = count_online(&devices);
    InventoryReport { devices, total_count, online_count: online, last_scan: now }
}

/// The summary of an inventory.
pub struct DeviceSummary {
    pub total_devices: usize,
    pub online_devices: usize,
    pub offline_devices: usize,
    pub investigate_devices: usize,
    pub by_type: Vec<Count>,
    pub by_vendor: Vec<Count>,
    pub recent_devices: Vec<NetworkDevice>,
}

/// The first `n` records of the set, or all where it has fewer.
pub open spec fn first_records(set: Seq<DeviceRecord>, n: nat) -> Seq<DeviceRecord> {
    if set.len() <= n {
        set
    } else {
        set.subrange(0, n as int)
    }
}

/// Summarises the inventory in one pass: how many devices there are, how
/// many are online, how many are not, how many are marked for
/// investigation, how many there are of each kind and from each maker, and
/// the first five of them.
pub fn get_device_summary(devices: &Vec<NetworkDevice>) -> (summary: DeviceSummary)
    ensures
        summary.total_devices == devices.len(),
        summary.online_devices == online_count(records(devices@)),
        summary.offline_devices == devices.len() - online_count(records(devices@)),
        summary.investigate_devices == flagged_count(records(devices@)),
        counts(summary.by_type@) == tally(kinds_of(records(devices@))),
        is_tally_of(counts(summary.by_type@), kinds_of(records(devices@))),
        counts(summary.by_vendor@) == tally(makers_of(records(devices@))),
        is_tally_of(counts(summary.by_vendor@), makers_of(records(devices@))),
        records(summary.recent_devices@) == first_records(records(devices@), 5),
{
    let total = devices.len();
    let online = count_online(devices);
    let investigate = count_flagged(devices);
    let mut kinds: Vec<String> = Vec::new();
    let mut makers: Vec<String> = Vec::new();
    let mut recent: Vec<NetworkDevice> = Vec::new();
    let mut i: usize = 0;
    while i < total
        invariant
            i <= total == devices.len(),
            kinds.len() == i,
            makers.len() == i,
            forall|k: int| 0 <= k < i ==> #[trigger] strings(kinds@)[k] == devices@[k]@.device_type,
            forall|k: int| 0 <= k < i ==> #[trigger] strings(makers@)[k] == devices@[k]@.vendor,
            records(recent@) == first_records(records(devices@).subrange(0, i as int), 5),
        decreases total - i,
    {
        let ghost kinds_before = strings(kinds@);
        let ghost makers_before = strings(makers@);
        let ghost recent_before = records(recent@);
        kinds.push(devices[i].device_type.clone());
        makers.push(devices[i].vendor.clone());
        if i < 5 {
            recent.push(devices[i].clone());
        }
        proof {
            assert forall|k: int| 0 <= k < i + 1 implies #[trigger] strings(kinds@)[k]
                == devices@[k]@.device_type by {
                if k < i {
                    assert(strings(kinds@)[k] == kinds_before[k]);
                }
            }
            assert forall|k: int| 0 <= k < i + 1 implies #[trigger] strings(makers@)[k]
                == devices@[k]@.vendor by {
                if k < i {
                    assert(strings(makers@)[k] == makers_before[k]);
                }
            }
            let seen = records(devices@).subrange(0, i + 1);
            if i < 5 {
                assert(records(recent@) =~= recent_before.push(devices@[i as int]@));
                assert(seen =~= records(devices@).subrange(0, i as int).push(devices@[i as int]@));
            } else {
                assert(seen.subrange(0, 5) =~= records(devices@).subrange(0, i as int).subrange(
                    0,
                    5,
                ));
            }
        }
        i += 1;
    }
    proof {
        assert(records(devices@).subrange(0, total as int) =~= records(devices@));
        assert(strings(kinds@) =~= kinds_of(records(devices@)));
        assert(strings(makers@) =~= makers_of(records(devices@)));
    }
    DeviceSummary {
        total_devices: total,
        online_devices: online,
        offline_devices: total - online,
        investigate_devices: investigate,
        by_type: count_labels(&kinds),
        by_vendor: count_labels(&makers),
        recent_devices: recent,
    }
}

} // verus!
