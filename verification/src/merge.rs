//! The merge engine: many partial sightings, one record for each device.

use crate::device::{records, DeviceRecord, NetworkDevice};
use crate::merge_laws::{
    distinct_identities, lemma_merge_distinct, lemma_merge_fills_only, only_filled,
};
use crate::scan::{first_where, lemma_first_where, lemma_first_where_is};
use vstd::prelude::*;

verus! {

/// The word that stands for a maker or a kind that nobody has told yet.
pub open spec fn unknown() -> Seq<char> {
    "Unknown"@
}

/// The sighting names the hardware address of the record. An empty
/// hardware address names nothing.
pub open spec fn same_hardware(existing: DeviceRecord, incoming: DeviceRecord) -> bool {
    incoming.mac.len() > 0 && existing.mac == incoming.mac
}

/// The sighting names the address of the record.
pub open spec fn same_address(existing: DeviceRecord, incoming: DeviceRecord) -> bool {
    existing.ip == incoming.ip
}

/// A sighting belongs to a record when it names the same address, or the
/// same hardware address.
pub open spec fn same_device(existing: DeviceRecord, incoming: DeviceRecord) -> bool {
    same_address(existing, incoming) || same_hardware(existing, incoming)
}

/// `known`, or `told` where nothing is known yet.
pub open spec fn filled(known: Seq<char>, told: Seq<char>) -> Seq<char> {
    if known.len() == 0 {
        told
    } else {
        known
    }
}

/// `known`, or `told` where `known` is the word for what nobody has told
/// yet.
pub open spec fn named(known: Seq<char>, told: Seq<char>) -> Seq<char> {
    if known == unknown() {
        told
    } else {
        known
    }
}

/// The record after it has taken in a sighting of the same device. Only what
/// was missing is filled in: the hardware address, the host name and the
/// platform where they were empty, the maker and the kind where they were
/// unknown. The time last seen moves forward, never back.
pub open spec fn absorb(existing: DeviceRecord, incoming: DeviceRecord) -> DeviceRecord {
    DeviceRecord {
        mac: filled(existing.mac, incoming.mac),
        hostname: filled(existing.hostname, incoming.hostname),
        vendor: named(existing.vendor, incoming.vendor),
        device_type: named(existing.device_type, incoming.device_type),
        os: filled(existing.os, incoming.os),
        last_seen: if incoming.last_seen > existing.last_seen {
            incoming.last_seen
        } else {
            existing.last_seen
        },
        ..existing
    }
}

/// The position of the first record with the hardware address of the
/// sighting, or `set.len()` where there is none.
pub open spec fn hardware_index(set: Seq<DeviceRecord>, incoming: DeviceRecord) -> nat {
    first_where(set, |existing: DeviceRecord| same_hardware(existing, incoming))
}

/// The position of the first record with the address of the sighting, or
/// `set.len()` where there is none.
pub open spec fn address_index(set: Seq<DeviceRecord>, incoming: DeviceRecord) -> nat {
    first_where(set, |existing: DeviceRecord| same_address(existing, incoming))
}

/// The position of the record that the sighting belongs to, or `set.len()`
/// where there is none. The hardware address counts first: the record is the
/// first one with the hardware address of the sighting, and only where no
/// record has it the first one with its address.
pub open spec fn match_index(set: Seq<DeviceRecord>, incoming: DeviceRecord) -> nat {
    if hardware_index(set, incoming) < set.len() {
        hardware_index(set, incoming)
    } else {
        address_index(set, incoming)
    }
}

/// The set after one sighting: taken in by the record it belongs to, or
/// added at the end as a new record.
pub open spec fn merge_one(set: Seq<DeviceRecord>, incoming: DeviceRecord) -> Seq<DeviceRecord> {
    let i = match_index(set, incoming) as int;
    if i < set.len() {
        set.update(i, absorb(set[i], incoming))
    } else {
        set.push(incoming)
    }
}

/// The set after a list of sightings, taken one after the other.
pub open spec fn merge_all(set: Seq<DeviceRecord>, incoming: Seq<DeviceRecord>) -> Seq<
    DeviceRecord,
>
    decreases incoming.len(),
{
    if incoming.len() == 0 {
        set
    } else {
        merge_one(merge_all(set, incoming.drop_last()), incoming.last())
    }
}

/// `hardware_index` is the first position that has the hardware address.
pub proof fn lemma_hardware_index(set: Seq<DeviceRecord>, incoming: DeviceRecord)
    ensures
        hardware_index(set, incoming) <= set.len(),
        forall|j: int|
            0 <= j < hardware_index(set, incoming) ==> !same_hardware(#[trigger] set[j], incoming),
        hardware_index(set, incoming) < set.len() ==> same_hardware(
            set[hardware_index(set, incoming) as int],
            incoming,
        ),
{
    lemma_first_where(set, |existing: DeviceRecord| same_hardware(existing, incoming));
}

/// A position that has the hardware address, or the length, with none
/// before it that has it, is `hardware_index`.
pub proof fn lemma_hardware_index_is(set: Seq<DeviceRecord>, incoming: DeviceRecord, k: int)
    requires
        0 <= k <= set.len(),
        forall|j: int| 0 <= j < k ==> !same_hardware(#[trigger] set[j], incoming),
        k < set.len() ==> same_hardware(set[k], incoming),
    ensures
        hardware_index(set, incoming) == k,
{
    lemma_first_where_is(set, |existing: DeviceRecord| same_hardware(existing, incoming), k);
}

/// `address_index` is the first position that has the address.
pub proof fn lemma_address_index(set: Seq<DeviceRecord>, incoming: DeviceRecord)
    ensures
        address_index(set, incoming) <= set.len(),
        forall|j: int|
            0 <= j < address_index(set, incoming) ==> !same_address(#[trigger] set[j], incoming),
        address_index(set, incoming) < set.len() ==> same_address(
            set[address_index(set, incoming) as int],
            incoming,
        ),
{
    lemma_first_where(set, |existing: DeviceRecord| same_address(existing, incoming));
}

/// A position that has the address, or the length, with none before it
/// that has it, is `address_index`.
pub proof fn lemma_address_index_is(set: Seq<DeviceRecord>, incoming: DeviceRecord, k: int)
    requires
        0 <= k <= set.len(),
        forall|j: int| 0 <= j < k ==> !same_address(#[trigger] set[j], incoming),
        k < set.len() ==> same_address(set[k], incoming),
    ensures
        address_index(set, incoming) == k,
{
    lemma_first_where_is(set, |existing: DeviceRecord| same_address(existing, incoming), k);
}

/// The record at `match_index` is one that the sighting belongs to, and
/// where `match_index` is the length, the sighting belongs to none.
pub proof fn lemma_match_index(set: Seq<DeviceRecord>, incoming: DeviceRecord)
    ensures
        match_index(set, incoming) <= set.len(),
        match_index(set, incoming) < set.len() ==> same_device(
            set[match_index(set, incoming) as int],
            incoming,
        ),
        match_index(set, incoming) == set.len() ==> forall|j: int|
            0 <= j < set.len() ==> !same_device(#[trigger] set[j], incoming),
{
    lemma_hardware_index(set, incoming);
    lemma_address_index(set, incoming);
}

/// Whether the sighting names the hardware address of the record.
pub fn has_hardware_of(existing: &NetworkDevice, incoming: &NetworkDevice) -> (r: bool)
    ensures
        r == same_hardware(existing@, incoming@),
{
    !incoming.mac.as_str().is_empty() && existing.mac == incoming.mac
}

/// Whether the sighting names the address of the record.
pub fn has_address_of(existing: &NetworkDevice, incoming: &NetworkDevice) -> (r: bool)
    ensures
        r == same_address(existing@, incoming@),
{
    existing.ip == incoming.ip
}

/// Whether the sighting `incoming` belongs to the record `existing`.
pub fn belongs_to(existing: &NetworkDevice, incoming: &NetworkDevice) -> (r: bool)
    ensures
        r == same_device(existing@, incoming@),
{
    has_address_of(existing, incoming) || has_hardware_of(existing, incoming)
}

/// The position of the record that the sighting belongs to, or the number
/// of records where it belongs to none.
pub fn find_record(existing: &Vec<NetworkDevice>, incoming: &NetworkDevice) -> (i: usize)
    ensures
        i == match_index(records(existing@), incoming@),
        i <= existing.len(),
{
    let n = existing.len();
    let mut h: usize = 0;
    while h < n && !has_hardware_of(&existing[h], incoming)
        invariant
            h <= n == existing.len(),
            forall|k: int| 0 <= k < h ==> !same_hardware(#[trigger] records(existing@)[k], incoming@),
        decreases n - h,
    {
        h += 1;
    }
    proof {
        lemma_hardware_index_is(records(existing@), incoming@, h as int);
    }
    if h < n {
        return h;
    }
    let mut a: usize = 0;
    while a < n && !has_address_of(&existing[a], incoming)
        invariant
            a <= n == existing.len(),
            forall|k: int| 0 <= k < a ==> !same_address(#[trigger] records(existing@)[k], incoming@),
        decreases n - a,
    {
        a += 1;
    }
    proof {
        lemma_address_index_is(records(existing@), incoming@, a as int);
    }
    a
}

/// Whether `s` is the word for a maker or a kind that nobody has told yet.
pub fn is_unknown(s: &String) -> (r: bool)
    ensures
        r == (s@ == unknown()),
{
    let word = "Unknown".to_owned();
    *s == word
}

/// Takes one sighting into the set: the record that it belongs to absorbs
/// it; where there is none, it becomes a new record at the end.
pub fn merge_device(existing: &mut Vec<NetworkDevice>, incoming: NetworkDevice)
    ensures
        records(final(existing)@) == merge_one(records(old(existing)@), incoming@),
{
    let n = existing.len();
    let j = find_record(existing, &incoming);
    let ghost before = records(existing@);
    if j < n {
        if existing[j].mac.as_str().is_empty() {
            existing[j].mac = incoming.mac;
        }
        if existing[j].hostname.as_str().is_empty() {
            existing[j].hostname = incoming.hostname;
        }
        if is_unknown(&existing[j].vendor) {
            existing[j].vendor = incoming.vendor;
        }
        if is_unknown(&existing[j].device_type) {
            existing[j].device_type = incoming.device_type;
        }
        if existing[j].os.as_str().is_empty() {
            existing[j].os = incoming.os;
        }
        if incoming.last_seen > existing[j].last_seen {
            existing[j].last_seen = incoming.last_seen;
        }
        assert(records(existing@) =~= before.update(j as int, absorb(before[j as int], incoming@)));
    } else {
        existing.push(incoming);
        assert(records(existing@) =~= before.push(incoming@));
    }
}

/// Takes a list of sightings into the set, one after the other in the order
/// of the list. Every record that was in the set stays in its place and
/// loses nothing that was known of it; a set that had one record for each
/// identity still has.
pub fn merge_devices(existing: &mut Vec<NetworkDevice>, new_devices: Vec<NetworkDevice>)
    ensures
        records(final(existing)@) == merge_all(records(old(existing)@), records(new_devices@)),
        final(existing).len() >= old(existing).len(),
        forall|k: int|
            0 <= k < old(existing).len() ==> only_filled(
                records(old(existing)@)[k],
                #[trigger] records(final(existing)@)[k],
            ),
        distinct_identities(records(old(existing)@)) ==> distinct_identities(
            records(final(existing)@),
        ),
{
    proof {
        lemma_merge_fills_only(records(old(existing)@), records(new_devices@));
        if distinct_identities(records(old(existing)@)) {
            lemma_merge_distinct(records(old(existing)@), records(new_devices@));
        }
    }
    let mut i: usize = 0;
    proof {
        assert(records(new_devices@).subrange(0, 0) =~= Seq::<DeviceRecord>::empty());
    }
    while i < new_devices.len()
        invariant
            i <= new_devices.len(),
            records(existing@) == merge_all(
                records(old(existing)@),
                records(new_devices@).subrange(0, i as int),
            ),
        decreases new_devices.len() - i,
    {
        let incoming = new_devices[i].clone();
        proof {
            let seen = records(new_devices@).subrange(0, i + 1);
            assert(seen.drop_last() =~= records(new_devices@).subrange(0, i as int));
            assert(seen.last() == incoming@);
        }
        merge_device(existing, incoming);
        i += 1;
    }
    proof {
        assert(records(new_devices@).subrange(0, new_devices.len() as int) =~= records(
            new_devices@,
        ));
    }
}

} // verus!
