//! What holds of a discovery pass whatever the sources gave.

use crate::arp::arp_records;
use crate::device::DeviceRecord;
use crate::dhcp::lease_records;
use crate::discovery::{discovered, gathered, local_set, ssdp_records, SourceTexts};
use crate::enrich::ResolvedNames;
use crate::merge::{
    address_index, hardware_index, lemma_address_index, lemma_address_index_is,
    lemma_hardware_index, lemma_hardware_index_is, match_index, merge_all, merge_one,
    same_address, same_hardware,
};
use crate::split::lines_of;
use vstd::prelude::*;

verus! {

/// The two records agree in everything but the times of first and last
/// sighting.
pub open spec fn same_but_time(a: DeviceRecord, b: DeviceRecord) -> bool {
    &&& a.ip == b.ip
    &&& a.mac == b.mac
    &&& a.hostname == b.hostname
    &&& a.vendor == b.vendor
    &&& a.device_type == b.device_type
    &&& a.status == b.status
    &&& a.tags == b.tags
    &&& a.notes == b.notes
    &&& a.os == b.os
}

/// The two sets hold as many records, and agree record by record in
/// everything but the times.
pub open spec fn same_but_times(a: Seq<DeviceRecord>, b: Seq<DeviceRecord>) -> bool {
    a.len() == b.len() && forall|i: int|
        0 <= i < a.len() ==> same_but_time(#[trigger] a[i], #[trigger] b[i])
}

proof fn lemma_arp_records_timeless(lines: Seq<Seq<char>>, now1: u64, now2: u64)
    ensures
        same_but_times(arp_records(lines, now1), arp_records(lines, now2)),
    decreases lines.len(),
{
    if lines.len() > 0 {
        lemma_arp_records_timeless(lines.drop_last(), now1, now2);
    }
}

proof fn lemma_merge_one_timeless(
    set1: Seq<DeviceRecord>,
    set2: Seq<DeviceRecord>,
    o1: DeviceRecord,
    o2: DeviceRecord,
)
    requires
        same_but_times(set1, set2),
        same_but_time(o1, o2),
    ensures
        same_but_times(merge_one(set1, o1), merge_one(set2, o2)),
{
    let h = hardware_index(set1, o1) as int;
    lemma_hardware_index(set1, o1);
    assert forall|j: int| 0 <= j < h implies !same_hardware(#[trigger] set2[j], o2) by {
        assert(same_but_time(set1[j], set2[j]));
        assert(!same_hardware(set1[j], o1));
    }
    if h < set1.len() {
        assert(same_but_time(set1[h], set2[h]));
    }
    lemma_hardware_index_is(set2, o2, h);
    let k = address_index(set1, o1) as int;
    lemma_address_index(set1, o1);
    assert forall|j: int| 0 <= j < k implies !same_address(#[trigger] set2[j], o2) by {
        assert(same_but_time(set1[j], set2[j]));
        assert(!same_address(set1[j], o1));
    }
    if k < set1.len() {
        assert(same_but_time(set1[k], set2[k]));
    }
    lemma_address_index_is(set2, o2, k);
    assert(match_index(set1, o1) == match_index(set2, o2));
    let a = merge_one(set1, o1);
    let b = merge_one(set2, o2);
    assert forall|i: int| 0 <= i < a.len() implies same_but_time(#[trigger] a[i], #[trigger] b[i]) by {
        if i < set1.len() {
            assert(same_but_time(set1[i], set2[i]));
        }
    }
}

proof fn lemma_merge_all_timeless(
    set1: Seq<DeviceRecord>,
    set2: Seq<DeviceRecord>,
    in1: Seq<DeviceRecord>,
    in2: Seq<DeviceRecord>,
)
    requires
        same_but_times(set1, set2),
        same_but_times(in1, in2),
    ensures
        same_but_times(merge_all(set1, in1), merge_all(set2, in2)),
    decreases in1.len(),
{
    if in1.len() > 0 {
        let a = in1.drop_last();
        let b = in2.drop_last();
        assert forall|i: int| 0 <= i < a.len() implies same_but_time(#[trigger] a[i], #[trigger] b[i]) by {
            assert(same_but_time(in1[i], in2[i]));
        }
        lemma_merge_all_timeless(set1, set2, a, b);
        assert(same_but_time(in1[in1.len() - 1], in2[in2.len() - 1]));
        lemma_merge_one_timeless(merge_all(set1, a), merge_all(set2, b), in1.last(), in2.last());
    }
}

/// A pass run again on the same source data gives the same inventory, but
/// for the times of sighting: as many records, in the same order, with the
/// same value in every other field.
pub proof fn lemma_discover_idempotent(
    sources: SourceTexts,
    names: Seq<ResolvedNames>,
    now1: u64,
    now2: u64,
)
    ensures
        same_but_times(discovered(sources, names, now1), discovered(sources, names, now2)),
{
    let empty = Seq::<DeviceRecord>::empty();
    let arp1 = arp_records(lines_of(sources.arp_table), now1);
    let arp2 = arp_records(lines_of(sources.arp_table), now2);
    lemma_arp_records_timeless(lines_of(sources.arp_table), now1, now2);
    lemma_merge_all_timeless(empty, empty, arp1, arp2);
    let lease1 = lease_records(sources.interface_config, now1);
    let lease2 = lease_records(sources.interface_config, now2);
    assert(same_but_times(lease1, lease2));
    lemma_merge_all_timeless(merge_all(empty, arp1), merge_all(empty, arp2), lease1, lease2);
    let ssdp1 = ssdp_records(sources.ssdp_replies, now1);
    let ssdp2 = ssdp_records(sources.ssdp_replies, now2);
    assert(same_but_times(ssdp1, ssdp2));
    lemma_merge_all_timeless(
        local_set(sources.arp_table, sources.interface_config, now1),
        local_set(sources.arp_table, sources.interface_config, now2),
        ssdp1,
        ssdp2,
    );
    let g1 = gathered(sources, now1);
    let g2 = gathered(sources, now2);
    let d1 = discovered(sources, names, now1);
    let d2 = discovered(sources, names, now2);
    assert forall|i: int| 0 <= i < d1.len() implies same_but_time(#[trigger] d1[i], #[trigger] d2[i]) by {
        assert(same_but_time(g1[i], g2[i]));
    }
}

} // verus!
