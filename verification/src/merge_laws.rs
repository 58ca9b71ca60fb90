//! What holds of the merge engine whatever it is fed.

use crate::device::DeviceRecord;
use crate::merge::{
    absorb, address_index, hardware_index, lemma_address_index, lemma_address_index_is,
    lemma_hardware_index, lemma_hardware_index_is, lemma_match_index, match_index, merge_all,
    merge_one, same_address, same_device, same_hardware, unknown,
};
use vstd::prelude::*;

verus! {

// ---------------------------------------------------------------------------
// One record for each identity
// ---------------------------------------------------------------------------

/// Two records that stand for one device: the same address, or the same
/// hardware address where one is known.
pub open spec fn shares_identity(a: DeviceRecord, b: DeviceRecord) -> bool {
    a.ip == b.ip || (a.mac.len() > 0 && a.mac == b.mac)
}

/// No two records of the set stand for one device.
pub open spec fn distinct_identities(set: Seq<DeviceRecord>) -> bool {
    forall|i: int, j: int|
        0 <= i < j < set.len() ==> !shares_identity(#[trigger] set[i], #[trigger] set[j])
}

/// A record that absorbs a sighting keeps its address, and its hardware
/// address where it has one.
pub proof fn lemma_absorb_keeps_identity(existing: DeviceRecord, incoming: DeviceRecord)
    ensures
        absorb(existing, incoming).ip == existing.ip,
        existing.mac.len() > 0 ==> absorb(existing, incoming).mac == existing.mac,
{
}

/// A set with one record for each identity still has one for each after a
/// sighting is merged into it. A hardware address is filled in only where
/// no record has it yet, for a record with it would have been the one to
/// take the sighting.
pub proof fn lemma_merge_one_distinct(set: Seq<DeviceRecord>, incoming: DeviceRecord)
    requires
        distinct_identities(set),
    ensures
        distinct_identities(merge_one(set, incoming)),
{
    lemma_hardware_index(set, incoming);
    lemma_address_index(set, incoming);
    let m = match_index(set, incoming) as int;
    let after = merge_one(set, incoming);
    assert forall|i: int, j: int| 0 <= i < j < after.len() implies !shares_identity(
        #[trigger] after[i],
        #[trigger] after[j],
    ) by {
        if m < set.len() {
            assert(!shares_identity(set[i], set[j]));
            if hardware_index(set, incoming) >= set.len() {
                assert(!same_hardware(set[i], incoming));
                assert(!same_hardware(set[j], incoming));
            }
        } else if j < set.len() {
            assert(!shares_identity(set[i], set[j]));
        } else {
            assert(!same_hardware(set[i], incoming));
            assert(!same_address(set[i], incoming));
        }
    }
}

/// Within a pass there is at most one record for each address and for each
/// known hardware address: merging never breaks that.
pub proof fn lemma_merge_distinct(set: Seq<DeviceRecord>, incoming: Seq<DeviceRecord>)
    requires
        distinct_identities(set),
    ensures
        distinct_identities(merge_all(set, incoming)),
    decreases incoming.len(),
{
    if incoming.len() > 0 {
        lemma_merge_distinct(set, incoming.drop_last());
        lemma_merge_one_distinct(merge_all(set, incoming.drop_last()), incoming.last());
    }
}

// ---------------------------------------------------------------------------
// Fill only
// ---------------------------------------------------------------------------

/// `after` is `before` with nothing known taken away: the same address, the
/// same first sighting, status, tags and notes; a hardware address, host
/// name, maker, kind or platform that was known is unchanged; the last
/// sighting is no earlier.
pub open spec fn only_filled(before: DeviceRecord, after: DeviceRecord) -> bool {
    &&& after.ip == before.ip
    &&& after.first_seen == before.first_seen
    &&& after.status == before.status
    &&& after.tags == before.tags
    &&& after.notes == before.notes
    &&& before.mac.len() > 0 ==> after.mac == before.mac
    &&& before.hostname.len() > 0 ==> after.hostname == before.hostname
    &&& before.vendor != unknown() ==> after.vendor == before.vendor
    &&& before.device_type != unknown() ==> after.device_type == before.device_type
    &&& before.os.len() > 0 ==> after.os == before.os
    &&& after.last_seen >= before.last_seen
}

/// Filling only is passed on: what was filled and then filled again was
/// only filled.
pub proof fn lemma_only_filled_twice(a: DeviceRecord, b: DeviceRecord, c: DeviceRecord)
    requires
        only_filled(a, b),
        only_filled(b, c),
    ensures
        only_filled(a, c),
{
}

/// Merging never removes a record and never overwrites a known field: every
/// record of the set is still in its place, with nothing but gaps filled.
pub proof fn lemma_merge_fills_only(set: Seq<DeviceRecord>, incoming: Seq<DeviceRecord>)
    ensures
        merge_all(set, incoming).len() >= set.len(),
        forall|k: int|
            0 <= k < set.len() ==> only_filled(set[k], #[trigger] merge_all(set, incoming)[k]),
    decreases incoming.len(),
{
    if incoming.len() > 0 {
        let mid = merge_all(set, incoming.drop_last());
        lemma_merge_fills_only(set, incoming.drop_last());
        lemma_match_index(mid, incoming.last());
        assert forall|k: int| 0 <= k < set.len() implies only_filled(
            set[k],
            #[trigger] merge_all(set, incoming)[k],
        ) by {
            assert(only_filled(set[k], mid[k]));
            assert(only_filled(mid[k], merge_all(set, incoming)[k]));
            lemma_only_filled_twice(set[k], mid[k], merge_all(set, incoming)[k]);
        }
    }
}

/// A sighting merged a second time changes nothing: whatever it had to
/// tell was taken in the first time.
pub proof fn lemma_merge_again(set: Seq<DeviceRecord>, incoming: DeviceRecord)
    ensures
        merge_one(merge_one(set, incoming), incoming) == merge_one(set, incoming),
{
    let h = hardware_index(set, incoming) as int;
    let a = address_index(set, incoming) as int;
    let i = match_index(set, incoming) as int;
    let once = merge_one(set, incoming);
    lemma_hardware_index(set, incoming);
    lemma_address_index(set, incoming);
    if h < set.len() {
        assert forall|j: int| 0 <= j < h implies !same_hardware(#[trigger] once[j], incoming) by {
            assert(once[j] == set[j]);
        }
        lemma_hardware_index_is(once, incoming, h);
    } else if incoming.mac.len() > 0 && (a >= set.len() || set[a].mac.len() == 0) {
        assert forall|j: int| 0 <= j < a implies !same_hardware(#[trigger] once[j], incoming) by {
            assert(once[j] == set[j]);
        }
        lemma_hardware_index_is(once, incoming, a);
    } else {
        assert forall|j: int| 0 <= j < once.len() implies !same_hardware(
            #[trigger] once[j],
            incoming,
        ) by {
            if j < set.len() && j != a {
                assert(once[j] == set[j]);
            }
        }
        lemma_hardware_index_is(once, incoming, once.len() as int);
        assert forall|j: int| 0 <= j < a implies !same_address(#[trigger] once[j], incoming) by {
            assert(once[j] == set[j]);
        }
        lemma_address_index_is(once, incoming, a);
    }
    assert(match_index(once, incoming) == i);
    assert(merge_one(once, incoming) =~= once);
}

// ---------------------------------------------------------------------------
// Order of the sightings
// ---------------------------------------------------------------------------

/// Two texts do not contradict each other: they are the same, or one of
/// them is empty.
pub open spec fn agree(a: Seq<char>, b: Seq<char>) -> bool {
    a == b || a.len() == 0 || b.len() == 0
}

/// Two names do not contradict each other: they are the same, or one of
/// them is the word for what nobody has told yet.
pub open spec fn agree_named(a: Seq<char>, b: Seq<char>) -> bool {
    a == b || a == unknown() || b == unknown()
}

/// Two sightings of one device that do not conflict: they name the same
/// address, and what one tells of the hardware address, the host name, the
/// maker, the kind and the platform, the other tells too or leaves open.
pub open spec fn compatible(a: DeviceRecord, b: DeviceRecord) -> bool {
    &&& a.ip == b.ip
    &&& agree(a.mac, b.mac)
    &&& agree(a.hostname, b.hostname)
    &&& agree_named(a.vendor, b.vendor)
    &&& agree_named(a.device_type, b.device_type)
    &&& agree(a.os, b.os)
}

/// The sightings do not conflict: whenever two of them share an address or
/// a hardware address, they are sightings of one device that do not
/// conflict. Sightings of separate devices never conflict.
pub open spec fn consistent(sightings: Seq<DeviceRecord>) -> bool {
    forall|i: int, j: int|
        0 <= i < sightings.len() && 0 <= j < sightings.len() && same_device(
            #[trigger] sightings[i],
            #[trigger] sightings[j],
        ) ==> compatible(sightings[i], sightings[j])
}

/// The two records tell the same of a device: the same address, hardware
/// address, host name, maker, kind and platform, and the same time last
/// seen. The first sighting, the status, the tags and the notes are those of
/// whichever sighting came first, and are not compared.
pub open spec fn same_facts(a: DeviceRecord, b: DeviceRecord) -> bool {
    &&& a.ip == b.ip
    &&& a.mac == b.mac
    &&& a.hostname == b.hostname
    &&& a.vendor == b.vendor
    &&& a.device_type == b.device_type
    &&& a.os == b.os
    &&& a.last_seen == b.last_seen
}

/// Some record of the set tells the same as `r`.
pub open spec fn tells(set: Seq<DeviceRecord>, r: DeviceRecord) -> bool {
    exists|k: int| 0 <= k < set.len() && same_facts(#[trigger] set[k], r)
}

/// The two sets tell the same: they hold as many records, and every record
/// of one has a record in the other that tells the same.
pub open spec fn same_devices(a: Seq<DeviceRecord>, b: Seq<DeviceRecord>) -> bool {
    &&& a.len() == b.len()
    &&& forall|k: int| 0 <= k < a.len() ==> tells(b, #[trigger] a[k])
    &&& forall|k: int| 0 <= k < b.len() ==> tells(a, #[trigger] b[k])
}

/// Sightings that do not conflict still do not conflict when some of them
/// are left out, repeated or put in another order.
pub proof fn lemma_consistent_part(sightings: Seq<DeviceRecord>, part: Seq<DeviceRecord>)
    requires
        consistent(sightings),
        forall|i: int| 0 <= i < part.len() ==> sightings.contains(#[trigger] part[i]),
    ensures
        consistent(part),
{
    assert forall|i: int, j: int|
        0 <= i < part.len() && 0 <= j < part.len() && same_device(
            #[trigger] part[i],
            #[trigger] part[j],
        ) implies compatible(part[i], part[j]) by {
        assert(sightings.contains(part[i]));
        assert(sightings.contains(part[j]));
        let a = choose|a: int| 0 <= a < sightings.len() && sightings[a] == part[i];
        let b = choose|b: int| 0 <= b < sightings.len() && sightings[b] == part[j];
        assert(same_device(sightings[a], sightings[b]));
    }
}

/// What the sightings at the address `ip` add up to, taken in their order:
/// the first of them, with each later one absorbed. Nothing where no
/// sighting is at that address.
pub open spec fn summed(sightings: Seq<DeviceRecord>, ip: Seq<char>) -> Option<DeviceRecord>
    decreases sightings.len(),
{
    if sightings.len() == 0 {
        None
    } else if sightings.last().ip != ip {
        summed(sightings.drop_last(), ip)
    } else {
        match summed(sightings.drop_last(), ip) {
            Some(r) => Some(absorb(r, sightings.last())),
            None => Some(sightings.last()),
        }
    }
}

/// Some sighting is at the address `ip`.
spec fn seen_at(sightings: Seq<DeviceRecord>, ip: Seq<char>) -> bool {
    exists|i: int| 0 <= i < sightings.len() && (#[trigger] sightings[i]).ip == ip
}

/// Some sighting at the address of `r` tells each single thing that `r`
/// tells.
spec fn told_by(sightings: Seq<DeviceRecord>, r: DeviceRecord) -> bool {
    &&& exists|i: int|
        0 <= i < sightings.len() && (#[trigger] sightings[i]).ip == r.ip && sightings[i].mac == r.mac
    &&& exists|i: int|
        0 <= i < sightings.len() && (#[trigger] sightings[i]).ip == r.ip && sightings[i].hostname
            == r.hostname
    &&& exists|i: int|
        0 <= i < sightings.len() && (#[trigger] sightings[i]).ip == r.ip && sightings[i].vendor
            == r.vendor
    &&& exists|i: int|
        0 <= i < sightings.len() && (#[trigger] sightings[i]).ip == r.ip && sightings[i].device_type
            == r.device_type
    &&& exists|i: int|
        0 <= i < sightings.len() && (#[trigger] sightings[i]).ip == r.ip && sightings[i].os == r.os
    &&& exists|i: int|
        0 <= i < sightings.len() && (#[trigger] sightings[i]).ip == r.ip && sightings[i].last_seen
            == r.last_seen
}

/// The sighting tells nothing against `r`: what it tells, `r` tells too, and
/// it was seen no later.
spec fn within(o: DeviceRecord, r: DeviceRecord) -> bool {
    &&& o.mac.len() > 0 ==> r.mac == o.mac
    &&& o.hostname.len() > 0 ==> r.hostname == o.hostname
    &&& o.vendor != unknown() ==> r.vendor == o.vendor
    &&& o.device_type != unknown() ==> r.device_type == o.device_type
    &&& o.os.len() > 0 ==> r.os == o.os
    &&& o.last_seen <= r.last_seen
}

/// The sum of the sightings at an address is at that address, exists
/// exactly where some sighting is there, tells only what some sighting
/// there tells, and tells all that any sighting there tells.
proof fn lemma_summed(sightings: Seq<DeviceRecord>, ip: Seq<char>)
    requires
        consistent(sightings),
    ensures
        summed(sightings, ip) is Some <==> seen_at(sightings, ip),
        summed(sightings, ip) matches Some(r) ==> r.ip == ip && told_by(sightings, r) && forall|
            i: int,
        |
            0 <= i < sightings.len() && (#[trigger] sightings[i]).ip == ip ==> within(
                sightings[i],
                r,
            ),
    decreases sightings.len(),
{
    if sightings.len() > 0 {
        let n = sightings.len() as int;
        let init = sightings.drop_last();
        let o = sightings.last();
        assert(o == sightings[n - 1]);
        lemma_consistent_part(sightings, init);
        lemma_summed(init, ip);
        if seen_at(init, ip) {
            let i = choose|i: int| 0 <= i < init.len() && (#[trigger] init[i]).ip == ip;
            assert(sightings[i].ip == ip);
        }
        if seen_at(sightings, ip) && o.ip != ip {
            let i = choose|i: int| 0 <= i < sightings.len() && (#[trigger] sightings[i]).ip == ip;
            assert(init[i].ip == ip);
        }
        if o.ip != ip {
            if summed(init, ip) is Some {
                let r = summed(init, ip)->0;
                lemma_told_by_more(init, sightings, r);
                assert forall|i: int|
                    0 <= i < sightings.len() && (#[trigger] sightings[i]).ip == ip implies within(
                    sightings[i],
                    r,
                ) by {
                    assert(init[i] == sightings[i]);
                }
            }
        } else {
            assert(sightings[n - 1].ip == ip);
            match summed(init, ip) {
                None => {
                    assert forall|i: int|
                        0 <= i < sightings.len() && (#[trigger] sightings[i]).ip
                            == ip implies within(sightings[i], o) by {
                        if i < n - 1 {
                            assert(init[i].ip == ip);
                        }
                    }
                },
                Some(r0) => {
                    let r = absorb(r0, o);
                    lemma_told_by_more(init, sightings, r0);
                    lemma_told_by_absorbed(sightings, r0, o);
                    assert forall|i: int|
                        0 <= i < sightings.len() && (#[trigger] sightings[i]).ip
                            == ip implies within(sightings[i], r) by {
                        assert(compatible(sightings[i], sightings[n - 1]));
                        if i < n - 1 {
                            assert(init[i] == sightings[i]);
                            assert(within(init[i], r0));
                            lemma_stays_within(sightings[i], r0, o);
                        } else {
                            lemma_last_within(sightings, r0, o);
                        }
                    }
                },
            }
        }
    }
}

/// What some sighting of a list tells, some sighting of a longer list
/// tells.
proof fn lemma_told_by_more(
    init: Seq<DeviceRecord>,
    sightings: Seq<DeviceRecord>,
    r: DeviceRecord,
)
    requires
        sightings.len() > 0,
        init == sightings.drop_last(),
        told_by(init, r),
    ensures
        told_by(sightings, r),
{
    let a = choose|i: int| 0 <= i < init.len() && (#[trigger] init[i]).ip == r.ip && init[i].mac == r.mac;
    assert(sightings[a] == init[a]);
    let b = choose|i: int|
        0 <= i < init.len() && (#[trigger] init[i]).ip == r.ip && init[i].hostname == r.hostname;
    assert(sightings[b] == init[b]);
    let c = choose|i: int|
        0 <= i < init.len() && (#[trigger] init[i]).ip == r.ip && init[i].vendor == r.vendor;
    assert(sightings[c] == init[c]);
    let d = choose|i: int|
        0 <= i < init.len() && (#[trigger] init[i]).ip == r.ip && init[i].device_type
            == r.device_type;
    assert(sightings[d] == init[d]);
    let e = choose|i: int| 0 <= i < init.len() && (#[trigger] init[i]).ip == r.ip && init[i].os == r.os;
    assert(sightings[e] == init[e]);
    let f = choose|i: int|
        0 <= i < init.len() && (#[trigger] init[i]).ip == r.ip && init[i].last_seen == r.last_seen;
    assert(sightings[f] == init[f]);
}

/// What a record tells after it absorbed the last sighting, the record told
/// before or the last sighting tells.
proof fn lemma_told_by_absorbed(sightings: Seq<DeviceRecord>, r0: DeviceRecord, o: DeviceRecord)
    requires
        sightings.len() > 0,
        o == sightings.last(),
        o.ip == r0.ip,
        told_by(sightings, r0),
    ensures
        told_by(sightings, absorb(r0, o)),
{
    let n = sightings.len() as int;
    let r = absorb(r0, o);
    assert(sightings[n - 1] == o);
    let a = choose|i: int|
        0 <= i < sightings.len() && (#[trigger] sightings[i]).ip == r0.ip && sightings[i].mac
            == r0.mac;
    let a2 = if r.mac == r0.mac { a } else { n - 1 };
    assert(sightings[a2].ip == r.ip && sightings[a2].mac == r.mac);
    let b = choose|i: int|
        0 <= i < sightings.len() && (#[trigger] sightings[i]).ip == r0.ip && sightings[i].hostname
            == r0.hostname;
    let b2 = if r.hostname == r0.hostname { b } else { n - 1 };
    assert(sightings[b2].ip == r.ip && sightings[b2].hostname == r.hostname);
    let c = choose|i: int|
        0 <= i < sightings.len() && (#[trigger] sightings[i]).ip == r0.ip && sightings[i].vendor
            == r0.vendor;
    let c2 = if r.vendor == r0.vendor { c } else { n - 1 };
    assert(sightings[c2].ip == r.ip && sightings[c2].vendor == r.vendor);
    let d = choose|i: int|
        0 <= i < sightings.len() && (#[trigger] sightings[i]).ip == r0.ip && sightings[i].device_type
            == r0.device_type;
    let d2 = if r.device_type == r0.device_type { d } else { n - 1 };
    assert(sightings[d2].ip == r.ip && sightings[d2].device_type == r.device_type);
    let e = choose|i: int|
        0 <= i < sightings.len() && (#[trigger] sightings[i]).ip == r0.ip && sightings[i].os == r0.os;
    let e2 = if r.os == r0.os { e } else { n - 1 };
    assert(sightings[e2].ip == r.ip && sightings[e2].os == r.os);
    let f = choose|i: int|
        0 <= i < sightings.len() && (#[trigger] sightings[i]).ip == r0.ip && sightings[i].last_seen
            == r0.last_seen;
    let f2 = if r.last_seen == r0.last_seen { f } else { n - 1 };
    assert(sightings[f2].ip == r.ip && sightings[f2].last_seen == r.last_seen);
}

/// A sighting that told nothing against a record tells nothing against it
/// after the record absorbed another sighting.
proof fn lemma_stays_within(x: DeviceRecord, r0: DeviceRecord, o: DeviceRecord)
    requires
        within(x, r0),
    ensures
        within(x, absorb(r0, o)),
{
    reveal_strlit("Unknown");
}

/// The last sighting tells nothing against the record that absorbed it,
/// provided it agrees with every sighting that the record sums up.
proof fn lemma_last_within(sightings: Seq<DeviceRecord>, r0: DeviceRecord, o: DeviceRecord)
    requires
        consistent(sightings),
        sightings.len() > 0,
        o == sightings.last(),
        o.ip == r0.ip,
        told_by(sightings, r0),
    ensures
        within(o, absorb(r0, o)),
{
    let n = sightings.len() as int;
    assert(sightings[n - 1] == o);
    let a = choose|i: int|
        0 <= i < sightings.len() && (#[trigger] sightings[i]).ip == r0.ip && sightings[i].mac
            == r0.mac;
    assert(compatible(sightings[a], sightings[n - 1]));
    let b = choose|i: int|
        0 <= i < sightings.len() && (#[trigger] sightings[i]).ip == r0.ip && sightings[i].hostname
            == r0.hostname;
    assert(compatible(sightings[b], sightings[n - 1]));
    let c = choose|i: int|
        0 <= i < sightings.len() && (#[trigger] sightings[i]).ip == r0.ip && sightings[i].vendor
            == r0.vendor;
    assert(compatible(sightings[c], sightings[n - 1]));
    let d = choose|i: int|
        0 <= i < sightings.len() && (#[trigger] sightings[i]).ip == r0.ip && sightings[i].device_type
            == r0.device_type;
    assert(compatible(sightings[d], sightings[n - 1]));
    let e = choose|i: int|
        0 <= i < sightings.len() && (#[trigger] sightings[i]).ip == r0.ip && sightings[i].os == r0.os;
    assert(compatible(sightings[e], sightings[n - 1]));
}

/// Some record of the set is at the address `ip`.
spec fn held_at(set: Seq<DeviceRecord>, ip: Seq<char>) -> bool {
    exists|k: int| 0 <= k < set.len() && (#[trigger] set[k]).ip == ip
}

/// The set is what the sightings add up to, address by address: one record
/// for each address that was seen, and each record the sum of the sightings
/// at its address.
spec fn sums_up(set: Seq<DeviceRecord>, sightings: Seq<DeviceRecord>) -> bool {
    &&& forall|a: int, b: int|
        0 <= a < b < set.len() ==> (#[trigger] set[a]).ip != (#[trigger] set[b]).ip
    &&& forall|k: int|
        0 <= k < set.len() ==> summed(sightings, (#[trigger] set[k]).ip) == Some(set[k])
    &&& forall|i: int| 0 <= i < sightings.len() ==> held_at(set, (#[trigger] sightings[i]).ip)
}

/// Merged into the empty set, sightings that do not conflict are grouped by
/// their address, and each group is summed up in its order.
proof fn lemma_merge_sums(sightings: Seq<DeviceRecord>)
    requires
        consistent(sightings),
    ensures
        sums_up(merge_all(Seq::empty(), sightings), sightings),
    decreases sightings.len(),
{
    if sightings.len() > 0 {
        let n = sightings.len() as int;
        let init = sightings.drop_last();
        let o = sightings.last();
        let before = merge_all(Seq::empty(), init);
        let after = merge_all(Seq::empty(), sightings);
        assert(after == merge_one(before, o));
        assert(sightings[n - 1] == o);
        assert forall|i: int| 0 <= i < init.len() implies sightings.contains(
            #[trigger] init[i],
        ) by {
            assert(sightings[i] == init[i]);
        }
        lemma_consistent_part(sightings, init);
        lemma_merge_sums(init);
        lemma_hardware_index(before, o);
        lemma_address_index(before, o);
        lemma_summed(init, o.ip);
        // A record with the hardware address of the sighting is at its
        // address, for some earlier sighting told that hardware address.
        assert forall|j: int| 0 <= j < before.len() && same_hardware(
            #[trigger] before[j],
            o,
        ) implies before[j].ip == o.ip by {
            lemma_summed(init, before[j].ip);
            let i = choose|i: int|
                0 <= i < init.len() && (#[trigger] init[i]).ip == before[j].ip && init[i].mac
                    == before[j].mac;
            assert(sightings[i] == init[i]);
            assert(same_device(sightings[i], sightings[n - 1]));
        }
        if held_at(before, o.ip) {
            let k = choose|k: int| 0 <= k < before.len() && (#[trigger] before[k]).ip == o.ip;
            lemma_address_index_is(before, o, k);
            assert(match_index(before, o) == k);
            assert(after == before.update(k, absorb(before[k], o)));
            assert forall|j: int| 0 <= j < after.len() implies summed(
                sightings,
                (#[trigger] after[j]).ip,
            ) == Some(after[j]) by {
                assert(summed(init, before[j].ip) == Some(before[j]));
            }
            assert forall|i: int| 0 <= i < sightings.len() implies held_at(
                after,
                (#[trigger] sightings[i]).ip,
            ) by {
                if i < n - 1 {
                    assert(init[i] == sightings[i]);
                    let j = choose|j: int|
                        0 <= j < before.len() && (#[trigger] before[j]).ip == init[i].ip;
                    assert(after[j].ip == sightings[i].ip);
                } else {
                    assert(after[k].ip == sightings[i].ip);
                }
            }
        } else {
            assert(match_index(before, o) == before.len());
            assert(after == before.push(o));
            if seen_at(init, o.ip) {
                let i = choose|i: int| 0 <= i < init.len() && (#[trigger] init[i]).ip == o.ip;
                assert(held_at(before, init[i].ip));
            }
            assert forall|j: int| 0 <= j < after.len() implies summed(
                sightings,
                (#[trigger] after[j]).ip,
            ) == Some(after[j]) by {
                if j < before.len() {
                    assert(summed(init, before[j].ip) == Some(before[j]));
                }
            }
            assert forall|i: int| 0 <= i < sightings.len() implies held_at(
                after,
                (#[trigger] sightings[i]).ip,
            ) by {
                if i < n - 1 {
                    assert(init[i] == sightings[i]);
                    let j = choose|j: int|
                        0 <= j < before.len() && (#[trigger] before[j]).ip == init[i].ip;
                    assert(after[j].ip == sightings[i].ip);
                } else {
                    assert(after[before.len() as int].ip == sightings[i].ip);
                }
            }
        }
    }
}

/// The address of each record, in the order of the set.
spec fn addresses(set: Seq<DeviceRecord>) -> Seq<Seq<char>> {
    Seq::new(set.len(), |k: int| set[k].ip)
}

/// Two sets with one record for each address, and with the same addresses,
/// hold as many records.
proof fn lemma_same_count(a: Seq<DeviceRecord>, b: Seq<DeviceRecord>)
    requires
        forall|i: int, j: int| 0 <= i < j < a.len() ==> (#[trigger] a[i]).ip != (#[trigger] a[j]).ip,
        forall|i: int, j: int| 0 <= i < j < b.len() ==> (#[trigger] b[i]).ip != (#[trigger] b[j]).ip,
        forall|k: int| 0 <= k < a.len() ==> held_at(b, (#[trigger] a[k]).ip),
        forall|k: int| 0 <= k < b.len() ==> held_at(a, (#[trigger] b[k]).ip),
    ensures
        a.len() == b.len(),
{
    let x = addresses(a);
    let y = addresses(b);
    assert(x.no_duplicates()) by {
        assert forall|i: int, j: int| 0 <= i < x.len() && 0 <= j < x.len() && i != j implies x[i]
            != x[j] by {
            if i < j {
                assert(a[i].ip != a[j].ip);
            } else {
                assert(a[j].ip != a[i].ip);
            }
        }
    }
    assert(y.no_duplicates()) by {
        assert forall|i: int, j: int| 0 <= i < y.len() && 0 <= j < y.len() && i != j implies y[i]
            != y[j] by {
            if i < j {
                assert(b[i].ip != b[j].ip);
            } else {
                assert(b[j].ip != b[i].ip);
            }
        }
    }
    assert forall|ip: Seq<char>| x.to_set().contains(ip) <==> y.to_set().contains(ip) by {
        if x.contains(ip) {
            let k = choose|k: int| 0 <= k < x.len() && x[k] == ip;
            assert(held_at(b, a[k].ip));
            let j = choose|j: int| 0 <= j < b.len() && (#[trigger] b[j]).ip == a[k].ip;
            assert(y[j] == ip);
        }
        if y.contains(ip) {
            let k = choose|k: int| 0 <= k < y.len() && y[k] == ip;
            assert(held_at(a, b[k].ip));
            let j = choose|j: int| 0 <= j < a.len() && (#[trigger] a[j]).ip == b[k].ip;
            assert(x[j] == ip);
        }
    }
    assert(x.to_set() =~= y.to_set());
    x.unique_seq_to_set();
    y.unique_seq_to_set();
}

/// The two lists hold the same sightings, whatever their order and however
/// often each occurs.
pub open spec fn same_sightings(xs: Seq<DeviceRecord>, ys: Seq<DeviceRecord>) -> bool {
    forall|r: DeviceRecord| xs.contains(r) <==> ys.contains(r)
}

/// The sums of the same sightings at one address tell the same, in
/// whatever order the sightings were summed.
proof fn lemma_summed_same(
    xs: Seq<DeviceRecord>,
    ys: Seq<DeviceRecord>,
    ip: Seq<char>,
    a: DeviceRecord,
    b: DeviceRecord,
)
    requires
        consistent(xs),
        consistent(ys),
        same_sightings(xs, ys),
        summed(xs, ip) == Some(a),
        summed(ys, ip) == Some(b),
    ensures
        same_facts(a, b),
{
    lemma_summed(xs, ip);
    lemma_summed(ys, ip);
    lemma_told_within(xs, ys, a, b);
    lemma_told_within(ys, xs, b, a);
    reveal_strlit("Unknown");
    assert(a.mac =~= b.mac);
    assert(a.hostname =~= b.hostname);
    assert(a.os =~= b.os);
}

/// What a record tells that sums up some of the sightings, a record tells
/// too against which none of them tells anything.
proof fn lemma_told_within(
    xs: Seq<DeviceRecord>,
    ys: Seq<DeviceRecord>,
    a: DeviceRecord,
    b: DeviceRecord,
)
    requires
        same_sightings(xs, ys),
        told_by(xs, a),
        a.ip == b.ip,
        forall|i: int| 0 <= i < ys.len() && (#[trigger] ys[i]).ip == b.ip ==> within(ys[i], b),
    ensures
        a.mac.len() > 0 ==> b.mac == a.mac,
        a.hostname.len() > 0 ==> b.hostname == a.hostname,
        a.vendor != unknown() ==> b.vendor == a.vendor,
        a.device_type != unknown() ==> b.device_type == a.device_type,
        a.os.len() > 0 ==> b.os == a.os,
        a.last_seen <= b.last_seen,
{
    let i = choose|i: int| 0 <= i < xs.len() && (#[trigger] xs[i]).ip == a.ip && xs[i].mac == a.mac;
    lemma_within_of(xs, ys, xs[i], b);
    let i = choose|i: int|
        0 <= i < xs.len() && (#[trigger] xs[i]).ip == a.ip && xs[i].hostname == a.hostname;
    lemma_within_of(xs, ys, xs[i], b);
    let i = choose|i: int|
        0 <= i < xs.len() && (#[trigger] xs[i]).ip == a.ip && xs[i].vendor == a.vendor;
    lemma_within_of(xs, ys, xs[i], b);
    let i = choose|i: int|
        0 <= i < xs.len() && (#[trigger] xs[i]).ip == a.ip && xs[i].device_type == a.device_type;
    lemma_within_of(xs, ys, xs[i], b);
    let i = choose|i: int| 0 <= i < xs.len() && (#[trigger] xs[i]).ip == a.ip && xs[i].os == a.os;
    lemma_within_of(xs, ys, xs[i], b);
    let i = choose|i: int|
        0 <= i < xs.len() && (#[trigger] xs[i]).ip == a.ip && xs[i].last_seen == a.last_seen;
    lemma_within_of(xs, ys, xs[i], b);
}

/// A sighting of the one list is a sighting of the other, and tells nothing
/// against a record against which no sighting of the other tells anything.
proof fn lemma_within_of(
    xs: Seq<DeviceRecord>,
    ys: Seq<DeviceRecord>,
    x: DeviceRecord,
    b: DeviceRecord,
)
    requires
        same_sightings(xs, ys),
        xs.contains(x),
        x.ip == b.ip,
        forall|i: int| 0 <= i < ys.len() && (#[trigger] ys[i]).ip == b.ip ==> within(ys[i], b),
    ensures
        within(x, b),
{
    assert(ys.contains(x));
    let j = choose|j: int| 0 <= j < ys.len() && ys[j] == x;
    assert(within(ys[j], b));
}

/// Every record of what the one list merges to has a record that tells the
/// same in what the other list merges to.
proof fn lemma_merge_tells(xs: Seq<DeviceRecord>, ys: Seq<DeviceRecord>)
    requires
        consistent(xs),
        consistent(ys),
        same_sightings(xs, ys),
    ensures
        forall|k: int|
            0 <= k < merge_all(Seq::empty(), xs).len() ==> held_at(
                merge_all(Seq::empty(), ys),
                (#[trigger] merge_all(Seq::empty(), xs)[k]).ip,
            ) && tells(merge_all(Seq::empty(), ys), merge_all(Seq::empty(), xs)[k]),
{
    let a = merge_all(Seq::empty(), xs);
    let b = merge_all(Seq::empty(), ys);
    lemma_merge_sums(xs);
    lemma_merge_sums(ys);
    assert forall|k: int| 0 <= k < a.len() implies held_at(b, (#[trigger] a[k]).ip) && tells(
        b,
        a[k],
    ) by {
        let ip = a[k].ip;
        lemma_summed(xs, ip);
        let i = choose|i: int| 0 <= i < xs.len() && (#[trigger] xs[i]).ip == ip;
        assert(xs.contains(xs[i]));
        assert(ys.contains(xs[i]));
        let j = choose|j: int| 0 <= j < ys.len() && ys[j] == xs[i];
        assert(held_at(b, ys[j].ip));
        let m = choose|m: int| 0 <= m < b.len() && (#[trigger] b[m]).ip == ip;
        assert(summed(ys, b[m].ip) == Some(b[m]));
        lemma_summed_same(ys, xs, ip, b[m], a[k]);
        assert(same_facts(b[m], a[k]));
    }
}

/// A set with one record for each identity, merged into the empty set
/// record by record, is that set again.
proof fn lemma_merge_settled(set: Seq<DeviceRecord>)
    requires
        distinct_identities(set),
    ensures
        merge_all(Seq::empty(), set) == set,
    decreases set.len(),
{
    if set.len() > 0 {
        let init = set.drop_last();
        assert forall|i: int, j: int| 0 <= i < j < init.len() implies !shares_identity(
            #[trigger] init[i],
            #[trigger] init[j],
        ) by {
            assert(!shares_identity(set[i], set[j]));
        }
        lemma_merge_settled(init);
        lemma_match_index(init, set.last());
        let m = match_index(init, set.last()) as int;
        if m < init.len() {
            assert(!shares_identity(set[m], set[set.len() - 1]));
        }
        assert(init.push(set.last()) =~= set);
    } else {
        assert(set =~= Seq::empty());
    }
}

/// Merging two lists one after the other is merging them joined.
proof fn lemma_merge_joined(set: Seq<DeviceRecord>, xs: Seq<DeviceRecord>, ys: Seq<DeviceRecord>)
    ensures
        merge_all(merge_all(set, xs), ys) == merge_all(set, xs + ys),
    decreases ys.len(),
{
    if ys.len() > 0 {
        lemma_merge_joined(set, xs, ys.drop_last());
        assert((xs + ys).drop_last() =~= xs + ys.drop_last());
        assert((xs + ys).last() == ys.last());
    } else {
        assert(xs + ys =~= xs);
    }
}

/// Lists of the same sightings are still lists of the same sightings when
/// each follows the records of one set.
proof fn lemma_joined_same(set: Seq<DeviceRecord>, xs: Seq<DeviceRecord>, ys: Seq<DeviceRecord>)
    requires
        same_sightings(xs, ys),
    ensures
        same_sightings(set + xs, set + ys),
{
    let all_x = set + xs;
    let all_y = set + ys;
    assert forall|r: DeviceRecord| all_x.contains(r) <==> all_y.contains(r) by {
        if all_x.contains(r) {
            let i = choose|i: int| 0 <= i < all_x.len() && all_x[i] == r;
            if i < set.len() {
                assert(all_y[i] == r);
            } else {
                assert(xs[i - set.len()] == r);
                assert(xs.contains(r));
                assert(ys.contains(r));
                let j = choose|j: int| 0 <= j < ys.len() && ys[j] == r;
                assert(all_y[set.len() + j] == r);
            }
        }
        if all_y.contains(r) {
            let i = choose|i: int| 0 <= i < all_y.len() && all_y[i] == r;
            if i < set.len() {
                assert(all_x[i] == r);
            } else {
                assert(ys[i - set.len()] == r);
                assert(ys.contains(r));
                assert(xs.contains(r));
                let j = choose|j: int| 0 <= j < xs.len() && xs[j] == r;
                assert(all_x[set.len() + j] == r);
            }
        }
    }
}

/// Merged into the empty set, the same sightings give sets that tell the
/// same, in whatever order and however often each occurs, provided that
/// they do not conflict.
pub proof fn lemma_merge_order_from_nothing(xs: Seq<DeviceRecord>, ys: Seq<DeviceRecord>)
    requires
        consistent(xs),
        same_sightings(xs, ys),
    ensures
        same_devices(merge_all(Seq::empty(), xs), merge_all(Seq::empty(), ys)),
{
    assert(Seq::<DeviceRecord>::empty() + xs =~= xs);
    lemma_merge_order(Seq::empty(), xs, ys);
}

/// The order of the sightings does not matter where they do not conflict.
///
/// Let the set hold one record for each identity, and let the records of
/// the set and the sightings together not conflict: whenever two of them
/// share an address or a hardware address, they name the same address, and
/// what one tells of the hardware address, the host name, the maker, the
/// kind and the platform, the other tells too or leaves open. Then the same
/// sightings, merged in any order and however often each occurs, give sets
/// that tell the same: as many records, and for every record of one a
/// record of the other with the same address, hardware address, host name,
/// maker, kind, platform and time last seen.
///
/// Sightings of separate devices never conflict, so the law holds of them;
/// it also holds of several sightings of one device of which each tells a
/// part. Where two sightings of one device tell different things, the
/// earlier one wins and the order matters.
pub proof fn lemma_merge_order(
    set: Seq<DeviceRecord>,
    xs: Seq<DeviceRecord>,
    ys: Seq<DeviceRecord>,
)
    requires
        distinct_identities(set),
        consistent(set + xs),
        same_sightings(xs, ys),
    ensures
        same_devices(merge_all(set, xs), merge_all(set, ys)),
{
    let all_x = set + xs;
    let all_y = set + ys;
    lemma_merge_settled(set);
    lemma_merge_joined(Seq::empty(), set, xs);
    lemma_merge_joined(Seq::empty(), set, ys);
    lemma_joined_same(set, xs, ys);
    lemma_consistent_part(all_x, all_y);
    lemma_merge_tells(all_x, all_y);
    lemma_merge_tells(all_y, all_x);
    lemma_merge_sums(all_x);
    lemma_merge_sums(all_y);
    lemma_same_count(merge_all(Seq::empty(), all_x), merge_all(Seq::empty(), all_y));
}

// ---------------------------------------------------------------------------
// Sightings of one pass
// ---------------------------------------------------------------------------

/// The two records have the same first sighting, status, tags and notes.
pub open spec fn same_rest(a: DeviceRecord, b: DeviceRecord) -> bool {
    &&& a.first_seen == b.first_seen
    &&& a.status == b.status
    &&& a.tags == b.tags
    &&& a.notes == b.notes
}

/// Sightings at one address have the same first sighting, status, tags and
/// notes, as the sightings of one pass have.
pub open spec fn alike(sightings: Seq<DeviceRecord>) -> bool {
    forall|i: int, j: int|
        0 <= i < sightings.len() && 0 <= j < sightings.len() && (#[trigger] sightings[i]).ip == (
        #[trigger] sightings[j]).ip ==> same_rest(sightings[i], sightings[j])
}

/// The two sets hold the same records: as many, and every record of one is
/// a record of the other.
pub open spec fn same_records(a: Seq<DeviceRecord>, b: Seq<DeviceRecord>) -> bool {
    &&& a.len() == b.len()
    &&& forall|k: int| 0 <= k < a.len() ==> b.contains(#[trigger] a[k])
    &&& forall|k: int| 0 <= k < b.len() ==> a.contains(#[trigger] b[k])
}

/// Some sighting at the address of `r` has the first sighting, status, tags
/// and notes of `r`.
spec fn rest_told_by(sightings: Seq<DeviceRecord>, r: DeviceRecord) -> bool {
    exists|i: int|
        0 <= i < sightings.len() && (#[trigger] sightings[i]).ip == r.ip && same_rest(
            sightings[i],
            r,
        )
}

/// The sum of the sightings at an address has the first sighting, status,
/// tags and notes of one of them.
proof fn lemma_summed_rest(sightings: Seq<DeviceRecord>, ip: Seq<char>)
    ensures
        summed(sightings, ip) matches Some(r) ==> r.ip == ip && rest_told_by(sightings, r),
    decreases sightings.len(),
{
    if sightings.len() > 0 {
        let n = sightings.len() as int;
        let init = sightings.drop_last();
        lemma_summed_rest(init, ip);
        match summed(init, ip) {
            Some(r0) => {
                let i = choose|i: int|
                    0 <= i < init.len() && (#[trigger] init[i]).ip == r0.ip && same_rest(
                        init[i],
                        r0,
                    );
                assert(sightings[i] == init[i]);
                if sightings.last().ip == ip {
                    assert(same_rest(sightings[i], absorb(r0, sightings.last())));
                }
            },
            None => {
                if sightings.last().ip == ip {
                    assert(same_rest(sightings[n - 1], sightings.last()));
                }
            },
        }
    }
}

/// Every record of what the one list merges to is a record of what the
/// other list merges to.
proof fn lemma_merge_holds(xs: Seq<DeviceRecord>, ys: Seq<DeviceRecord>)
    requires
        consistent(xs),
        consistent(ys),
        alike(xs),
        same_sightings(xs, ys),
    ensures
        forall|k: int|
            0 <= k < merge_all(Seq::empty(), xs).len() ==> merge_all(Seq::empty(), ys).contains(
                #[trigger] merge_all(Seq::empty(), xs)[k],
            ),
{
    let a = merge_all(Seq::empty(), xs);
    let b = merge_all(Seq::empty(), ys);
    lemma_merge_sums(xs);
    lemma_merge_sums(ys);
    lemma_merge_tells(xs, ys);
    assert forall|k: int| 0 <= k < a.len() implies b.contains(#[trigger] a[k]) by {
        let ip = a[k].ip;
        assert(held_at(b, a[k].ip));
        let m = choose|m: int| 0 <= m < b.len() && (#[trigger] b[m]).ip == ip;
        assert(summed(xs, a[k].ip) == Some(a[k]));
        assert(summed(ys, b[m].ip) == Some(b[m]));
        lemma_summed_same(xs, ys, ip, a[k], b[m]);
        lemma_summed_rest(xs, ip);
        lemma_summed_rest(ys, ip);
        let i = choose|i: int|
            0 <= i < xs.len() && (#[trigger] xs[i]).ip == a[k].ip && same_rest(xs[i], a[k]);
        let j = choose|j: int|
            0 <= j < ys.len() && (#[trigger] ys[j]).ip == b[m].ip && same_rest(ys[j], b[m]);
        assert(ys.contains(ys[j]));
        assert(xs.contains(ys[j]));
        let j2 = choose|j2: int| 0 <= j2 < xs.len() && xs[j2] == ys[j];
        assert(same_rest(xs[i], xs[j2]));
        assert(a[k] == b[m]);
    }
}

/// The order of the sightings of one pass does not matter where they do
/// not conflict.
///
/// Let the set hold one record for each identity, let the records of the
/// set and the sightings together not conflict, and let those of them at
/// one address have the same first sighting, status, tags and notes, as
/// the sightings of one pass have. Then the same sightings, merged in any
/// order and however often each occurs, give sets that hold the same
/// records, with the same value in every field.
pub proof fn lemma_merge_order_of_pass(
    set: Seq<DeviceRecord>,
    xs: Seq<DeviceRecord>,
    ys: Seq<DeviceRecord>,
)
    requires
        distinct_identities(set),
        consistent(set + xs),
        alike(set + xs),
        same_sightings(xs, ys),
    ensures
        same_records(merge_all(set, xs), merge_all(set, ys)),
{
    let all_x = set + xs;
    let all_y = set + ys;
    lemma_merge_order(set, xs, ys);
    lemma_merge_settled(set);
    lemma_merge_joined(Seq::empty(), set, xs);
    lemma_merge_joined(Seq::empty(), set, ys);
    lemma_joined_same(set, xs, ys);
    lemma_consistent_part(all_x, all_y);
    assert(alike(all_y)) by {
        assert forall|i: int, j: int|
            0 <= i < all_y.len() && 0 <= j < all_y.len() && (#[trigger] all_y[i]).ip == (
            #[trigger] all_y[j]).ip implies same_rest(all_y[i], all_y[j]) by {
            assert(all_y.contains(all_y[i]));
            assert(all_y.contains(all_y[j]));
            let a = choose|a: int| 0 <= a < all_x.len() && all_x[a] == all_y[i];
            let b = choose|b: int| 0 <= b < all_x.len() && all_x[b] == all_y[j];
            assert(same_rest(all_x[a], all_x[b]));
        }
    }
    lemma_merge_holds(all_x, all_y);
    lemma_merge_holds(all_y, all_x);
}

} // verus!
