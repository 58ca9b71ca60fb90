//! Adding up weights by key, and ranking the sums.

use crate::scan::{first_where, lemma_first_where, lemma_first_where_is};
use std::collections::HashMap;
use vstd::prelude::*;

verus! {

/// A key that sums can be kept under: it can be compared and copied.
pub trait Label: View + Sized {
    /// Whether the two keys are the same.
    fn same_label(&self, other: &Self) -> (r: bool)
        ensures
            r == (self@ == other@),
    ;

    /// A copy of the key.
    fn duplicate(&self) -> (r: Self)
        ensures
            r@ == self@,
    ;
}

impl Label for String {
    fn same_label(&self, other: &Self) -> (r: bool) {
        *self == *other
    }

    fn duplicate(&self) -> (r: Self) {
        self.clone()
    }
}

impl Label for u16 {
    fn same_label(&self, other: &Self) -> (r: bool) {
        *self == *other
    }

    fn duplicate(&self) -> (r: Self) {
        *self
    }
}

/// A key and the weight kept under it.
pub struct Total<K> {
    pub key: K,
    pub total: u32,
}

/// The entries as pairs of plain values.
pub open spec fn pairs<K: View>(entries: Seq<Total<K>>) -> Seq<(K::V, u32)> {
    Seq::new(entries.len(), |i: int| (entries[i].key@, entries[i].total))
}

/// The sum of two weights, but never more than a weight can hold.
pub open spec fn clipped_add(a: u32, b: u32) -> u32 {
    if a + b > u32::MAX {
        u32::MAX
    } else {
        (a + b) as u32
    }
}

/// The weights of the entries under `key`, added up.
pub open spec fn weight_under<V>(entries: Seq<(V, u32)>, key: V) -> nat
    decreases entries.len(),
{
    if entries.len() == 0 {
        0
    } else {
        weight_under(entries.drop_last(), key) + if entries.last().0 == key {
            entries.last().1 as nat
        } else {
            0nat
        }
    }
}

/// `n`, but never more than a weight can hold.
pub open spec fn clipped(n: nat) -> u32 {
    if n > u32::MAX {
        u32::MAX
    } else {
        n as u32
    }
}

/// The sum is the one kept under `key`.
pub open spec fn keyed<V>(sum: (V, u32), key: V) -> bool {
    sum.0 == key
}

/// The position of the sum kept under `key`, or `sums.len()`.
pub open spec fn key_index<V>(sums: Seq<(V, u32)>, key: V) -> nat {
    first_where(sums, |e: (V, u32)| keyed(e, key))
}

/// The sums with one more entry added in: to the sum under its key, or as
/// a new sum at the end.
pub open spec fn with_weight<V>(sums: Seq<(V, u32)>, entry: (V, u32)) -> Seq<(V, u32)> {
    let i = key_index(sums, entry.0) as int;
    if i < sums.len() {
        sums.update(i, (sums[i].0, clipped_add(sums[i].1, entry.1)))
    } else {
        sums.push(entry)
    }
}

/// The sums of the entries: one for each key, in the order in which the
/// keys first occur.
pub open spec fn sums_of<V>(entries: Seq<(V, u32)>) -> Seq<(V, u32)>
    decreases entries.len(),
{
    if entries.len() == 0 {
        Seq::empty()
    } else {
        with_weight(sums_of(entries.drop_last()), entries.last())
    }
}

/// `key_index` is the first position that holds the key.
pub proof fn lemma_key_index<V>(sums: Seq<(V, u32)>, key: V)
    ensures
        key_index(sums, key) <= sums.len(),
        forall|j: int| 0 <= j < key_index(sums, key) ==> (#[trigger] sums[j]).0 != key,
        key_index(sums, key) < sums.len() ==> sums[key_index(sums, key) as int].0 == key,
{
    lemma_first_where(sums, |e: (V, u32)| keyed(e, key));
}

/// A position that holds the key, or the length, with the key nowhere
/// before it, is `key_index`.
pub proof fn lemma_key_index_is<V>(sums: Seq<(V, u32)>, key: V, k: int)
    requires
        0 <= k <= sums.len(),
        forall|j: int| 0 <= j < k ==> (#[trigger] sums[j]).0 != key,
        k < sums.len() ==> sums[k].0 == key,
    ensures
        key_index(sums, key) == k,
{
    lemma_first_where_is(sums, |e: (V, u32)| keyed(e, key), k);
}

/// What the sums are: no key has two sums; every sum is the weight under
/// its key, clipped; every key that occurs has a sum.
pub open spec fn are_sums_of<V>(sums: Seq<(V, u32)>, entries: Seq<(V, u32)>) -> bool {
    &&& forall|i: int, j: int|
        0 <= i < j < sums.len() ==> (#[trigger] sums[i]).0 != (#[trigger] sums[j]).0
    &&& forall|i: int|
        0 <= i < sums.len() ==> (#[trigger] sums[i]).1 == clipped(
            weight_under(entries, sums[i].0),
        )
    &&& forall|k: int|
        0 <= k < entries.len() ==> key_index(sums, (#[trigger] entries[k]).0) < sums.len()
}

/// A key that no entry has weighs nothing.
pub proof fn lemma_weight_of_absent<V>(entries: Seq<(V, u32)>, key: V)
    requires
        forall|k: int| 0 <= k < entries.len() ==> (#[trigger] entries[k]).0 != key,
    ensures
        weight_under(entries, key) == 0,
    decreases entries.len(),
{
    if entries.len() > 0 {
        let init = entries.drop_last();
        assert forall|k: int| 0 <= k < init.len() implies (#[trigger] init[k]).0 != key by {
            assert(init[k] == entries[k]);
        }
        lemma_weight_of_absent(init, key);
        assert(entries[entries.len() - 1].0 != key);
    }
}

/// `sums_of` adds up rightly.
pub proof fn lemma_sums_of<V>(entries: Seq<(V, u32)>)
    ensures
        are_sums_of(sums_of(entries), entries),
    decreases entries.len(),
{
    if entries.len() > 0 {
        let init = entries.drop_last();
        let last = entries.last();
        lemma_sums_of(init);
        let before = sums_of(init);
        let after = sums_of(entries);
        let i = key_index(before, last.0) as int;
        lemma_key_index(before, last.0);
        assert forall|a: int, b: int| 0 <= a < b < after.len() implies (#[trigger] after[a]).0 != (
        #[trigger] after[b]).0 by {
            if i < before.len() {
                assert(before[a].0 != before[b].0);
            } else if b < before.len() {
                assert(before[a].0 != before[b].0);
            } else {
                assert(before[a].0 != last.0);
            }
        }
        assert forall|a: int| 0 <= a < after.len() implies (#[trigger] after[a]).1 == clipped(
            weight_under(entries, after[a].0),
        ) by {
            if a < before.len() {
                assert(before[a].1 == clipped(weight_under(init, before[a].0)));
                if i < before.len() && a != i {
                    if a < i {
                        assert(before[a].0 != before[i].0);
                    } else {
                        assert(before[i].0 != before[a].0);
                    }
                }
            } else {
                assert forall|k: int| 0 <= k < init.len() implies (#[trigger] init[k]).0
                    != last.0 by {
                    lemma_key_index(before, init[k].0);
                }
                lemma_weight_of_absent(init, last.0);
            }
        }
        assert forall|k: int| 0 <= k < entries.len() implies key_index(
            after,
            (#[trigger] entries[k]).0,
        ) < after.len() by {
            lemma_key_index(after, entries[k].0);
            if k < init.len() {
                assert(entries[k] == init[k]);
                let e = key_index(before, init[k].0) as int;
                lemma_key_index(before, init[k].0);
                assert(after[e].0 == entries[k].0);
            } else {
                if i < before.len() {
                    assert(after[i].0 == last.0);
                } else {
                    assert(after[before.len() as int].0 == last.0);
                }
            }
        }
    }
}

/// Adds the weights up by key: one sum for each key, in the order in which
/// the keys first occur. A sum that is full stays full.
pub fn total_up<K: Label>(entries: &Vec<Total<K>>) -> (out: Vec<Total<K>>)
    ensures
        pairs(out@) == sums_of(pairs(entries@)),
        are_sums_of(pairs(out@), pairs(entries@)),
{
    let mut out: Vec<Total<K>> = Vec::new();
    let mut i: usize = 0;
    proof {
        assert(pairs(entries@).subrange(0, 0) =~= Seq::<(K::V, u32)>::empty());
        assert(pairs(out@) =~= Seq::<(K::V, u32)>::empty());
    }
    while i < entries.len()
        invariant
            i <= entries.len(),
            pairs(out@) == sums_of(pairs(entries@).subrange(0, i as int)),
        decreases entries.len() - i,
    {
        let ghost before = pairs(out@);
        proof {
            let seen = pairs(entries@).subrange(0, i + 1);
            assert(seen.drop_last() =~= pairs(entries@).subrange(0, i as int));
            assert(seen.last() == (entries@[i as int].key@, entries@[i as int].total));
        }
        let n = out.len();
        let mut j: usize = 0;
        while j < n && !out[j].key.same_label(&entries[i].key)
            invariant
                j <= n == out.len(),
                i < entries.len(),
                forall|k: int| 0 <= k < j ==> (#[trigger] pairs(out@)[k]).0 != entries@[i as int].key@,
            decreases n - j,
        {
            j += 1;
        }
        proof {
            if j < n {
                assert(pairs(out@)[j as int].0 == entries@[i as int].key@);
            }
            lemma_key_index_is(before, entries@[i as int].key@, j as int);
        }
        if j < n {
            let weight = entries[i].total;
            let sum = if out[j].total > u32::MAX - weight {
                u32::MAX
            } else {
                out[j].total + weight
            };
            out[j].total = sum;
            proof {
                assert(pairs(out@) =~= before.update(
                    j as int,
                    (before[j as int].0, clipped_add(before[j as int].1, weight)),
                ));
            }
        } else {
            out.push(Total { key: entries[i].key.duplicate(), total: entries[i].total });
            proof {
                assert(pairs(out@) =~= before.push(
                    (entries@[i as int].key@, entries@[i as int].total),
                ));
            }
        }
        i += 1;
    }
    proof {
        assert(pairs(entries@).subrange(0, entries.len() as int) =~= pairs(entries@));
        lemma_sums_of(pairs(entries@));
    }
    out
}

// ---------------------------------------------------------------------------
// Sums by number, kept in a hash map
// ---------------------------------------------------------------------------

/// Some entry has the key.
pub open spec fn occurs<V>(entries: Seq<(V, u32)>, key: V) -> bool {
    exists|j: int| 0 <= j < entries.len() && (#[trigger] entries[j]).0 == key
}

/// The map holds, for each key that occurs and for no other, the weight
/// under that key, clipped.
pub open spec fn weighs(sums: Map<u16, u32>, entries: Seq<(u16, u32)>) -> bool {
    &&& forall|k: u16| #[trigger] sums.contains_key(k) <==> occurs(entries, k)
    &&& forall|k: u16| #[trigger]
        sums.contains_key(k) ==> sums[k] == clipped(weight_under(entries, k))
}

/// One more entry: its key occurs now, and its weight counts under its key
/// and under no other.
proof fn lemma_one_more<V>(entries: Seq<(V, u32)>, key: V)
    requires
        entries.len() > 0,
    ensures
        occurs(entries, key) <==> occurs(entries.drop_last(), key) || entries.last().0 == key,
        !occurs(entries.drop_last(), key) ==> weight_under(entries.drop_last(), key) == 0,
{
    let init = entries.drop_last();
    if occurs(init, key) {
        let j = choose|j: int| 0 <= j < init.len() && (#[trigger] init[j]).0 == key;
        assert(entries[j].0 == key);
    }
    if entries.last().0 == key {
        assert(entries[entries.len() - 1].0 == key);
    }
    if occurs(entries, key) {
        let j = choose|j: int| 0 <= j < entries.len() && (#[trigger] entries[j]).0 == key;
        if j < init.len() {
            assert(init[j].0 == key);
        }
    }
    if !occurs(init, key) {
        lemma_weight_of_absent(init, key);
    }
}

/// Adds the weights up by number in a hash map.
pub fn weigh(entries: &Vec<Total<u16>>) -> (sums: HashMap<u16, u32>)
    ensures
        weighs(sums@, pairs(entries@)),
{
    broadcast use vstd::std_specs::hash::group_hash_axioms;

    let mut sums: HashMap<u16, u32> = HashMap::new();
    let ghost all = pairs(entries@);
    let mut i: usize = 0;
    proof {
        assert(all.subrange(0, 0) =~= Seq::<(u16, u32)>::empty());
    }
    while i < entries.len()
        invariant
            i <= entries.len(),
            all == pairs(entries@),
            weighs(sums@, all.subrange(0, i as int)),
        decreases entries.len() - i,
    {
        let number: u16 = entries[i].key;
        let weight: u32 = entries[i].total;
        let ghost seen = all.subrange(0, i as int);
        let ghost next = all.subrange(0, i + 1);
        let ghost before = sums@;
        proof {
            assert(next.drop_last() =~= seen);
            assert(next.last() == (number, weight));
            lemma_one_more(next, number);
        }
        let known: u32 = match sums.get(&number) {
            Some(w) => *w,
            None => 0,
        };
        let sum: u32 = if known > u32::MAX - weight {
            u32::MAX
        } else {
            known + weight
        };
        sums.insert(number, sum);
        proof {
            assert(known == clipped(weight_under(seen, number)));
            assert(sum == clipped(weight_under(next, number)));
            assert forall|k: u16| #[trigger] sums@.contains_key(k) <==> occurs(next, k) by {
                lemma_one_more(next, k);
                assert(before.contains_key(k) <==> occurs(seen, k));
            }
            assert forall|k: u16| #[trigger] sums@.contains_key(k) implies sums@[k] == clipped(
                weight_under(next, k),
            ) by {
                if k != number {
                    assert(before.contains_key(k));
                    assert(before[k] == clipped(weight_under(seen, k)));
                }
            }
        }
        i += 1;
    }
    proof {
        assert(all.subrange(0, entries.len() as int) =~= all);
    }
    sums
}

/// Adds the weights up by number: one sum for each number, in the order in
/// which the numbers first occur. A sum that is full stays full. The sums
/// are kept in a hash map while they grow; they are handed out in the order
/// of the entries, so that the order in which a hash map is walked plays no
/// part.
pub fn total_up_numbers(entries: &Vec<Total<u16>>) -> (out: Vec<Total<u16>>)
    ensures
        pairs(out@) == sums_of(pairs(entries@)),
        are_sums_of(pairs(out@), pairs(entries@)),
{
    broadcast use vstd::std_specs::hash::group_hash_axioms;

    let mut sums = weigh(entries);
    let ghost all = pairs(entries@);
    let mut out: Vec<Total<u16>> = Vec::new();
    let mut i: usize = 0;
    proof {
        assert(all.subrange(0, 0) =~= Seq::<(u16, u32)>::empty());
    }
    while i < entries.len()
        invariant
            i <= entries.len(),
            all == pairs(entries@),
            out.len() == sums_of(all.subrange(0, i as int)).len(),
            forall|j: int|
                0 <= j < out.len() ==> (#[trigger] pairs(out@)[j]).0 == sums_of(
                    all.subrange(0, i as int),
                )[j].0,
            forall|j: int|
                0 <= j < out.len() ==> (#[trigger] pairs(out@)[j]).1 == clipped(
                    weight_under(all, pairs(out@)[j].0),
                ),
            forall|k: u16| #[trigger]
                sums@.contains_key(k) <==> occurs(all, k) && !occurs(pairs(out@), k),
            forall|k: u16| #[trigger]
                sums@.contains_key(k) ==> sums@[k] == clipped(weight_under(all, k)),
        decreases entries.len() - i,
    {
        let number: u16 = entries[i].key;
        let ghost seen = sums_of(all.subrange(0, i as int));
        let ghost next = all.subrange(0, i + 1);
        let ghost handed = pairs(out@);
        let ghost before = sums@;
        proof {
            assert(next.drop_last() =~= all.subrange(0, i as int));
            assert(next.last() == all[i as int]);
            assert(all[i as int].0 == number);
            assert(occurs(all, number));
            lemma_key_index(seen, number);
            if occurs(handed, number) {
                let j = choose|j: int| 0 <= j < handed.len() && (#[trigger] handed[j]).0 == number;
                assert(seen[j].0 == number);
            }
            if key_index(seen, number) < seen.len() {
                assert(handed[key_index(seen, number) as int].0 == number);
            }
        }
        match sums.remove(&number) {
            Some(sum) => {
                out.push(Total { key: number, total: sum });
                proof {
                    assert(pairs(out@) =~= handed.push((number, sum)));
                    assert(sums_of(next) == seen.push(all[i as int]));
                    assert forall|k: u16| #[trigger] sums@.contains_key(k) <==> occurs(all, k)
                        && !occurs(pairs(out@), k) by {
                        lemma_one_more(pairs(out@), k);
                        assert(pairs(out@).drop_last() =~= handed);
                        assert(before.contains_key(k) <==> occurs(all, k) && !occurs(handed, k));
                    }
                }
            },
            None => {
                proof {
                    assert(sums@ =~= before);
                    let at = key_index(seen, number) as int;
                    assert(sums_of(next) == seen.update(
                        at,
                        (seen[at].0, clipped_add(seen[at].1, all[i as int].1)),
                    ));
                }
            },
        }
        i += 1;
    }
    proof {
        assert(all.subrange(0, entries.len() as int) =~= all);
        lemma_sums_of(all);
        assert(pairs(out@) =~= sums_of(all));
    }
    out
}

// ---------------------------------------------------------------------------
// Ranking
// ---------------------------------------------------------------------------

/// The sum is less than `weight`.
pub open spec fn lighter<V>(sum: (V, u32), weight: u32) -> bool {
    sum.1 < weight
}

/// How many sums at the start of `list` are `weight` or more.
pub open spec fn heavier_prefix<V>(list: Seq<(V, u32)>, weight: u32) -> nat {
    first_where(list, |e: (V, u32)| lighter(e, weight))
}

/// The sums by weight, the heaviest first; sums of the same weight keep
/// their order.
pub open spec fn ranked<V>(list: Seq<(V, u32)>) -> Seq<(V, u32)>
    decreases list.len(),
{
    if list.len() == 0 {
        Seq::empty()
    } else {
        let sorted = ranked(list.drop_last());
        sorted.insert(heavier_prefix(sorted, list.last().1) as int, list.last())
    }
}

/// The sums counted by `heavier_prefix` are `weight` or more, and the next
/// one is less.
pub proof fn lemma_heavier_prefix<V>(list: Seq<(V, u32)>, weight: u32)
    ensures
        heavier_prefix(list, weight) <= list.len(),
        forall|j: int| 0 <= j < heavier_prefix(list, weight) ==> (#[trigger] list[j]).1 >= weight,
        heavier_prefix(list, weight) < list.len() ==> list[heavier_prefix(list, weight) as int].1
            < weight,
{
    lemma_first_where(list, |e: (V, u32)| lighter(e, weight));
}

/// A number of sums of `weight` or more, with the next one less, is
/// `heavier_prefix`.
pub proof fn lemma_heavier_prefix_is<V>(list: Seq<(V, u32)>, weight: u32, k: int)
    requires
        0 <= k <= list.len(),
        forall|j: int| 0 <= j < k ==> (#[trigger] list[j]).1 >= weight,
        k < list.len() ==> list[k].1 < weight,
    ensures
        heavier_prefix(list, weight) == k,
{
    lemma_first_where_is(list, |e: (V, u32)| lighter(e, weight), k);
}

/// No sum of the list is heavier than one in front of it.
pub open spec fn heaviest_first<V>(list: Seq<(V, u32)>) -> bool {
    forall|i: int, j: int| 0 <= i < j < list.len() ==> (#[trigger] list[i]).1 >= (#[trigger] list[j]).1
}

/// Ranking loses and adds nothing, and puts the heaviest first.
pub proof fn lemma_ranked<V>(list: Seq<(V, u32)>)
    ensures
        heaviest_first(ranked(list)),
        ranked(list).to_multiset() == list.to_multiset(),
        ranked(list).len() == list.len(),
    decreases list.len(),
{
    if list.len() > 0 {
        let init = list.drop_last();
        let d = list.last();
        lemma_ranked(init);
        let sorted = ranked(init);
        let p = heavier_prefix(sorted, d.1) as int;
        lemma_heavier_prefix(sorted, d.1);
        let after = ranked(list);
        assert(after == sorted.insert(p, d));
        assert forall|i: int, j: int| 0 <= i < j < after.len() implies (#[trigger] after[i]).1 >= (
        #[trigger] after[j]).1 by {
            if j < p {
                assert(sorted[i].1 >= sorted[j].1);
            } else if j == p {
                assert(sorted[i].1 >= d.1);
            } else if i < p {
                assert(sorted[i].1 >= sorted[j - 1].1);
            } else if i == p {
                assert(sorted[p].1 >= sorted[j - 1].1);
            } else {
                assert(sorted[i - 1].1 >= sorted[j - 1].1);
            }
        }
        vstd::seq_lib::to_multiset_insert(sorted, p, d);
        vstd::seq_lib::to_multiset_build(init, d);
        assert(list =~= init.push(d));
        assert(after.to_multiset() == sorted.to_multiset().insert(d));
        assert(list.to_multiset() == init.to_multiset().insert(d));
    } else {
        assert(list =~= Seq::<(V, u32)>::empty());
    }
}

/// Ranks the sums by weight, the heaviest first; sums of the same weight
/// keep their order.
pub fn rank<K: Label>(totals: Vec<Total<K>>) -> (out: Vec<Total<K>>)
    ensures
        pairs(out@) == ranked(pairs(totals@)),
        heaviest_first(pairs(out@)),
        pairs(out@).to_multiset() == pairs(totals@).to_multiset(),
{
    let mut out: Vec<Total<K>> = Vec::new();
    let mut i: usize = 0;
    proof {
        assert(pairs(totals@).subrange(0, 0) =~= Seq::<(K::V, u32)>::empty());
        assert(pairs(out@) =~= Seq::<(K::V, u32)>::empty());
    }
    while i < totals.len()
        invariant
            i <= totals.len(),
            pairs(out@) == ranked(pairs(totals@).subrange(0, i as int)),
        decreases totals.len() - i,
    {
        let entry = Total { key: totals[i].key.duplicate(), total: totals[i].total };
        proof {
            let seen = pairs(totals@).subrange(0, i + 1);
            assert(seen.drop_last() =~= pairs(totals@).subrange(0, i as int));
            assert(seen.last() == (entry.key@, entry.total));
        }
        let n = out.len();
        let mut p: usize = 0;
        while p < n && out[p].total >= entry.total
            invariant
                p <= n == out.len(),
                forall|j: int| 0 <= j < p ==> (#[trigger] pairs(out@)[j]).1 >= entry.total,
            decreases n - p,
        {
            p += 1;
        }
        let ghost before = pairs(out@);
        proof {
            if p < n {
                assert(before[p as int].1 == out@[p as int].total);
            }
            lemma_heavier_prefix_is(before, entry.total, p as int);
        }
        let ghost pair = (entry.key@, entry.total);
        out.insert(p, entry);
        proof {
            assert(pairs(out@) =~= before.insert(p as int, pair));
        }
        i += 1;
    }
    proof {
        assert(pairs(totals@).subrange(0, totals.len() as int) =~= pairs(totals@));
        lemma_ranked(pairs(totals@));
    }
    out
}

} // verus!
