//! Counting how often each label occurs.

use crate::device::strings;
use crate::scan::{first_where, lemma_first_where, lemma_first_where_is};
use vstd::prelude::*;

verus! {

/// How often `label` occurs in `labels`.
pub open spec fn occurrences(labels: Seq<Seq<char>>, label: Seq<char>) -> nat
    decreases labels.len(),
{
    if labels.len() == 0 {
        0
    } else {
        occurrences(labels.drop_last(), label) + if labels.last() == label {
            1nat
        } else {
            0nat
        }
    }
}

/// One label and how often it was counted.
pub struct Count {
    pub label: String,
    pub count: usize,
}

/// A label and its count, as plain values.
pub struct CountView {
    pub label: Seq<char>,
    pub count: nat,
}

impl View for Count {
    type V = CountView;

    open spec fn view(&self) -> CountView {
        CountView { label: self.label@, count: self.count as nat }
    }
}

/// The counts as plain values.
pub open spec fn counts(entries: Seq<Count>) -> Seq<CountView> {
    entries.map_values(|c: Count| c@)
}

/// The entry is the one for `label`.
pub open spec fn labelled(entry: CountView, label: Seq<char>) -> bool {
    entry.label == label
}

/// The position of the entry for `label`, or `entries.len()`.
pub open spec fn entry_index(entries: Seq<CountView>, label: Seq<char>) -> nat {
    first_where(entries, |e: CountView| labelled(e, label))
}

/// The counts of the labels, one entry for each label that occurs, in the
/// order in which the labels first occur.
pub open spec fn tally(labels: Seq<Seq<char>>) -> Seq<CountView>
    decreases labels.len(),
{
    if labels.len() == 0 {
        Seq::empty()
    } else {
        let before = tally(labels.drop_last());
        let i = entry_index(before, labels.last()) as int;
        if i < before.len() {
            before.update(i, CountView { label: before[i].label, count: before[i].count + 1 })
        } else {
            before.push(CountView { label: labels.last(), count: 1 })
        }
    }
}

/// `entry_index` is the first position that holds the label.
pub proof fn lemma_entry_index(entries: Seq<CountView>, label: Seq<char>)
    ensures
        entry_index(entries, label) <= entries.len(),
        forall|j: int| 0 <= j < entry_index(entries, label) ==> (#[trigger] entries[j]).label != label,
        entry_index(entries, label) < entries.len() ==> entries[entry_index(
            entries,
            label,
        ) as int].label == label,
{
    lemma_first_where(entries, |e: CountView| labelled(e, label));
}

/// A position that holds the label, or the length, with the label nowhere
/// before it, is `entry_index`.
pub proof fn lemma_entry_index_is(entries: Seq<CountView>, label: Seq<char>, k: int)
    requires
        0 <= k <= entries.len(),
        forall|j: int| 0 <= j < k ==> (#[trigger] entries[j]).label != label,
        k < entries.len() ==> entries[k].label == label,
    ensures
        entry_index(entries, label) == k,
{
    lemma_first_where_is(entries, |e: CountView| labelled(e, label), k);
}

/// What a tally is: no label has two entries; every entry counts how often
/// its label occurs, which is at least once; every label that occurs has an
/// entry.
pub open spec fn is_tally_of(entries: Seq<CountView>, labels: Seq<Seq<char>>) -> bool {
    &&& forall|i: int, j: int|
        0 <= i < j < entries.len() ==> (#[trigger] entries[i]).label != (#[trigger] entries[j]).label
    &&& forall|i: int|
        0 <= i < entries.len() ==> (#[trigger] entries[i]).count == occurrences(
            labels,
            entries[i].label,
        ) && entries[i].count >= 1
    &&& forall|k: int|
        0 <= k < labels.len() ==> entry_index(entries, #[trigger] labels[k]) < entries.len()
    &&& entries.len() <= labels.len()
}

/// `tally` counts rightly.
pub proof fn lemma_tally(labels: Seq<Seq<char>>)
    ensures
        is_tally_of(tally(labels), labels),
    decreases labels.len(),
{
    if labels.len() > 0 {
        let init = labels.drop_last();
        let last = labels.last();
        lemma_tally(init);
        let before = tally(init);
        let after = tally(labels);
        let i = entry_index(before, last) as int;
        lemma_entry_index(before, last);
        assert forall|a: int, b: int| 0 <= a < b < after.len() implies (#[trigger] after[a]).label
            != (#[trigger] after[b]).label by {
            if i < before.len() {
                assert(before[a].label != before[b].label);
            } else if b < before.len() {
                assert(before[a].label != before[b].label);
            } else {
                assert(before[a].label != last);
            }
        }
        assert forall|a: int| 0 <= a < after.len() implies (#[trigger] after[a]).count
            == occurrences(labels, after[a].label) && after[a].count >= 1 by {
            if a < before.len() {
                assert(before[a].count == occurrences(init, before[a].label));
                if i < before.len() && a != i {
                    assert(before[a].label != before[i].label);
                }
            } else {
                lemma_absent_label(before, init, last);
            }
        }
        assert forall|k: int| 0 <= k < labels.len() implies entry_index(
            after,
            #[trigger] labels[k],
        ) < after.len() by {
            if k < init.len() {
                assert(labels[k] == init[k]);
                let e = entry_index(before, init[k]) as int;
                lemma_entry_index(before, init[k]);
                lemma_entry_index(after, labels[k]);
                assert(after[e].label == labels[k]);
            } else {
                lemma_entry_index(after, labels[k]);
                if i < before.len() {
                    assert(after[i].label == last);
                } else {
                    assert(after[before.len() as int].label == last);
                }
            }
        }
    }
}

/// A label without an entry in a tally does not occur.
proof fn lemma_absent_label(entries: Seq<CountView>, labels: Seq<Seq<char>>, label: Seq<char>)
    requires
        is_tally_of(entries, labels),
        entry_index(entries, label) >= entries.len(),
    ensures
        occurrences(labels, label) == 0,
    decreases labels.len(),
{
    lemma_occurrences_zero(labels, label);
    if occurrences(labels, label) != 0 {
        let k = choose|k: int| 0 <= k < labels.len() && labels[k] == label;
        assert(entry_index(entries, labels[k]) < entries.len());
    }
}

/// A label that occurs nowhere is counted zero times, and only such a one.
pub proof fn lemma_occurrences_zero(labels: Seq<Seq<char>>, label: Seq<char>)
    ensures
        occurrences(labels, label) == 0 <==> forall|k: int|
            0 <= k < labels.len() ==> labels[k] != label,
        occurrences(labels, label) <= labels.len(),
    decreases labels.len(),
{
    if labels.len() > 0 {
        let init = labels.drop_last();
        lemma_occurrences_zero(init, label);
        if occurrences(labels, label) == 0 {
            assert forall|k: int| 0 <= k < labels.len() implies labels[k] != label by {
                if k < init.len() {
                    assert(init[k] == labels[k]);
                }
            }
        } else {
            if labels.last() != label {
                let k = choose|k: int| 0 <= k < init.len() && init[k] == label;
                assert(labels[k] == label);
            }
        }
    }
}

/// Counts how often each label occurs.
pub fn count_labels(labels: &Vec<String>) -> (out: Vec<Count>)
    ensures
        counts(out@) == tally(strings(labels@)),
        is_tally_of(counts(out@), strings(labels@)),
{
    let mut out: Vec<Count> = Vec::new();
    let mut i: usize = 0;
    proof {
        assert(strings(labels@).subrange(0, 0) =~= Seq::<Seq<char>>::empty());
        assert(counts(out@) =~= Seq::<CountView>::empty());
    }
    while i < labels.len()
        invariant
            i <= labels.len(),
            counts(out@) == tally(strings(labels@).subrange(0, i as int)),
        decreases labels.len() - i,
    {
        let ghost seen = strings(labels@).subrange(0, i + 1);
        let ghost before = counts(out@);
        proof {
            assert(seen.drop_last() =~= strings(labels@).subrange(0, i as int));
            assert(seen.last() == labels@[i as int]@);
            lemma_tally(seen.drop_last());
            lemma_occurrences_zero(seen.drop_last(), labels@[i as int]@);
        }
        let n = out.len();
        let mut j: usize = 0;
        while j < n && out[j].label != labels[i]
            invariant
                j <= n == out.len(),
                i < labels.len(),
                forall|k: int| 0 <= k < j ==> (#[trigger] counts(out@)[k]).label != labels@[i as int]@,
            decreases n - j,
        {
            j += 1;
        }
        proof {
            lemma_entry_index_is(before, labels@[i as int]@, j as int);
        }
        if j < n {
            assert(before[j as int].count <= i);
            out[j].count = out[j].count + 1;
            proof {
                assert(counts(out@) =~= before.update(
                    j as int,
                    CountView { label: before[j as int].label, count: before[j as int].count + 1 },
                ));
            }
        } else {
            out.push(Count { label: labels[i].clone(), count: 1 });
            proof {
                assert(counts(out@) =~= before.push(
                    CountView { label: labels@[i as int]@, count: 1 },
                ));
            }
        }
        i += 1;
    }
    proof {
        assert(strings(labels@).subrange(0, labels.len() as int) =~= strings(labels@));
        lemma_tally(strings(labels@));
    }
    out
}

} // verus!
