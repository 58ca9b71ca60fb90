//! What holds of the topology view whatever the devices are.

use crate::device::DeviceRecord;
use crate::scan::lemma_first_where;
use crate::topology::{
    clients_of, group_of, keys_before, subnet_key, subnet_keys, text_before, topology_of,
    topology_over, with_group, with_key, TopologyView,
};
use vstd::prelude::*;

verus! {

// ---------------------------------------------------------------------------
// The order of the keys
// ---------------------------------------------------------------------------

/// No text comes before itself.
pub proof fn lemma_before_irreflexive(a: Seq<char>)
    ensures
        !text_before(a, a),
    decreases a.len(),
{
    if a.len() > 0 {
        lemma_before_irreflexive(a.drop_first());
    }
}

/// Of two different texts, one comes before the other.
pub proof fn lemma_before_total(a: Seq<char>, b: Seq<char>)
    requires
        a != b,
    ensures
        text_before(a, b) || text_before(b, a),
    decreases a.len(),
{
    if a.len() > 0 && b.len() > 0 && a[0] == b[0] {
        if a.drop_first() == b.drop_first() {
            assert(a =~= seq![a[0]] + a.drop_first());
            assert(b =~= seq![b[0]] + b.drop_first());
        }
        lemma_before_total(a.drop_first(), b.drop_first());
    } else if a.len() == 0 && b.len() == 0 {
        assert(a =~= b);
    }
}

/// Coming before is passed on.
pub proof fn lemma_before_transitive(a: Seq<char>, b: Seq<char>, c: Seq<char>)
    requires
        text_before(a, b),
        text_before(b, c),
    ensures
        text_before(a, c),
    decreases a.len(),
{
    if a.len() > 0 && b.len() > 0 && c.len() > 0 && a[0] == b[0] && b[0] == c[0] {
        lemma_before_transitive(a.drop_first(), b.drop_first(), c.drop_first());
    }
}

/// Two texts do not come before each other.
pub proof fn lemma_before_asymmetric(a: Seq<char>, b: Seq<char>)
    requires
        text_before(a, b),
    ensures
        !text_before(b, a),
    decreases a.len(),
{
    if a.len() > 0 && b.len() > 0 && a[0] == b[0] {
        lemma_before_asymmetric(a.drop_first(), b.drop_first());
    }
}

/// Every key comes before the keys behind it.
pub open spec fn ascending(keys: Seq<Seq<char>>) -> bool {
    forall|i: int, j: int|
        0 <= i < j < keys.len() ==> text_before(#[trigger] keys[i], #[trigger] keys[j])
}

/// The keys counted by `keys_before` come before the key, and the next one
/// does not.
proof fn lemma_keys_before(keys: Seq<Seq<char>>, key: Seq<char>)
    ensures
        keys_before(keys, key) <= keys.len(),
        forall|j: int| 0 <= j < keys_before(keys, key) ==> text_before(#[trigger] keys[j], key),
        keys_before(keys, key) < keys.len() ==> !text_before(
            keys[keys_before(keys, key) as int],
            key,
        ),
{
    lemma_first_where(keys, |k: Seq<char>| !text_before(k, key));
}

/// Keys in ascending order stay so when one more is put in its place, and
/// the new key is then among them, with all that were.
pub proof fn lemma_with_key(keys: Seq<Seq<char>>, key: Seq<char>)
    requires
        ascending(keys),
    ensures
        ascending(with_key(keys, key)),
        with_key(keys, key).contains(key),
        forall|k: Seq<char>| keys.contains(k) ==> with_key(keys, key).contains(k),
        forall|k: Seq<char>| with_key(keys, key).contains(k) ==> k == key || keys.contains(k),
{
    let p = keys_before(keys, key) as int;
    lemma_keys_before(keys, key);
    let after = with_key(keys, key);
    if p < keys.len() && keys[p] == key {
        assert(after[p] == key);
    } else {
        assert(after == keys.insert(p, key));
        assert(after[p] == key);
        assert forall|i: int, j: int| 0 <= i < j < after.len() implies text_before(
            #[trigger] after[i],
            #[trigger] after[j],
        ) by {
            if j < p {
                assert(text_before(keys[i], keys[j]));
            } else if j == p {
                assert(text_before(keys[i], key));
            } else if i < p {
                assert(text_before(keys[i], keys[j - 1]));
            } else if i == p {
                lemma_before_total(keys[p], key);
                if j - 1 > p {
                    assert(text_before(keys[p], keys[j - 1]));
                    lemma_before_transitive(key, keys[p], keys[j - 1]);
                }
            } else {
                assert(text_before(keys[i - 1], keys[j - 1]));
            }
        }
        assert forall|k: Seq<char>| keys.contains(k) implies after.contains(k) by {
            let i = choose|i: int| 0 <= i < keys.len() && keys[i] == k;
            if i < p {
                assert(after[i] == k);
            } else {
                assert(after[i + 1] == k);
            }
        }
        assert forall|k: Seq<char>| after.contains(k) implies k == key || keys.contains(k) by {
            let i = choose|i: int| 0 <= i < after.len() && after[i] == k;
            if i < p {
                assert(keys[i] == k);
            } else if i > p {
                assert(keys[i - 1] == k);
            }
        }
    }
}

/// The subnet keys stand in ascending order, each once, and they are the
/// keys of the devices: every device's key is among them, and each of them
/// is the key of a device.
pub proof fn lemma_subnet_keys(set: Seq<DeviceRecord>)
    ensures
        ascending(subnet_keys(set)),
        subnet_keys(set).no_duplicates(),
        forall|i: int| 0 <= i < set.len() ==> subnet_keys(set).contains(subnet_key(set[i].ip)),
        forall|k: Seq<char>|
            subnet_keys(set).contains(k) ==> exists|i: int|
                0 <= i < set.len() && subnet_key(#[trigger] set[i].ip) == k,
    decreases set.len(),
{
    let keys = subnet_keys(set);
    if set.len() > 0 {
        let init = set.drop_last();
        lemma_subnet_keys(init);
        lemma_with_key(subnet_keys(init), subnet_key(set.last().ip));
        assert forall|i: int| 0 <= i < set.len() implies keys.contains(subnet_key(set[i].ip)) by {
            if i < init.len() {
                assert(init[i] == set[i]);
                assert(subnet_keys(init).contains(subnet_key(init[i].ip)));
            }
        }
        assert forall|k: Seq<char>| keys.contains(k) implies exists|i: int|
            0 <= i < set.len() && subnet_key(#[trigger] set[i].ip) == k by {
            if k == subnet_key(set.last().ip) {
                assert(subnet_key(set[set.len() - 1].ip) == k);
            } else {
                assert(subnet_keys(init).contains(k));
                let i = choose|i: int| 0 <= i < init.len() && subnet_key(#[trigger] init[i].ip) == k;
                assert(set[i] == init[i]);
                assert(subnet_key(set[i].ip) == k);
            }
        }
    }
    assert forall|i: int, j: int| 0 <= i < keys.len() && 0 <= j < keys.len() && i != j implies keys[i]
        != keys[j] by {
        if i < j {
            assert(text_before(keys[i], keys[j]));
            lemma_before_irreflexive(keys[i]);
        } else {
            assert(text_before(keys[j], keys[i]));
            lemma_before_irreflexive(keys[j]);
        }
    }
}

// ---------------------------------------------------------------------------
// The shape of the graph
// ---------------------------------------------------------------------------

/// The graph is well formed: every node is numbered by its position, and
/// every link joins two nodes of the graph.
pub open spec fn well_formed(t: TopologyView) -> bool {
    &&& forall|i: int| 0 <= i < t.nodes.len() ==> (#[trigger] t.nodes[i]).id == i
    &&& forall|i: int|
        0 <= i < t.links.len() ==> (#[trigger] t.links[i]).source < t.nodes.len() && t.links[i].target
            < t.nodes.len()
}

/// One more group leaves a well-formed graph well formed, and adds two
/// nodes and a link, and a node and a link for every client.
pub proof fn lemma_with_group(t: TopologyView, key: Seq<char>, group: Seq<DeviceRecord>)
    requires
        well_formed(t),
    ensures
        well_formed(with_group(t, key, group)),
        with_group(t, key, group).nodes.len() == t.nodes.len() + 2 + clients_of(group).len(),
        with_group(t, key, group).links.len() == t.links.len() + 1 + clients_of(group).len(),
{
    let after = with_group(t, key, group);
    assert forall|i: int| 0 <= i < after.nodes.len() implies (#[trigger] after.nodes[i]).id == i by {
        if i < t.nodes.len() {
            assert(after.nodes[i] == t.nodes[i]);
        }
    }
    assert forall|i: int| 0 <= i < after.links.len() implies (#[trigger] after.links[i]).source
        < after.nodes.len() && after.links[i].target < after.nodes.len() by {
        if i < t.links.len() {
            assert(after.links[i] == t.links[i]);
        }
    }
}

/// The graph of any devices is well formed, and it has as many nodes as
/// links and subnets together: a tree for each subnet, rooted in the
/// subnet node.
pub proof fn lemma_topology_over(set: Seq<DeviceRecord>, keys: Seq<Seq<char>>)
    ensures
        well_formed(topology_over(set, keys)),
        topology_over(set, keys).nodes.len() == topology_over(set, keys).links.len() + keys.len(),
    decreases keys.len(),
{
    if keys.len() > 0 {
        lemma_topology_over(set, keys.drop_last());
        lemma_with_group(
            topology_over(set, keys.drop_last()),
            keys.last(),
            group_of(set, keys.last()),
        );
    }
}

/// The graph of any devices is well formed, with a tree for each subnet.
pub proof fn lemma_topology(set: Seq<DeviceRecord>)
    ensures
        well_formed(topology_of(set)),
        topology_of(set).nodes.len() == topology_of(set).links.len() + subnet_keys(set).len(),
{
    lemma_topology_over(set, subnet_keys(set));
}

} // verus!
