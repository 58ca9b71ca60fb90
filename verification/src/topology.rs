//! The topology view: the devices grouped by their /24 subnet, one router
//! for each group, every other device of the group a client of it.

use crate::case::{lower, lowercase};
use crate::device::{records, DeviceRecord, NetworkDevice};
use crate::scan::{first_where, lemma_first_where_is};
use crate::search::{ends_with, finishes_with, has_substring, holds};
use crate::split::{split_chars, split_on, texts};
use crate::text::{append_chars, chars_of, copy_range, opt_text, same_chars, string_of};
use vstd::prelude::*;

verus! {

// ---------------------------------------------------------------------------
// Subnet keys
// ---------------------------------------------------------------------------

/// The group that an address belongs to: its first three parts where it has
/// four parts with dots between them, `"other"` where it has not.
pub open spec fn subnet_key(ip: Seq<char>) -> Seq<char> {
    let parts = split_on(ip, '.');
    if parts.len() == 4 {
        parts[0] + seq!['.'] + parts[1] + seq!['.'] + parts[2]
    } else {
        "other"@
    }
}

/// `a` comes before `b` in the order of a dictionary, character by
/// character.
pub open spec fn text_before(a: Seq<char>, b: Seq<char>) -> bool
    decreases a.len(),
{
    if b.len() == 0 {
        false
    } else if a.len() == 0 {
        true
    } else if a[0] != b[0] {
        a[0] < b[0]
    } else {
        text_before(a.drop_first(), b.drop_first())
    }
}

/// How many keys at the start of `keys` come before `key`.
pub open spec fn keys_before(keys: Seq<Seq<char>>, key: Seq<char>) -> nat {
    first_where(keys, |k: Seq<char>| !text_before(k, key))
}

/// The ordered keys with `key` among them: put in its place where it was
/// missing.
pub open spec fn with_key(keys: Seq<Seq<char>>, key: Seq<char>) -> Seq<Seq<char>> {
    let p = keys_before(keys, key) as int;
    if p < keys.len() && keys[p] == key {
        keys
    } else {
        keys.insert(p, key)
    }
}

/// The subnet keys of the set, each once, in the order of a dictionary.
pub open spec fn subnet_keys(set: Seq<DeviceRecord>) -> Seq<Seq<char>>
    decreases set.len(),
{
    if set.len() == 0 {
        Seq::empty()
    } else {
        with_key(subnet_keys(set.drop_last()), subnet_key(set.last().ip))
    }
}

/// The records of the set that belong to the group `key`, in their order.
pub open spec fn group_of(set: Seq<DeviceRecord>, key: Seq<char>) -> Seq<DeviceRecord>
    decreases set.len(),
{
    if set.len() == 0 {
        Seq::empty()
    } else if subnet_key(set.last().ip) == key {
        group_of(set.drop_last(), key).push(set.last())
    } else {
        group_of(set.drop_last(), key)
    }
}

/// The group that the address `ip` belongs to.
pub fn subnet_key_of(ip: &str) -> (key: Vec<char>)
    ensures
        key@ == subnet_key(ip@),
{
    let chars = chars_of(ip);
    let parts = split_chars(chars.as_slice(), '.');
    if parts.len() == 4 {
        proof {
            assert(texts(parts@)[0] == parts@[0]@);
            assert(texts(parts@)[1] == parts@[1]@);
            assert(texts(parts@)[2] == parts@[2]@);
        }
        let mut key: Vec<char> = Vec::new();
        append_chars(&mut key, parts[0].as_slice());
        key.push('.');
        append_chars(&mut key, parts[1].as_slice());
        key.push('.');
        append_chars(&mut key, parts[2].as_slice());
        proof {
            assert(key@ =~= subnet_key(ip@));
        }
        key
    } else {
        chars_of("other")
    }
}

/// Whether `a` comes before `b` in the order of a dictionary.
pub fn comes_before(a: &[char], b: &[char]) -> (r: bool)
    ensures
        r == text_before(a@, b@),
{
    let mut i: usize = 0;
    proof {
        assert(a@.subrange(0, a.len() as int) =~= a@);
        assert(b@.subrange(0, b.len() as int) =~= b@);
    }
    while i < a.len() && i < b.len() && a[i] == b[i]
        invariant
            i <= a.len(),
            i <= b.len(),
            text_before(a@, b@) == text_before(
                a@.subrange(i as int, a.len() as int),
                b@.subrange(i as int, b.len() as int),
            ),
        decreases a.len() - i,
    {
        proof {
            let x = a@.subrange(i as int, a.len() as int);
            let y = b@.subrange(i as int, b.len() as int);
            assert(x[0] == a@[i as int] && y[0] == b@[i as int]);
            assert(x.drop_first() =~= a@.subrange(i + 1, a.len() as int));
            assert(y.drop_first() =~= b@.subrange(i + 1, b.len() as int));
        }
        i += 1;
    }
    proof {
        let x = a@.subrange(i as int, a.len() as int);
        let y = b@.subrange(i as int, b.len() as int);
        if i < a.len() && i < b.len() {
            assert(x[0] == a@[i as int] && y[0] == b@[i as int]);
        }
    }
    if i >= b.len() {
        false
    } else if i >= a.len() {
        true
    } else {
        a[i] < b[i]
    }
}

/// Puts `key` in its place among the ordered keys, unless it is there.
fn add_key(keys: &mut Vec<Vec<char>>, key: Vec<char>)
    ensures
        texts(final(keys)@) == with_key(texts(old(keys)@), key@),
{
    let n = keys.len();
    let mut p: usize = 0;
    while p < n && comes_before(keys[p].as_slice(), key.as_slice())
        invariant
            p <= n == keys.len(),
            *keys == *old(keys),
            forall|j: int| 0 <= j < p ==> text_before(#[trigger] texts(keys@)[j], key@),
        decreases n - p,
    {
        p += 1;
    }
    let ghost before = texts(keys@);
    proof {
        if p < n {
            assert(before[p as int] == keys@[p as int]@);
        }
        lemma_first_where_is(before, |k: Seq<char>| !text_before(k, key@), p as int);
    }
    if p < n && same_chars(keys[p].as_slice(), key.as_slice()) {
        return ;
    }
    keys.insert(p, key);
    proof {
        assert(texts(keys@) =~= before.insert(p as int, key@));
    }
}

/// The subnet keys of the devices, each once, in the order of a dictionary.
pub fn collect_keys(devices: &Vec<NetworkDevice>) -> (keys: Vec<Vec<char>>)
    ensures
        texts(keys@) == subnet_keys(records(devices@)),
{
    let mut keys: Vec<Vec<char>> = Vec::new();
    let mut i: usize = 0;
    proof {
        assert(records(devices@).subrange(0, 0) =~= Seq::<DeviceRecord>::empty());
        assert(texts(keys@) =~= Seq::<Seq<char>>::empty());
    }
    while i < devices.len()
        invariant
            i <= devices.len(),
            texts(keys@) == subnet_keys(records(devices@).subrange(0, i as int)),
        decreases devices.len() - i,
    {
        proof {
            let seen = records(devices@).subrange(0, i + 1);
            assert(seen.drop_last() =~= records(devices@).subrange(0, i as int));
            assert(seen.last() == devices@[i as int]@);
        }
        add_key(&mut keys, subnet_key_of(devices[i].ip.as_str()));
        i += 1;
    }
    proof {
        assert(records(devices@).subrange(0, devices.len() as int) =~= records(devices@));
    }
    keys
}

/// The devices that belong to the group `key`, in their order.
pub fn collect_group(devices: &Vec<NetworkDevice>, key: &[char]) -> (group: Vec<NetworkDevice>)
    ensures
        records(group@) == group_of(records(devices@), key@),
{
    let mut group: Vec<NetworkDevice> = Vec::new();
    let mut i: usize = 0;
    proof {
        assert(records(devices@).subrange(0, 0) =~= Seq::<DeviceRecord>::empty());
        assert(records(group@) =~= Seq::<DeviceRecord>::empty());
    }
    while i < devices.len()
        invariant
            i <= devices.len(),
            records(group@) == group_of(records(devices@).subrange(0, i as int), key@),
        decreases devices.len() - i,
    {
        proof {
            let seen = records(devices@).subrange(0, i + 1);
            assert(seen.drop_last() =~= records(devices@).subrange(0, i as int));
            assert(seen.last() == devices@[i as int]@);
        }
        let own = subnet_key_of(devices[i].ip.as_str());
        if same_chars(own.as_slice(), key) {
            let ghost before = records(group@);
            group.push(devices[i].clone());
            proof {
                assert(records(group@) =~= before.push(devices@[i as int]@));
            }
        }
        i += 1;
    }
    proof {
        assert(records(devices@).subrange(0, devices.len() as int) =~= records(devices@));
    }
    group
}

// ---------------------------------------------------------------------------
// Nodes and links
// ---------------------------------------------------------------------------

/// What a node of the graph stands for.
#[derive(Clone, Copy, PartialEq, Eq, Debug)]
pub enum NodeKind {
    Subnet,
    Router,
    Client,
}

/// A node of the graph. Its `id` is its position among the nodes. A subnet
/// and a router that was made up carry a name only; a router that is a
/// device carries no platform.
pub struct TopologyNode {
    pub id: usize,
    pub kind: NodeKind,
    pub name: String,
    pub ip: Option<String>,
    pub vendor: Option<String>,
    pub status: Option<String>,
    pub os: Option<String>,
}

/// A node as plain values.
pub struct NodeView {
    pub id: nat,
    pub kind: NodeKind,
    pub name: Seq<char>,
    pub ip: Option<Seq<char>>,
    pub vendor: Option<Seq<char>>,
    pub status: Option<Seq<char>>,
    pub os: Option<Seq<char>>,
}

impl View for TopologyNode {
    type V = NodeView;

    open spec fn view(&self) -> NodeView {
        NodeView {
            id: self.id as nat,
            kind: self.kind,
            name: self.name@,
            ip: opt_text(self.ip),
            vendor: opt_text(self.vendor),
            status: opt_text(self.status),
            os: opt_text(self.os),
        }
    }
}

/// A link of the graph, from the node `source` to the node `target`.
pub struct TopologyLink {
    pub source: usize,
    pub target: usize,
}

/// A link as plain values.
pub struct LinkView {
    pub source: nat,
    pub target: nat,
}

impl View for TopologyLink {
    type V = LinkView;

    open spec fn view(&self) -> LinkView {
        LinkView { source: self.source as nat, target: self.target as nat }
    }
}

/// The graph.
pub struct Topology {
    pub nodes: Vec<TopologyNode>,
    pub links: Vec<TopologyLink>,
}

/// The graph as plain values.
pub struct TopologyView {
    pub nodes: Seq<NodeView>,
    pub links: Seq<LinkView>,
}

impl View for Topology {
    type V = TopologyView;

    open spec fn view(&self) -> TopologyView {
        TopologyView {
            nodes: self.nodes@.map_values(|n: TopologyNode| n@),
            links: self.links@.map_values(|l: TopologyLink| l@),
        }
    }
}

/// The record is taken for a router: its kind says so, in whatever case, or
/// its address ends in `.1`.
pub open spec fn looks_like_router(d: DeviceRecord) -> bool {
    has_substring(lower(d.device_type), "router"@) || ends_with(d.ip, ".1"@)
}

/// The position of the first record of the group that is taken for a
/// router, or `group.len()`.
pub open spec fn router_index(group: Seq<DeviceRecord>) -> nat {
    first_where(group, |d: DeviceRecord| looks_like_router(d))
}

/// The name that a device is shown under: its host name, or its address
/// where it has none.
pub open spec fn display_name(d: DeviceRecord) -> Seq<char> {
    if d.hostname.len() == 0 {
        d.ip
    } else {
        d.hostname
    }
}

/// The node of a subnet.
pub open spec fn subnet_node(id: nat, key: Seq<char>) -> NodeView {
    NodeView {
        id: id,
        kind: NodeKind::Subnet,
        name: key + ".0/24"@,
        ip: None,
        vendor: None,
        status: None,
        os: None,
    }
}

/// The node of a router that no device stands for.
pub open spec fn made_up_router(id: nat, key: Seq<char>) -> NodeView {
    NodeView {
        id: id,
        kind: NodeKind::Router,
        name: key + ".1"@,
        ip: None,
        vendor: None,
        status: None,
        os: None,
    }
}

/// The node of a device that is the router of its group.
pub open spec fn router_node(id: nat, d: DeviceRecord) -> NodeView {
    NodeView {
        id: id,
        kind: NodeKind::Router,
        name: display_name(d),
        ip: Some(d.ip),
        vendor: Some(d.vendor),
        status: Some(d.status),
        os: None,
    }
}

/// The node of a device that is a client of its group's router.
pub open spec fn client_node(id: nat, d: DeviceRecord) -> NodeView {
    NodeView {
        id: id,
        kind: NodeKind::Client,
        name: display_name(d),
        ip: Some(d.ip),
        vendor: Some(d.vendor),
        status: Some(d.status),
        os: Some(d.os),
    }
}

/// The clients of a group: every record but the one that is its router.
pub open spec fn clients_of(group: Seq<DeviceRecord>) -> Seq<DeviceRecord> {
    if router_index(group) < group.len() {
        group.remove(router_index(group) as int)
    } else {
        group
    }
}

/// The graph with one more group: a subnet node, a router node, a link from
/// the subnet to the router, and for every client a node and a link from
/// the router to it. The nodes are numbered on from those that are there.
pub open spec fn with_group(t: TopologyView, key: Seq<char>, group: Seq<DeviceRecord>) -> TopologyView {
    let subnet_id = t.nodes.len();
    let router_id = subnet_id + 1;
    let r = router_index(group) as int;
    let router = if r < group.len() {
        router_node(router_id, group[r])
    } else {
        made_up_router(router_id, key)
    };
    let clients = clients_of(group);
    TopologyView {
        nodes: t.nodes.push(subnet_node(subnet_id, key)).push(router) + Seq::new(
            clients.len(),
            |i: int| client_node((router_id + 1 + i) as nat, clients[i]),
        ),
        links: t.links.push(LinkView { source: subnet_id, target: router_id }) + Seq::new(
            clients.len(),
            |i: int| LinkView { source: router_id, target: (router_id + 1 + i) as nat },
        ),
    }
}

/// The graph of the groups `keys` of the set, one group after the other.
pub open spec fn topology_over(set: Seq<DeviceRecord>, keys: Seq<Seq<char>>) -> TopologyView
    decreases keys.len(),
{
    if keys.len() == 0 {
        TopologyView { nodes: Seq::empty(), links: Seq::empty() }
    } else {
        with_group(topology_over(set, keys.drop_last()), keys.last(), group_of(set, keys.last()))
    }
}

/// The graph of the set: its groups in the order of their keys.
pub open spec fn topology_of(set: Seq<DeviceRecord>) -> TopologyView {
    topology_over(set, subnet_keys(set))
}

/// Whether the device is taken for a router.
pub fn is_router_like(d: &NetworkDevice) -> (r: bool)
    ensures
        r == looks_like_router(d@),
{
    let kind = chars_of(d.device_type.as_str());
    let lowered = lowercase(kind.as_slice());
    if holds(lowered.as_slice(), "router") {
        return true;
    }
    let ip = chars_of(d.ip.as_str());
    finishes_with(ip.as_slice(), ".1")
}

/// The name that the device is shown under.
fn shown_name(d: &NetworkDevice) -> (name: String)
    ensures
        name@ == display_name(d@),
{
    if d.hostname.as_str().is_empty() {
        d.ip.clone()
    } else {
        d.hostname.clone()
    }
}

/// `key` with `ending` behind it.
fn key_with(key: &[char], ending: &str) -> (name: String)
    ensures
        name@ == key@ + ending@,
{
    let mut chars: Vec<char> = copy_range(key, 0, key.len());
    let tail = chars_of(ending);
    append_chars(&mut chars, tail.as_slice());
    proof {
        assert(key@.subrange(0, key.len() as int) =~= key@);
    }
    string_of(chars.as_slice())
}

/// Adds one group to the graph.
pub fn add_group(topology: &mut Topology, key: &[char], group: &Vec<NetworkDevice>)
    ensures
        final(topology)@ == with_group(old(topology)@, key@, records(group@)),
{
    let ghost before = topology@;
    let ghost devices = records(group@);
    let subnet_id = topology.nodes.len();
    topology.nodes.push(
        TopologyNode {
            id: subnet_id,
            kind: NodeKind::Subnet,
            name: key_with(key, ".0/24"),
            ip: None,
            vendor: None,
            status: None,
            os: None,
        },
    );
    let n = group.len();
    let mut r: usize = 0;
    while r < n && !is_router_like(&group[r])
        invariant
            r <= n == group.len(),
            forall|j: int| 0 <= j < r ==> !looks_like_router(#[trigger] records(group@)[j]),
        decreases n - r,
    {
        r += 1;
    }
    proof {
        lemma_first_where_is(devices, |d: DeviceRecord| looks_like_router(d), r as int);
    }
    let router_id = topology.nodes.len();
    if r < n {
        topology.nodes.push(
            TopologyNode {
                id: router_id,
                kind: NodeKind::Router,
                name: shown_name(&group[r]),
                ip: Some(group[r].ip.clone()),
                vendor: Some(group[r].vendor.clone()),
                status: Some(group[r].status.clone()),
                os: None,
            },
        );
    } else {
        topology.nodes.push(
            TopologyNode {
                id: router_id,
                kind: NodeKind::Router,
                name: key_with(key, ".1"),
                ip: None,
                vendor: None,
                status: None,
                os: None,
            },
        );
    }
    topology.links.push(TopologyLink { source: subnet_id, target: router_id });
    let ghost clients = clients_of(devices);
    let ghost base_nodes = topology@.nodes;
    let ghost base_links = topology@.links;
    proof {
        assert(base_nodes =~= before.nodes.push(subnet_node(subnet_id as nat, key@)).push(
            if r < n {
                router_node(router_id as nat, devices[r as int])
            } else {
                made_up_router(router_id as nat, key@)
            },
        ));
        assert(base_links =~= before.links.push(
            LinkView { source: subnet_id as nat, target: router_id as nat },
        ));
    }
    let mut i: usize = 0;
    let mut done: usize = 0;
    while i < n
        invariant
            i <= n == group.len(),
            r <= n,
            devices == records(group@),
            clients == clients_of(devices),
            router_index(devices) == r,
            done == if i <= r {
                i
            } else {
                (i - 1) as usize
            },
            router_id == base_nodes.len() - 1,
            topology@.nodes == base_nodes + Seq::new(
                done as nat,
                |k: int| client_node((router_id + 1 + k) as nat, clients[k]),
            ),
            topology@.links == base_links + Seq::new(
                done as nat,
                |k: int| LinkView { source: router_id as nat, target: (router_id + 1 + k) as nat },
            ),
        decreases n - i,
    {
        if i != r {
            let ghost nodes_before = topology@.nodes;
            let ghost links_before = topology@.links;
            let id = topology.nodes.len();
            proof {
                assert(topology@.nodes.len() == topology.nodes@.len());
                assert(topology@.nodes.len() == base_nodes.len() + done);
                assert(id == router_id + 1 + done);
                assert(clients[done as int] == devices[i as int]);
            }
            topology.nodes.push(
                TopologyNode {
                    id,
                    kind: NodeKind::Client,
                    name: shown_name(&group[i]),
                    ip: Some(group[i].ip.clone()),
                    vendor: Some(group[i].vendor.clone()),
                    status: Some(group[i].status.clone()),
                    os: Some(group[i].os.clone()),
                },
            );
            topology.links.push(TopologyLink { source: router_id, target: id });
            proof {
                assert(topology@.nodes =~= nodes_before.push(
                    client_node(id as nat, devices[i as int]),
                ));
                assert(topology@.links =~= links_before.push(
                    LinkView { source: router_id as nat, target: id as nat },
                ));
                assert(topology@.nodes =~= base_nodes + Seq::new(
                    (done + 1) as nat,
                    |k: int| client_node((router_id + 1 + k) as nat, clients[k]),
                ));
                assert(topology@.links =~= base_links + Seq::new(
                    (done + 1) as nat,
                    |k: int|
                        LinkView { source: router_id as nat, target: (router_id + 1 + k) as nat },
                ));
            }
            done += 1;
        }
        i += 1;
    }
    proof {
        assert(done == clients.len());
        assert(topology@.nodes =~= with_group(before, key@, devices).nodes);
        assert(topology@.links =~= with_group(before, key@, devices).links);
    }
}

/// Builds the graph of the devices: for every /24 subnet, in the order of
/// the subnet keys, a subnet node and a router node (the first device of
/// the subnet that is taken for a router, or a made-up one), with a link
/// from the subnet to its router and from the router to every other device
/// of the subnet.
pub fn get_topology(devices: &Vec<NetworkDevice>) -> (topology: Topology)
    ensures
        topology@ == topology_of(records(devices@)),
{
    let keys = collect_keys(devices);
    let mut topology = Topology { nodes: Vec::new(), links: Vec::new() };
    let mut i: usize = 0;
    proof {
        assert(texts(keys@).subrange(0, 0) =~= Seq::<Seq<char>>::empty());
        assert(topology@.nodes =~= Seq::<NodeView>::empty());
        assert(topology@.links =~= Seq::<LinkView>::empty());
    }
    while i < keys.len()
        invariant
            i <= keys.len(),
            topology@ == topology_over(records(devices@), texts(keys@).subrange(0, i as int)),
        decreases keys.len() - i,
    {
        proof {
            let seen = texts(keys@).subrange(0, i + 1);
            assert(seen.drop_last() =~= texts(keys@).subrange(0, i as int));
            assert(seen.last() == keys@[i as int]@);
        }
        let group = collect_group(devices, keys[i].as_slice());
        add_group(&mut topology, keys[i].as_slice(), &group);
        i += 1;
    }
    proof {
        assert(texts(keys@).subrange(0, keys.len() as int) =~= texts(keys@));
    }
    topology
}

} // verus!
