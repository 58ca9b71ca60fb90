//! Listing the inventory: the devices that match a filter, most recently
//! seen first, one page at a time.

use crate::case::{lower, lowercase};
use crate::device::{records, DeviceRecord, NetworkDevice};
use crate::inventory::has_tag;
use crate::scan::{first_where, lemma_first_where, lemma_first_where_is};
use crate::search::{contains, has_substring};
use crate::text::{chars_of, opt_text};
use vstd::prelude::*;

verus! {

/// The largest page that is handed out.
pub const MAX_PER_PAGE: u32 = 100;

/// The page size where none is asked for.
pub const DEFAULT_PER_PAGE: u32 = 20;

/// What to list: each criterion that is present must hold; `page` counts
/// from 1.
pub struct DeviceFilter {
    pub device_type: Option<String>,
    pub vendor: Option<String>,
    pub status: Option<String>,
    pub tag: Option<String>,
    pub search: Option<String>,
    pub page: Option<u32>,
    pub per_page: Option<u32>,
}

/// A filter as plain values: its criteria, and the page that it asks for.
pub struct Criteria {
    pub device_type: Option<Seq<char>>,
    pub vendor: Option<Seq<char>>,
    pub status: Option<Seq<char>>,
    pub tag: Option<Seq<char>>,
    pub search: Option<Seq<char>>,
    pub page: Option<u32>,
    pub per_page: Option<u32>,
}

impl View for DeviceFilter {
    type V = Criteria;

    open spec fn view(&self) -> Criteria {
        Criteria {
            device_type: opt_text(self.device_type),
            vendor: opt_text(self.vendor),
            status: opt_text(self.status),
            tag: opt_text(self.tag),
            search: opt_text(self.search),
            page: self.page,
            per_page: self.per_page,
        }
    }
}

// ---------------------------------------------------------------------------
// Matching
// ---------------------------------------------------------------------------

/// `needle` stands in `text`, whatever the case of either.
pub open spec fn holds_ignoring_case(text: Seq<char>, needle: Seq<char>) -> bool {
    has_substring(lower(text), lower(needle))
}

/// The free-text search finds the record: the words, in lower case, stand in
/// its host name, its address, its hardware address or its maker.
pub open spec fn found_by(d: DeviceRecord, words: Seq<char>) -> bool {
    ||| has_substring(lower(d.hostname), lower(words))
    ||| has_substring(d.ip, lower(words))
    ||| has_substring(lower(d.mac), lower(words))
    ||| has_substring(lower(d.vendor), lower(words))
}

/// The record meets every criterion that is present.
pub open spec fn matches(d: DeviceRecord, c: Criteria) -> bool {
    &&& c.device_type is Some ==> holds_ignoring_case(d.device_type, c.device_type->0)
    &&& c.vendor is Some ==> holds_ignoring_case(d.vendor, c.vendor->0)
    &&& c.status is Some ==> d.status == c.status->0
    &&& c.tag is Some ==> d.tags.contains(c.tag->0)
    &&& c.search is Some ==> found_by(d, c.search->0)
}

/// The records of the set that match, in their order.
pub open spec fn selected(set: Seq<DeviceRecord>, c: Criteria) -> Seq<DeviceRecord>
    decreases set.len(),
{
    if set.len() == 0 {
        Seq::empty()
    } else if matches(set.last(), c) {
        selected(set.drop_last(), c).push(set.last())
    } else {
        selected(set.drop_last(), c)
    }
}

/// Whether the text of `needle`, given in lower case, stands in `text` once
/// that is put in lower case.
fn holds_lowered(text: &String, needle: &Vec<char>) -> (r: bool)
    ensures
        r == has_substring(lower(text@), needle@),
{
    let chars = chars_of(text.as_str());
    let lowered = lowercase(chars.as_slice());
    contains(lowered.as_slice(), needle.as_slice())
}

/// The lower-case form of an optional text.
fn lowered_option(s: &Option<String>) -> (r: Option<Vec<char>>)
    ensures
        r is Some <==> s is Some,
        r matches Some(v) ==> v@ == lower(s->0@),
{
    match s {
        Some(text) => {
            let chars = chars_of(text.as_str());
            Some(lowercase(chars.as_slice()))
        },
        None => None,
    }
}

/// A filter with its texts put in lower case once, for matching many
/// devices.
struct Prepared {
    device_type: Option<Vec<char>>,
    vendor: Option<Vec<char>>,
    search: Option<Vec<char>>,
}

impl Prepared {
    spec fn prepared_from(&self, params: &DeviceFilter) -> bool {
        &&& self.device_type is Some <==> params.device_type is Some
        &&& self.device_type matches Some(v) ==> v@ == lower(params.device_type->0@)
        &&& self.vendor is Some <==> params.vendor is Some
        &&& self.vendor matches Some(v) ==> v@ == lower(params.vendor->0@)
        &&& self.search is Some <==> params.search is Some
        &&& self.search matches Some(v) ==> v@ == lower(params.search->0@)
    }
}

/// Whether the device meets every criterion of the filter.
fn device_matches(d: &NetworkDevice, params: &DeviceFilter, prepared: &Prepared) -> (r: bool)
    requires
        prepared.prepared_from(params),
    ensures
        r == matches(d@, params@),
{
    match &prepared.device_type {
        Some(wanted) => {
            if !holds_lowered(&d.device_type, wanted) {
                return false;
            }
        },
        None => {},
    }
    match &prepared.vendor {
        Some(wanted) => {
            if !holds_lowered(&d.vendor, wanted) {
                return false;
            }
        },
        None => {},
    }
    match &params.status {
        Some(wanted) => {
            if d.status != *wanted {
                return false;
            }
        },
        None => {},
    }
    match &params.tag {
        Some(wanted) => {
            if !has_tag(&d.tags, wanted) {
                return false;
            }
        },
        None => {},
    }
    match &prepared.search {
        Some(words) => {
            let ip = chars_of(d.ip.as_str());
            let found = holds_lowered(&d.hostname, words) || contains(
                ip.as_slice(),
                words.as_slice(),
            ) || holds_lowered(&d.mac, words) || holds_lowered(&d.vendor, words);
            if !found {
                return false;
            }
        },
        None => {},
    }
    true
}

/// Whether the device meets every criterion of the filter.
pub fn matches_filter(d: &NetworkDevice, params: &DeviceFilter) -> (r: bool)
    ensures
        r == matches(d@, params@),
{
    let prepared = Prepared {
        device_type: lowered_option(&params.device_type),
        vendor: lowered_option(&params.vendor),
        search: lowered_option(&params.search),
    };
    device_matches(d, params, &prepared)
}

/// The devices that meet every criterion of the filter, in their order.
pub fn select_devices(devices: &Vec<NetworkDevice>, params: &DeviceFilter) -> (out: Vec<
    NetworkDevice,
>)
    ensures
        records(out@) == selected(records(devices@), params@),
{
    let prepared = Prepared {
        device_type: lowered_option(&params.device_type),
        vendor: lowered_option(&params.vendor),
        search: lowered_option(&params.search),
    };
    let mut out: Vec<NetworkDevice> = Vec::new();
    let mut i: usize = 0;
    proof {
        assert(records(devices@).subrange(0, 0) =~= Seq::<DeviceRecord>::empty());
        assert(records(out@) =~= Seq::<DeviceRecord>::empty());
    }
    while i < devices.len()
        invariant
            i <= devices.len(),
            prepared.prepared_from(params),
            records(out@) == selected(records(devices@).subrange(0, i as int), params@),
        decreases devices.len() - i,
    {
        proof {
            let seen = records(devices@).subrange(0, i + 1);
            assert(seen.drop_last() =~= records(devices@).subrange(0, i as int));
            assert(seen.last() == devices@[i as int]@);
        }
        if device_matches(&devices[i], params, &prepared) {
            let ghost before = records(out@);
            out.push(devices[i].clone());
            proof {
                assert(records(out@) =~= before.push(devices@[i as int]@));
            }
        }
        i += 1;
    }
    proof {
        assert(records(devices@).subrange(0, devices.len() as int) =~= records(devices@));
    }
    out
}

// ---------------------------------------------------------------------------
// Order
// ---------------------------------------------------------------------------

/// The record was last seen before `time`.
pub open spec fn seen_before(d: DeviceRecord, time: u64) -> bool {
    d.last_seen < time
}

/// How many records at the start of `list` were last seen at `time` or
/// later.
pub open spec fn newer_prefix(list: Seq<DeviceRecord>, time: u64) -> nat {
    first_where(list, |d: DeviceRecord| seen_before(d, time))
}

/// `list` with `d` put behind the records at its start that were seen no
/// earlier than `d`.
pub open spec fn insert_by_recency(list: Seq<DeviceRecord>, d: DeviceRecord) -> Seq<DeviceRecord> {
    list.insert(newer_prefix(list, d.last_seen) as int, d)
}

/// The records in the order of their last sighting, the latest first;
/// records seen at the same time keep their order.
pub open spec fn by_recency(list: Seq<DeviceRecord>) -> Seq<DeviceRecord>
    decreases list.len(),
{
    if list.len() == 0 {
        Seq::empty()
    } else {
        insert_by_recency(by_recency(list.drop_last()), list.last())
    }
}

/// The records counted by `newer_prefix` were seen at `time` or later, and
/// the next one was not.
pub proof fn lemma_newer_prefix(list: Seq<DeviceRecord>, time: u64)
    ensures
        newer_prefix(list, time) <= list.len(),
        forall|j: int| 0 <= j < newer_prefix(list, time) ==> (#[trigger] list[j]).last_seen >= time,
        newer_prefix(list, time) < list.len() ==> list[newer_prefix(list, time) as int].last_seen
            < time,
{
    lemma_first_where(list, |d: DeviceRecord| seen_before(d, time));
}

/// A number of records seen at `time` or later, with the next one seen
/// before it, is `newer_prefix`.
pub proof fn lemma_newer_prefix_is(list: Seq<DeviceRecord>, time: u64, k: int)
    requires
        0 <= k <= list.len(),
        forall|j: int| 0 <= j < k ==> (#[trigger] list[j]).last_seen >= time,
        k < list.len() ==> list[k].last_seen < time,
    ensures
        newer_prefix(list, time) == k,
{
    lemma_first_where_is(list, |d: DeviceRecord| seen_before(d, time), k);
}

/// No record of the list was seen later than one in front of it.
pub open spec fn latest_first(list: Seq<DeviceRecord>) -> bool {
    forall|i: int, j: int|
        0 <= i < j < list.len() ==> (#[trigger] list[i]).last_seen >= (#[trigger] list[j]).last_seen
}

/// Ordering by recency loses and adds nothing, and puts the latest first.
pub proof fn lemma_by_recency(list: Seq<DeviceRecord>)
    ensures
        latest_first(by_recency(list)),
        by_recency(list).to_multiset() == list.to_multiset(),
        by_recency(list).len() == list.len(),
    decreases list.len(),
{
    if list.len() > 0 {
        let init = list.drop_last();
        let d = list.last();
        lemma_by_recency(init);
        let sorted = by_recency(init);
        let p = newer_prefix(sorted, d.last_seen) as int;
        lemma_newer_prefix(sorted, d.last_seen);
        let after = by_recency(list);
        assert(after == sorted.insert(p, d));
        assert forall|i: int, j: int| 0 <= i < j < after.len() implies (
        #[trigger] after[i]).last_seen >= (#[trigger] after[j]).last_seen by {
            if j < p {
                assert(sorted[i].last_seen >= sorted[j].last_seen);
            } else if j == p {
                assert(sorted[i].last_seen >= d.last_seen);
            } else if i < p {
                assert(sorted[i].last_seen >= sorted[j - 1].last_seen);
            } else if i == p {
                assert(sorted[p].last_seen >= sorted[j - 1].last_seen);
            } else {
                assert(sorted[i - 1].last_seen >= sorted[j - 1].last_seen);
            }
        }
        vstd::seq_lib::to_multiset_insert(sorted, p, d);
        vstd::seq_lib::to_multiset_build(init, d);
        assert(list =~= init.push(d));
        assert(after.to_multiset() == sorted.to_multiset().insert(d));
        assert(list.to_multiset() == init.to_multiset().insert(d));
    } else {
        assert(list =~= Seq::<DeviceRecord>::empty());
    }
}

/// `a` stands before `b` in the list.
pub open spec fn stands_before(list: Seq<DeviceRecord>, a: DeviceRecord, b: DeviceRecord) -> bool {
    exists|i: int, j: int| 0 <= i < j < list.len() && list[i] == a && list[j] == b
}

/// Records seen at the same time keep their order: of two records with
/// the same time of last sighting, the one that stood before the other
/// still does.
pub proof fn lemma_by_recency_stable(list: Seq<DeviceRecord>, a: DeviceRecord, b: DeviceRecord)
    requires
        stands_before(list, a, b),
        a.last_seen == b.last_seen,
    ensures
        stands_before(by_recency(list), a, b),
    decreases list.len(),
{
    let (i, j) = choose|i: int, j: int| 0 <= i < j < list.len() && list[i] == a && list[j] == b;
    let init = list.drop_last();
    let d = list.last();
    let sorted = by_recency(init);
    let p = newer_prefix(sorted, d.last_seen) as int;
    lemma_newer_prefix(sorted, d.last_seen);
    lemma_by_recency(init);
    let after = by_recency(list);
    assert(after == sorted.insert(p, d));
    if j < list.len() - 1 {
        assert(init[i] == a && init[j] == b);
        lemma_by_recency_stable(init, a, b);
        let (x, y) = choose|x: int, y: int|
            0 <= x < y < sorted.len() && sorted[x] == a && sorted[y] == b;
        let x2 = if x < p {
            x
        } else {
            x + 1
        };
        let y2 = if y < p {
            y
        } else {
            y + 1
        };
        assert(after[x2] == a && after[y2] == b);
    } else {
        assert(init[i] == a);
        assert(init.contains(a));
        assert(sorted.to_multiset().count(a) > 0) by {
            init.to_multiset_ensures();
        }
        assert(sorted.contains(a)) by {
            sorted.to_multiset_ensures();
        }
        let x = choose|x: int| 0 <= x < sorted.len() && sorted[x] == a;
        assert(x < p) by {
            if x >= p {
                assert(latest_first(sorted));
                if x > p {
                    assert(sorted[p].last_seen >= sorted[x].last_seen);
                }
            }
        }
        assert(after[x] == a && after[p] == b);
    }
}

/// The devices in the order of their last sighting, the latest first;
/// devices seen at the same time keep their order.
pub fn sort_by_recency(devices: Vec<NetworkDevice>) -> (out: Vec<NetworkDevice>)
    ensures
        records(out@) == by_recency(records(devices@)),
        latest_first(records(out@)),
        records(out@).to_multiset() == records(devices@).to_multiset(),
        out.len() == devices.len(),
{
    let mut out: Vec<NetworkDevice> = Vec::new();
    let mut i: usize = 0;
    proof {
        assert(records(devices@).subrange(0, 0) =~= Seq::<DeviceRecord>::empty());
        assert(records(out@) =~= Seq::<DeviceRecord>::empty());
    }
    while i < devices.len()
        invariant
            i <= devices.len(),
            out.len() == i,
            records(out@) == by_recency(records(devices@).subrange(0, i as int)),
        decreases devices.len() - i,
    {
        let device = devices[i].clone();
        proof {
            let seen = records(devices@).subrange(0, i + 1);
            assert(seen.drop_last() =~= records(devices@).subrange(0, i as int));
            assert(seen.last() == device@);
        }
        let n = out.len();
        let mut p: usize = 0;
        while p < n && out[p].last_seen >= device.last_seen
            invariant
                p <= n == out.len(),
                forall|j: int|
                    0 <= j < p ==> (#[trigger] records(out@)[j]).last_seen >= device.last_seen,
            decreases n - p,
        {
            p += 1;
        }
        let ghost before = records(out@);
        proof {
            lemma_newer_prefix_is(before, device.last_seen, p as int);
        }
        out.insert(p, device);
        proof {
            assert(records(out@) =~= before.insert(p as int, device@));
        }
        i += 1;
    }
    proof {
        assert(records(devices@).subrange(0, devices.len() as int) =~= records(devices@));
        lemma_by_recency(records(devices@));
    }
    out
}

// ---------------------------------------------------------------------------
// Pages
// ---------------------------------------------------------------------------

/// The page that is meant: the one asked for, the first where none or page 0
/// is asked for.
pub open spec fn page_number(page: Option<u32>) -> nat {
    match page {
        Some(n) => if n >= 1 {
            n as nat
        } else {
            1
        },
        None => 1,
    }
}

/// The largest page that is handed out under the limit `max`: `max`
/// itself, or `MAX_PER_PAGE` where no limit is set.
pub open spec fn page_limit(max: u32) -> nat {
    if max == 0 {
        MAX_PER_PAGE as nat
    } else {
        max as nat
    }
}

/// The page size that is meant: the one asked for, `DEFAULT_PER_PAGE` where
/// none or 0 is asked for, but at most the limit.
pub open spec fn page_size(per_page: Option<u32>, max: u32) -> nat {
    let asked = match per_page {
        Some(n) => if n == 0 {
            DEFAULT_PER_PAGE as nat
        } else {
            n as nat
        },
        None => DEFAULT_PER_PAGE as nat,
    };
    if asked > page_limit(max) {
        page_limit(max)
    } else {
        asked
    }
}

/// How many pages of `per_page` items it takes to hold `total` items.
pub open spec fn page_count(total: nat, per_page: nat) -> nat
    recommends
        per_page > 0,
{
    ((total + per_page - 1) / (per_page as int)) as nat
}

/// Page number `page`, counted from 1, of `list` cut into pages of
/// `per_page` items. A page behind the last one is empty.
pub open spec fn page_of<A>(list: Seq<A>, page: nat, per_page: nat) -> Seq<A>
    recommends
        page >= 1,
{
    let start = (page - 1) * per_page;
    let end = if start + per_page < list.len() {
        start + per_page
    } else {
        list.len() as int
    };
    if start >= list.len() {
        Seq::empty()
    } else {
        list.subrange(start, end)
    }
}

/// The records that match, the latest seen first.
pub open spec fn listing(set: Seq<DeviceRecord>, c: Criteria) -> Seq<DeviceRecord> {
    by_recency(selected(set, c))
}

/// Where a page stands in the whole listing.
pub struct Pagination {
    pub page: u32,
    pub per_page: u32,
    pub total: usize,
    pub total_pages: usize,
}

/// One page of a listing.
pub struct FilteredPage {
    pub devices: Vec<NetworkDevice>,
    pub pagination: Pagination,
}

/// Lists the devices that meet every criterion of the filter, the latest
/// seen first, and hands out the page that the filter asks for, of at most
/// `max_per_page` devices; 0 stands for the usual limit.
pub fn list_devices(devices: &Vec<NetworkDevice>, params: &DeviceFilter, max_per_page: u32) -> (out:
    FilteredPage)
    ensures
        out.pagination.page == page_number(params.page),
        out.pagination.per_page == page_size(params.per_page, max_per_page),
        out.pagination.total == listing(records(devices@), params@).len(),
        out.pagination.total_pages == page_count(
            out.pagination.total as nat,
            out.pagination.per_page as nat,
        ),
        records(out.devices@) == page_of(
            listing(records(devices@), params@),
            page_number(params.page),
            page_size(params.per_page, max_per_page),
        ),
{
    let matching = select_devices(devices, params);
    let sorted = sort_by_recency(matching);
    let page: u32 = match params.page {
        Some(n) => if n >= 1 {
            n
        } else {
            1
        },
        None => 1,
    };
    let limit: u32 = if max_per_page == 0 {
        MAX_PER_PAGE
    } else {
        max_per_page
    };
    let asked: u32 = match params.per_page {
        Some(n) => if n == 0 {
            DEFAULT_PER_PAGE
        } else {
            n
        },
        None => DEFAULT_PER_PAGE,
    };
    let per_page: u32 = if asked > limit {
        limit
    } else {
        asked
    };
    let total = sorted.len();
    let size: usize = per_page as usize;
    assert(total % size != 0 ==> total / size + 1 <= total) by (nonlinear_arith)
        requires
            size >= 1,
    ;
    assert(total / size <= total) by (nonlinear_arith)
        requires
            size >= 1,
    ;
    let total_pages: usize = total / size + if total % size != 0 {
        1
    } else {
        0
    };
    proof {
        lemma_page_count(total as nat, size as nat);
    }
    assert((page - 1) * per_page <= 0xffff_ffff * 0xffff_ffff) by (nonlinear_arith)
        requires
            1 <= page <= 0xffff_ffff,
            per_page <= 0xffff_ffff,
    ;
    let start: u64 = ((page - 1) as u64) * (per_page as u64);
    let mut shown: Vec<NetworkDevice> = Vec::new();
    if start < total as u64 {
        let first: usize = start as usize;
        let end: usize = if total - first > size {
            first + size
        } else {
            total
        };
        let mut i: usize = first;
        proof {
            assert(records(sorted@).subrange(first as int, first as int) =~= records(shown@));
        }
        while i < end
            invariant
                first <= i <= end <= total == sorted.len(),
                records(shown@) == records(sorted@).subrange(first as int, i as int),
            decreases end - i,
        {
            let ghost before = records(shown@);
            shown.push(sorted[i].clone());
            proof {
                assert(records(shown@) =~= before.push(sorted@[i as int]@));
                assert(records(sorted@).subrange(first as int, i + 1) =~= records(
                    sorted@,
                ).subrange(first as int, i as int).push(sorted@[i as int]@));
            }
            i += 1;
        }
    } else {
        proof {
            assert(records(shown@) =~= Seq::<DeviceRecord>::empty());
        }
    }
    FilteredPage { devices: shown, pagination: Pagination { page, per_page, total, total_pages } }
}

/// Lists the devices that meet every criterion of the filter, the latest
/// seen first, and hands out the page that the filter asks for, of at most
/// `MAX_PER_PAGE` devices.
pub fn get_filtered_devices(devices: &Vec<NetworkDevice>, params: &DeviceFilter) -> (out:
    FilteredPage)
    ensures
        out.pagination.page == page_number(params.page),
        out.pagination.per_page == page_size(params.per_page, MAX_PER_PAGE),
        out.pagination.total == listing(records(devices@), params@).len(),
        out.pagination.total_pages == page_count(
            out.pagination.total as nat,
            out.pagination.per_page as nat,
        ),
        records(out.devices@) == page_of(
            listing(records(devices@), params@),
            page_number(params.page),
            page_size(params.per_page, MAX_PER_PAGE),
        ),
{
    list_devices(devices, params, MAX_PER_PAGE)
}

/// Rounding up: the pages needed are the full pages and one more for a
/// remainder.
pub proof fn lemma_page_count(total: nat, per_page: nat)
    requires
        per_page > 0,
    ensures
        page_count(total, per_page) == total / per_page + if total % per_page != 0 {
            1nat
        } else {
            0nat
        },
{
    let q = total / per_page;
    let r = total % per_page;
    assert(total == q * per_page + r) by {
        vstd::arithmetic::div_mod::lemma_fundamental_div_mod(total as int, per_page as int);
        assert(per_page * q == q * per_page) by (nonlinear_arith);
    }
    if r == 0 {
        assert((q * per_page + per_page - 1) / (per_page as int) == q) by (nonlinear_arith)
            requires
                per_page > 0,
                q >= 0,
        ;
    } else {
        assert((q * per_page + r + per_page - 1) / (per_page as int) == q + 1) by (nonlinear_arith)
            requires
                per_page > 0,
                q >= 0,
                0 < r < per_page,
        ;
    }
}

/// The pages cut the list up without gap or overlap: item `k` of page
/// `page` is item `(page - 1) * per_page + k` of the list; every page but
/// the last is full; the last holds the rest, at least one item; behind
/// the last page every page is empty.
pub proof fn lemma_pages(list: Seq<DeviceRecord>, page: nat, per_page: nat)
    requires
        page >= 1,
        per_page >= 1,
    ensures
        page_of(list, page, per_page).len() <= per_page,
        forall|k: int|
            0 <= k < page_of(list, page, per_page).len() ==> #[trigger] page_of(
                list,
                page,
                per_page,
            )[k] == list[(page - 1) * per_page + k],
        page < page_count(list.len(), per_page) ==> page_of(list, page, per_page).len()
            == per_page,
        page == page_count(list.len(), per_page) ==> page_of(list, page, per_page).len()
            == list.len() - (page - 1) * per_page && page_of(list, page, per_page).len() >= 1,
        page > page_count(list.len(), per_page) ==> page_of(list, page, per_page).len() == 0,
{
    let total = list.len();
    let q = total / per_page;
    let r = total % per_page;
    lemma_page_count(total, per_page);
    assert(total == q * per_page + r && r < per_page) by {
        vstd::arithmetic::div_mod::lemma_fundamental_div_mod(total as int, per_page as int);
        assert(per_page * q == q * per_page) by (nonlinear_arith);
        vstd::arithmetic::div_mod::lemma_mod_bound(total as int, per_page as int);
    }
    let start = (page - 1) * per_page;
    assert(start >= 0) by (nonlinear_arith)
        requires
            start == (page - 1) * per_page,
            page >= 1,
            per_page >= 1,
    ;
    if page <= q {
        assert(start + per_page <= total) by (nonlinear_arith)
            requires
                start == (page - 1) * per_page,
                page <= q,
                total == q * per_page + r,
                r >= 0,
                per_page >= 1,
        ;
        if page == q {
            assert(start + per_page == q * per_page) by (nonlinear_arith)
                requires
                    start == (page - 1) * per_page,
                    page == q,
            ;
        }
    } else if page == q + 1 {
        assert(start == q * per_page);
    } else {
        assert(start >= total) by (nonlinear_arith)
            requires
                start == (page - 1) * per_page,
                page >= q + 2,
                total == q * per_page + r,
                r < per_page,
                per_page >= 1,
        ;
    }
}

/// The filters combine with "and": a record is listed exactly when it is in
/// the set and meets every criterion that is present. One that meets the
/// kind asked for but not the status is left out.
pub proof fn lemma_selected_members(set: Seq<DeviceRecord>, c: Criteria, r: DeviceRecord)
    ensures
        selected(set, c).contains(r) <==> set.contains(r) && matches(r, c),
    decreases set.len(),
{
    if set.len() > 0 {
        let init = set.drop_last();
        lemma_selected_members(init, c, r);
        let s = selected(set, c);
        if s.contains(r) {
            let k = choose|k: int| 0 <= k < s.len() && s[k] == r;
            if matches(set.last(), c) && k == s.len() - 1 {
                assert(set[set.len() - 1] == r);
            } else {
                assert(selected(init, c)[k] == r);
                let m = choose|m: int| 0 <= m < init.len() && init[m] == r;
                assert(set[m] == r);
            }
        }
        if set.contains(r) && matches(r, c) {
            let m = choose|m: int| 0 <= m < set.len() && set[m] == r;
            if m == set.len() - 1 {
                assert(s[s.len() - 1] == r);
            } else {
                assert(init[m] == r);
                let k = choose|k: int| 0 <= k < selected(init, c).len() && selected(init, c)[k] == r;
                assert(s[k] == r);
            }
        }
    }
}

} // verus!
