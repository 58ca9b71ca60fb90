//! Connections and interface counters, read from what the platform's tools
//! print.

use crate::case::{lower, lowercase, upper, uppercase};
use crate::device::strings;
use crate::number::{parse_unsigned, unsigned_value};
use crate::scan::{first_where, lemma_first_where_is, lemma_trailing_count_is, trailing_count};
use crate::search::{begins_with, starts_with};
use crate::split::{
    fields_of, find_char, first_index, is_char, lines_of, split_chars, split_fields, split_lines,
    split_on, texts,
};
use crate::text::{chars_of, copy_range, same_chars, string_of, trim, trimmed};
use crate::totals::{
    heaviest_first, pairs, rank, ranked, sums_of, total_up, total_up_numbers, Total,
};
use vstd::prelude::*;

verus! {

// ---------------------------------------------------------------------------
// Host and port
// ---------------------------------------------------------------------------

/// How many characters other than `c` the text ends with.
pub open spec fn tail_without(s: Seq<char>, c: char) -> nat {
    trailing_count(s, |x: char| !is_char(x, c))
}

/// A square bracket.
pub open spec fn is_bracket(c: char) -> bool {
    c == '[' || c == ']'
}

/// How many square brackets the text begins with.
pub open spec fn leading_brackets(s: Seq<char>) -> nat {
    first_where(s, |c: char| !is_bracket(c))
}

/// How many square brackets the text ends with.
pub open spec fn trailing_brackets(s: Seq<char>) -> nat {
    trailing_count(s, |c: char| is_bracket(c))
}

/// The text without the square brackets at its start and at its end.
pub open spec fn strip_brackets(s: Seq<char>) -> Seq<char> {
    let t = s.subrange(leading_brackets(s) as int, s.len() as int);
    t.subrange(0, t.len() - trailing_brackets(t))
}

/// The port that a text spells: an unsigned number of at most 65535, or 0
/// where the text spells none.
pub open spec fn port_of(s: Seq<char>) -> nat {
    match unsigned_value(s, 65535) {
        Some(v) => v,
        None => 0,
    }
}

/// The host of an endpoint: what stands before its last colon, without
/// square brackets around it; the whole text where it has no colon.
pub open spec fn endpoint_host(s: Seq<char>) -> Seq<char> {
    let t = tail_without(s, ':');
    if t >= s.len() {
        s
    } else {
        strip_brackets(s.subrange(0, s.len() - 1 - t))
    }
}

/// The port of an endpoint: what stands behind its last colon, read as a
/// port; 0 where it has no colon.
pub open spec fn endpoint_port(s: Seq<char>) -> nat {
    let t = tail_without(s, ':');
    if t >= s.len() {
        0
    } else {
        port_of(s.subrange(s.len() - t, s.len() as int))
    }
}

/// The text without the square brackets at its start and at its end.
fn without_brackets(s: &[char]) -> (out: Vec<char>)
    ensures
        out@ == strip_brackets(s@),
{
    let n = s.len();
    let mut a: usize = 0;
    while a < n && (s[a] == '[' || s[a] == ']')
        invariant
            a <= n == s.len(),
            forall|j: int| 0 <= j < a ==> is_bracket(#[trigger] s@[j]),
        decreases n - a,
    {
        a += 1;
    }
    proof {
        lemma_first_where_is(s@, |c: char| !is_bracket(c), a as int);
    }
    let ghost t = s@.subrange(a as int, n as int);
    let mut b: usize = n;
    while b > a && (s[b - 1] == '[' || s[b - 1] == ']')
        invariant
            a <= b <= n == s.len(),
            forall|j: int| b <= j < n ==> is_bracket(#[trigger] s@[j]),
        decreases b,
    {
        b -= 1;
    }
    proof {
        assert forall|j: int| t.len() - (n - b) <= j < t.len() implies is_bracket(
            #[trigger] t[j],
        ) by {
            assert(t[j] == s@[j + a]);
        }
        if n - b < t.len() {
            assert(t[t.len() - (n - b) - 1] == s@[b - 1]);
        }
        lemma_trailing_count_is(t, |c: char| is_bracket(c), (n - b) as int);
        assert(s@.subrange(a as int, b as int) =~= t.subrange(0, t.len() - (n - b)));
    }
    copy_range(s, a, b)
}

/// Parts an endpoint into host and port.
pub fn split_endpoint(s: &[char]) -> (r: (Vec<char>, u16))
    ensures
        r.0@ == endpoint_host(s@),
        r.1 == endpoint_port(s@),
{
    let n = s.len();
    let mut end: usize = n;
    while end > 0 && s[end - 1] != ':'
        invariant
            end <= n == s.len(),
            forall|j: int| end <= j < n ==> #[trigger] s@[j] != ':',
        decreases end,
    {
        end -= 1;
    }
    proof {
        lemma_trailing_count_is(s@, |x: char| !is_char(x, ':'), n - end);
    }
    if end == 0 {
        proof {
            assert(s@.subrange(0, n as int) =~= s@);
        }
        return (copy_range(s, 0, n), 0);
    }
    let before = copy_range(s, 0, end - 1);
    let host = without_brackets(before.as_slice());
    let after = copy_range(s, end, n);
    let port: u16 = match parse_unsigned(after.as_slice(), 65535) {
        Some(v) => v as u16,
        None => 0,
    };
    (host, port)
}

/// Parts an endpoint such as `10.0.0.5:443` or `[::1]:53` into host and
/// port. The port is 0 where the text names none.
pub fn split_host_port(s: &str) -> (r: (String, u16))
    ensures
        r.0@ == endpoint_host(s@),
        r.1 == endpoint_port(s@),
{
    let chars = chars_of(s);
    let (host, port) = split_endpoint(chars.as_slice());
    (string_of(host.as_slice()), port)
}

// ---------------------------------------------------------------------------
// Flows
// ---------------------------------------------------------------------------

/// One kind of connection and how many of it were seen.
pub struct FlowRow {
    pub proto: String,
    pub local_ip: String,
    pub local_port: u16,
    pub remote_ip: String,
    pub remote_port: u16,
    pub state: String,
    pub count: u32,
}

/// A flow as plain values.
pub struct FlowView {
    pub proto: Seq<char>,
    pub local_ip: Seq<char>,
    pub local_port: u16,
    pub remote_ip: Seq<char>,
    pub remote_port: u16,
    pub state: Seq<char>,
    pub count: u32,
}

impl View for FlowRow {
    type V = FlowView;

    open spec fn view(&self) -> FlowView {
        FlowView {
            proto: self.proto@,
            local_ip: self.local_ip@,
            local_port: self.local_port,
            remote_ip: self.remote_ip@,
            remote_port: self.remote_port,
            state: self.state@,
            count: self.count,
        }
    }
}

/// The flows as plain values.
pub open spec fn flows(rows: Seq<FlowRow>) -> Seq<FlowView> {
    rows.map_values(|r: FlowRow| r@)
}

/// The two rows are of the same kind of connection: they agree in all but
/// the count.
pub open spec fn same_flow(a: FlowView, b: FlowView) -> bool {
    &&& a.proto == b.proto
    &&& a.local_ip == b.local_ip
    &&& a.local_port == b.local_port
    &&& a.remote_ip == b.remote_ip
    &&& a.remote_port == b.remote_port
    &&& a.state == b.state
}

/// The position of the first row of the kind of `r`, or `rows.len()`.
pub open spec fn flow_index(rows: Seq<FlowView>, r: FlowView) -> nat {
    first_where(rows, |row: FlowView| same_flow(row, r))
}

/// One more, but never more than a count can hold.
pub open spec fn bumped(count: u32) -> u32 {
    if count < u32::MAX {
        (count + 1) as u32
    } else {
        count
    }
}

/// The rows with `r` counted in: the first row of its kind counts one more;
/// where there is none, `r` is added at the end.
pub open spec fn with_flow(rows: Seq<FlowView>, r: FlowView) -> Seq<FlowView> {
    let i = flow_index(rows, r) as int;
    if i < rows.len() {
        rows.update(i, FlowView { count: bumped(rows[i].count), ..rows[i] })
    } else {
        rows.push(r)
    }
}

/// Whether the two rows are of the same kind of connection.
fn is_same_flow(a: &FlowRow, b: &FlowRow) -> (r: bool)
    ensures
        r == same_flow(a@, b@),
{
    a.proto == b.proto && a.local_ip == b.local_ip && a.local_port == b.local_port && a.remote_ip
        == b.remote_ip && a.remote_port == b.remote_port && a.state == b.state
}

/// Counts the flow `r` in: the first row of its kind counts one more; where
/// there is none, `r` is added at the end. A count that is full stays full.
pub fn add_or_inc(rows: &mut Vec<FlowRow>, r: FlowRow)
    ensures
        flows(final(rows)@) == with_flow(flows(old(rows)@), r@),
{
    let n = rows.len();
    let mut i: usize = 0;
    while i < n && !is_same_flow(&rows[i], &r)
        invariant
            i <= n == rows.len(),
            *rows == *old(rows),
            forall|j: int| 0 <= j < i ==> !same_flow(#[trigger] flows(rows@)[j], r@),
        decreases n - i,
    {
        i += 1;
    }
    let ghost before = flows(rows@);
    proof {
        lemma_first_where_is(before, |row: FlowView| same_flow(row, r@), i as int);
    }
    if i < n {
        if rows[i].count < u32::MAX {
            rows[i].count = rows[i].count + 1;
        }
        proof {
            assert(flows(rows@) =~= before.update(
                i as int,
                FlowView { count: bumped(before[i as int].count), ..before[i as int] },
            ));
        }
    } else {
        rows.push(r);
        proof {
            assert(flows(rows@) =~= before.push(r@));
        }
    }
}

// ---------------------------------------------------------------------------
// Connection listings
// ---------------------------------------------------------------------------

/// The flow that a line of a `netstat`-style listing tells of: a line that
/// begins with `TCP` or `UDP` and has four fields or more, the second and
/// third being the local and the remote endpoint. A datagram flow has no
/// state and gets `-` for one. A line on which neither port can be read
/// tells of none.
pub open spec fn netstat_flow(line: Seq<char>) -> Option<FlowView> {
    let t = trim(line);
    let f = fields_of(t);
    if (starts_with(t, "TCP"@) || starts_with(t, "UDP"@)) && f.len() >= 4 && !(endpoint_port(f[1])
        == 0 && endpoint_port(f[2]) == 0) {
        Some(
            FlowView {
                proto: f[0],
                local_ip: endpoint_host(f[1]),
                local_port: endpoint_port(f[1]) as u16,
                remote_ip: endpoint_host(f[2]),
                remote_port: endpoint_port(f[2]) as u16,
                state: if f[0] == "UDP"@ {
                    "-"@
                } else {
                    f[3]
                },
                count: 1,
            },
        )
    } else {
        None
    }
}

/// The flow that a line of an `ss`-style listing tells of: a line that
/// begins with `tcp` or `udp` and has six fields or more, the second being
/// the state, the fifth and sixth the local and the remote endpoint.
pub open spec fn ss_flow(line: Seq<char>) -> Option<FlowView> {
    let t = trim(line);
    let f = fields_of(t);
    if (starts_with(t, "tcp"@) || starts_with(t, "udp"@)) && f.len() >= 6 {
        Some(
            FlowView {
                proto: upper(f[0]),
                local_ip: endpoint_host(f[4]),
                local_port: endpoint_port(f[4]) as u16,
                remote_ip: endpoint_host(f[5]),
                remote_port: endpoint_port(f[5]) as u16,
                state: f[1],
                count: 1,
            },
        )
    } else {
        None
    }
}

/// The rows of a `netstat`-style listing: every flow counted in, line by
/// line.
pub open spec fn netstat_flows(lines: Seq<Seq<char>>) -> Seq<FlowView>
    decreases lines.len(),
{
    if lines.len() == 0 {
        Seq::empty()
    } else {
        match netstat_flow(lines.last()) {
            Some(flow) => with_flow(netstat_flows(lines.drop_last()), flow),
            None => netstat_flows(lines.drop_last()),
        }
    }
}

/// The rows of an `ss`-style listing: every flow counted in, line by line.
pub open spec fn ss_flows(lines: Seq<Seq<char>>) -> Seq<FlowView>
    decreases lines.len(),
{
    if lines.len() == 0 {
        Seq::empty()
    } else {
        match ss_flow(lines.last()) {
            Some(flow) => with_flow(ss_flows(lines.drop_last()), flow),
            None => ss_flows(lines.drop_last()),
        }
    }
}

/// The flow that one line of a `netstat`-style listing tells of.
fn netstat_line(line: &[char]) -> (r: Option<FlowRow>)
    ensures
        match r {
            Some(row) => netstat_flow(line@) == Some(row@),
            None => netstat_flow(line@) is None,
        },
{
    let t = trimmed(line);
    if !(begins_with(t.as_slice(), "TCP") || begins_with(t.as_slice(), "UDP")) {
        return None;
    }
    let f = split_fields(t.as_slice());
    if f.len() < 4 {
        return None;
    }
    proof {
        assert(texts(f@)[0] == f@[0]@);
        assert(texts(f@)[1] == f@[1]@);
        assert(texts(f@)[2] == f@[2]@);
        assert(texts(f@)[3] == f@[3]@);
    }
    let (local_ip, local_port) = split_endpoint(f[1].as_slice());
    let (remote_ip, remote_port) = split_endpoint(f[2].as_slice());
    if local_port == 0 && remote_port == 0 {
        return None;
    }
    let udp = chars_of("UDP");
    let state = if same_chars(f[0].as_slice(), udp.as_slice()) {
        "-".to_owned()
    } else {
        string_of(f[3].as_slice())
    };
    Some(
        FlowRow {
            proto: string_of(f[0].as_slice()),
            local_ip: string_of(local_ip.as_slice()),
            local_port,
            remote_ip: string_of(remote_ip.as_slice()),
            remote_port,
            state,
            count: 1,
        },
    )
}

/// The flow that one line of an `ss`-style listing tells of.
fn ss_line(line: &[char]) -> (r: Option<FlowRow>)
    ensures
        match r {
            Some(row) => ss_flow(line@) == Some(row@),
            None => ss_flow(line@) is None,
        },
{
    let t = trimmed(line);
    if !(begins_with(t.as_slice(), "tcp") || begins_with(t.as_slice(), "udp")) {
        return None;
    }
    let f = split_fields(t.as_slice());
    if f.len() < 6 {
        return None;
    }
    proof {
        assert(texts(f@)[0] == f@[0]@);
        assert(texts(f@)[1] == f@[1]@);
        assert(texts(f@)[4] == f@[4]@);
        assert(texts(f@)[5] == f@[5]@);
    }
    let (local_ip, local_port) = split_endpoint(f[4].as_slice());
    let (remote_ip, remote_port) = split_endpoint(f[5].as_slice());
    let proto = uppercase(f[0].as_slice());
    Some(
        FlowRow {
            proto: string_of(proto.as_slice()),
            local_ip: string_of(local_ip.as_slice()),
            local_port,
            remote_ip: string_of(remote_ip.as_slice()),
            remote_port,
            state: string_of(f[1].as_slice()),
            count: 1,
        },
    )
}

/// Reads a `netstat`-style listing of connections into rows, one for each
/// kind of connection, with the number of times it was listed.
pub fn parse_netstat_flows(output: &str) -> (rows: Vec<FlowRow>)
    ensures
        flows(rows@) == netstat_flows(lines_of(output@)),
{
    let chars = chars_of(output);
    let lines = split_lines(chars.as_slice());
    let mut rows: Vec<FlowRow> = Vec::new();
    let mut i: usize = 0;
    proof {
        assert(texts(lines@).subrange(0, 0) =~= Seq::<Seq<char>>::empty());
        assert(flows(rows@) =~= Seq::<FlowView>::empty());
    }
    while i < lines.len()
        invariant
            i <= lines.len(),
            flows(rows@) == netstat_flows(texts(lines@).subrange(0, i as int)),
        decreases lines.len() - i,
    {
        proof {
            let seen = texts(lines@).subrange(0, i + 1);
            assert(seen.drop_last() =~= texts(lines@).subrange(0, i as int));
            assert(seen.last() == lines@[i as int]@);
        }
        match netstat_line(lines[i].as_slice()) {
            Some(row) => {
                add_or_inc(&mut rows, row);
            },
            None => {},
        }
        i += 1;
    }
    proof {
        assert(texts(lines@).subrange(0, lines.len() as int) =~= texts(lines@));
    }
    rows
}

/// Reads an `ss`-style listing of connections into rows, one for each kind
/// of connection, with the number of times it was listed.
pub fn parse_ss_flows(output: &str) -> (rows: Vec<FlowRow>)
    ensures
        flows(rows@) == ss_flows(lines_of(output@)),
{
    let chars = chars_of(output);
    let lines = split_lines(chars.as_slice());
    let mut rows: Vec<FlowRow> = Vec::new();
    let mut i: usize = 0;
    proof {
        assert(texts(lines@).subrange(0, 0) =~= Seq::<Seq<char>>::empty());
        assert(flows(rows@) =~= Seq::<FlowView>::empty());
    }
    while i < lines.len()
        invariant
            i <= lines.len(),
            flows(rows@) == ss_flows(texts(lines@).subrange(0, i as int)),
        decreases lines.len() - i,
    {
        proof {
            let seen = texts(lines@).subrange(0, i + 1);
            assert(seen.drop_last() =~= texts(lines@).subrange(0, i as int));
            assert(seen.last() == lines@[i as int]@);
        }
        match ss_line(lines[i].as_slice()) {
            Some(row) => {
                add_or_inc(&mut rows, row);
            },
            None => {},
        }
        i += 1;
    }
    proof {
        assert(texts(lines@).subrange(0, lines.len() as int) =~= texts(lines@));
    }
    rows
}

// ---------------------------------------------------------------------------
// Summary
// ---------------------------------------------------------------------------

/// The protocol and the count of every row.
pub open spec fn protocol_weights(rows: Seq<FlowView>) -> Seq<(Seq<char>, u32)> {
    Seq::new(rows.len(), |i: int| (rows[i].proto, rows[i].count))
}

/// The remote port and the count of every row.
pub open spec fn port_weights(rows: Seq<FlowView>) -> Seq<(u16, u32)> {
    Seq::new(rows.len(), |i: int| (rows[i].remote_port, rows[i].count))
}

/// The protocols and the remote ports of a set of flows, each with the
/// number of connections, the busiest first.
pub struct TrafficSummary {
    pub top_protocols: Vec<Total<String>>,
    pub top_ports: Vec<Total<u16>>,
}

/// Sums the connections up by protocol and by remote port and ranks both,
/// the busiest first; where two are as busy, the one met first comes first.
pub fn get_summary(rows: &Vec<FlowRow>) -> (summary: TrafficSummary)
    ensures
        pairs(summary.top_protocols@) == ranked(sums_of(protocol_weights(flows(rows@)))),
        pairs(summary.top_ports@) == ranked(sums_of(port_weights(flows(rows@)))),
        heaviest_first(pairs(summary.top_protocols@)),
        heaviest_first(pairs(summary.top_ports@)),
{
    let mut by_protocol: Vec<Total<String>> = Vec::new();
    let mut by_port: Vec<Total<u16>> = Vec::new();
    let mut i: usize = 0;
    while i < rows.len()
        invariant
            i <= rows.len(),
            by_protocol.len() == i,
            by_port.len() == i,
            forall|k: int|
                0 <= k < i ==> #[trigger] pairs(by_protocol@)[k] == (
                    rows@[k]@.proto,
                    rows@[k]@.count,
                ),
            forall|k: int|
                0 <= k < i ==> #[trigger] pairs(by_port@)[k] == (
                    rows@[k]@.remote_port,
                    rows@[k]@.count,
                ),
        decreases rows.len() - i,
    {
        let ghost protocols_before = pairs(by_protocol@);
        let ghost ports_before = pairs(by_port@);
        by_protocol.push(Total { key: rows[i].proto.clone(), total: rows[i].count });
        by_port.push(Total { key: rows[i].remote_port, total: rows[i].count });
        proof {
            assert forall|k: int| 0 <= k < i + 1 implies #[trigger] pairs(by_protocol@)[k] == (
                rows@[k]@.proto,
                rows@[k]@.count,
            ) by {
                if k < i {
                    assert(pairs(by_protocol@)[k] == protocols_before[k]);
                }
            }
            assert forall|k: int| 0 <= k < i + 1 implies #[trigger] pairs(by_port@)[k] == (
                rows@[k]@.remote_port,
                rows@[k]@.count,
            ) by {
                if k < i {
                    assert(pairs(by_port@)[k] == ports_before[k]);
                }
            }
        }
        i += 1;
    }
    proof {
        assert(pairs(by_protocol@) =~= protocol_weights(flows(rows@)));
        assert(pairs(by_port@) =~= port_weights(flows(rows@)));
    }
    TrafficSummary { top_protocols: rank(total_up(&by_protocol)), top_ports: rank(total_up_numbers(&by_port)) }
}

// ---------------------------------------------------------------------------
// Interface counters
// ---------------------------------------------------------------------------

/// Bytes received and bytes sent.
pub struct ByteTotals {
    pub received: u64,
    pub sent: u64,
}

/// The sum of two counters, but never more than a counter can hold.
pub open spec fn clipped_sum(a: u64, b: u64) -> u64 {
    if a + b > u64::MAX {
        u64::MAX
    } else {
        (a + b) as u64
    }
}

/// The counters that a line of the interface table gives: the first and
/// the ninth number behind the colon, where the line names an interface
/// other than the loopback and has sixteen numbers or more.
pub open spec fn interface_counters(line: Seq<char>) -> Option<(u64, u64)> {
    let i = first_index(line, ':');
    let cols = fields_of(trim(line.subrange(i as int + 1, line.len() as int)));
    if i < line.len() && trim(line.subrange(0, i as int)) != "lo"@ && cols.len() >= 16
        && unsigned_value(cols[0], u64::MAX as nat) is Some && unsigned_value(
        cols[8],
        u64::MAX as nat,
    ) is Some {
        Some(
            (
                unsigned_value(cols[0], u64::MAX as nat)->0 as u64,
                unsigned_value(cols[8], u64::MAX as nat)->0 as u64,
            ),
        )
    } else {
        None
    }
}

/// The counters of all the lines, added up.
pub open spec fn counters_sum(lines: Seq<Seq<char>>) -> (u64, u64)
    decreases lines.len(),
{
    if lines.len() == 0 {
        (0, 0)
    } else {
        let before = counters_sum(lines.drop_last());
        match interface_counters(lines.last()) {
            Some((r, t)) => (clipped_sum(before.0, r), clipped_sum(before.1, t)),
            None => before,
        }
    }
}

/// The counters that one line of the interface table gives.
fn counters_in(line: &[char]) -> (r: Option<(u64, u64)>)
    ensures
        r == interface_counters(line@),
{
    let i = find_char(line, 0, ':');
    proof {
        assert(line@.subrange(0, line.len() as int) =~= line@);
    }
    if i >= line.len() {
        return None;
    }
    let head = copy_range(line, 0, i);
    let name = trimmed(head.as_slice());
    let loopback = chars_of("lo");
    if same_chars(name.as_slice(), loopback.as_slice()) {
        return None;
    }
    let tail = copy_range(line, i + 1, line.len());
    let rest = trimmed(tail.as_slice());
    let cols = split_fields(rest.as_slice());
    if cols.len() < 16 {
        return None;
    }
    proof {
        assert(texts(cols@)[0] == cols@[0]@);
        assert(texts(cols@)[8] == cols@[8]@);
    }
    let received = match parse_unsigned(cols[0].as_slice(), u64::MAX) {
        Some(v) => v,
        None => {
            return None;
        },
    };
    let sent = match parse_unsigned(cols[8].as_slice(), u64::MAX) {
        Some(v) => v,
        None => {
            return None;
        },
    };
    Some((received, sent))
}

/// Adds up the bytes received and sent over every interface but the
/// loopback, as the interface table lists them. A sum that is full stays
/// full.
pub fn interface_totals(table: &str) -> (totals: ByteTotals)
    ensures
        (totals.received, totals.sent) == counters_sum(lines_of(table@)),
{
    let chars = chars_of(table);
    let lines = split_lines(chars.as_slice());
    let mut received: u64 = 0;
    let mut sent: u64 = 0;
    let mut i: usize = 0;
    proof {
        assert(texts(lines@).subrange(0, 0) =~= Seq::<Seq<char>>::empty());
    }
    while i < lines.len()
        invariant
            i <= lines.len(),
            (received, sent) == counters_sum(texts(lines@).subrange(0, i as int)),
        decreases lines.len() - i,
    {
        proof {
            let seen = texts(lines@).subrange(0, i + 1);
            assert(seen.drop_last() =~= texts(lines@).subrange(0, i as int));
            assert(seen.last() == lines@[i as int]@);
        }
        match counters_in(lines[i].as_slice()) {
            Some((r, t)) => {
                received = if received > u64::MAX - r {
                    u64::MAX
                } else {
                    received + r
                };
                sent = if sent > u64::MAX - t {
                    u64::MAX
                } else {
                    sent + t
                };
            },
            None => {},
        }
        i += 1;
    }
    proof {
        assert(texts(lines@).subrange(0, lines.len() as int) =~= texts(lines@));
    }
    ByteTotals { received, sent }
}

// ---------------------------------------------------------------------------
// Names in the resolver cache
// ---------------------------------------------------------------------------

/// The name that a line of the resolver cache gives: on a line that begins
/// with `record name`, in whatever case, what stands between its first
/// colon and the next, trimmed.
pub open spec fn cached_name(line: Seq<char>) -> Option<Seq<char>> {
    let l = trim(line);
    if starts_with(lower(l), "record name"@) && split_on(l, ':').len() >= 2 {
        Some(trim(split_on(l, ':')[1]))
    } else {
        None
    }
}

/// The names of all the lines that give one, in order.
pub open spec fn cached_names(lines: Seq<Seq<char>>) -> Seq<Seq<char>>
    decreases lines.len(),
{
    if lines.len() == 0 {
        Seq::empty()
    } else {
        match cached_name(lines.last()) {
            Some(name) => cached_names(lines.drop_last()).push(name),
            None => cached_names(lines.drop_last()),
        }
    }
}

/// The host names that the resolver cache lists.
pub fn parse_dns_cache_hosts(output: &str) -> (hosts: Vec<String>)
    ensures
        strings(hosts@) == cached_names(lines_of(output@)),
{
    let chars = chars_of(output);
    let lines = split_lines(chars.as_slice());
    let mut hosts: Vec<String> = Vec::new();
    let mut i: usize = 0;
    proof {
        assert(texts(lines@).subrange(0, 0) =~= Seq::<Seq<char>>::empty());
        assert(strings(hosts@) =~= Seq::<Seq<char>>::empty());
    }
    while i < lines.len()
        invariant
            i <= lines.len(),
            strings(hosts@) == cached_names(texts(lines@).subrange(0, i as int)),
        decreases lines.len() - i,
    {
        proof {
            let seen = texts(lines@).subrange(0, i + 1);
            assert(seen.drop_last() =~= texts(lines@).subrange(0, i as int));
            assert(seen.last() == lines@[i as int]@);
        }
        let l = trimmed(lines[i].as_slice());
        let low = lowercase(l.as_slice());
        if begins_with(low.as_slice(), "record name") {
            let parts = split_chars(l.as_slice(), ':');
            if parts.len() >= 2 {
                proof {
                    assert(texts(parts@)[1] == parts@[1]@);
                }
                let name = trimmed(parts[1].as_slice());
                let ghost before = strings(hosts@);
                hosts.push(string_of(name.as_slice()));
                proof {
                    assert(strings(hosts@) =~= before.push(name@));
                }
            }
        }
        i += 1;
    }
    proof {
        assert(texts(lines@).subrange(0, lines.len() as int) =~= texts(lines@));
    }
    hosts
}

} // verus!
