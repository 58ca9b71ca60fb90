//! The address-resolution table: one neighbour per line, an IPv4 address and
//! a hardware address in the first two fields.
//!
//! A line counts by its form alone. Headers and notes, in whatever language
//! the platform prints them, fail the form and are passed over.

use crate::address::{
    check_ipv4, check_mac, is_broadcast_mac, is_ipv4, is_mac, is_multicast, normalize_chars,
    normalized_mac,
};
use crate::clock::now_secs;
use crate::device::{records, DeviceRecord, NetworkDevice};
use crate::split::{fields_of, lines_of, split_fields, split_lines, texts};
use crate::text::{chars_of, same_chars, string_of};
use crate::vendor::{vendor_for, vendor_of};
use vstd::prelude::*;

verus! {

/// The line names a neighbour: its first field is a dotted quad outside the
/// multicast range, its second a hardware address other than broadcast.
pub open spec fn arp_accepts(line: Seq<char>) -> bool {
    let fields = fields_of(line);
    &&& fields.len() >= 2
    &&& is_ipv4(fields[0])
    &&& is_mac(fields[1])
    &&& !is_multicast(fields[0])
    &&& !is_broadcast_mac(fields[1])
}

/// The record that an accepted line gives when read at time `now`.
pub open spec fn arp_record(line: Seq<char>, now: u64) -> DeviceRecord {
    let fields = fields_of(line);
    DeviceRecord {
        ip: fields[0],
        mac: normalized_mac(fields[1]),
        hostname: Seq::empty(),
        vendor: vendor_of(normalized_mac(fields[1])),
        device_type: "Unknown"@,
        first_seen: now,
        last_seen: now,
        status: "online"@,
        tags: Seq::empty(),
        notes: Seq::empty(),
        os: Seq::empty(),
    }
}

/// Reads one line of the table at time `now`.
pub fn arp_entry(line: &[char], now: u64) -> (r: Option<NetworkDevice>)
    ensures
        r is Some <==> arp_accepts(line@),
        r matches Some(d) ==> d@ == arp_record(line@, now),
{
    let fields = split_fields(line);
    if fields.len() < 2 {
        return None;
    }
    proof {
        assert(texts(fields@)[0] == fields@[0]@);
        assert(texts(fields@)[1] == fields@[1]@);
    }
    let ip = fields[0].as_slice();
    let mac = fields[1].as_slice();
    let first_octet = match check_ipv4(ip) {
        Some(v) => v,
        None => {
            return None;
        },
    };
    if !check_mac(mac) {
        return None;
    }
    if first_octet >= 224 && first_octet <= 239 {
        return None;
    }
    let normal = normalize_chars(mac);
    let broadcast = chars_of("ff:ff:ff:ff:ff:ff");
    if same_chars(normal.as_slice(), broadcast.as_slice()) {
        return None;
    }
    let device = NetworkDevice {
        ip: string_of(ip),
        mac: string_of(normal.as_slice()),
        hostname: String::new(),
        vendor: vendor_for(normal.as_slice()),
        device_type: "Unknown".to_owned(),
        first_seen: now,
        last_seen: now,
        status: "online".to_owned(),
        tags: Vec::new(),
        notes: String::new(),
        os: String::new(),
    };
    proof {
        assert(device@.tags =~= Seq::<Seq<char>>::empty());
    }
    Some(device)
}

/// Reads one line of the table at time `now`.
pub fn parse_arp_line_at(line: &str, now: u64) -> (r: Option<NetworkDevice>)
    ensures
        r is Some <==> arp_accepts(line@),
        r matches Some(d) ==> d@ == arp_record(line@, now),
{
    let chars = chars_of(line);
    arp_entry(chars.as_slice(), now)
}

/// Reads one line of the table, stamping the record with the present time.
pub fn parse_arp_line(line: &str) -> (r: Option<NetworkDevice>)
    ensures
        r is Some <==> arp_accepts(line@),
        r matches Some(d) ==> d@ == arp_record(line@, d.first_seen),
{
    parse_arp_line_at(line, now_secs())
}

/// The records of the accepted lines among `lines`, in their order.
pub open spec fn arp_records(lines: Seq<Seq<char>>, now: u64) -> Seq<DeviceRecord>
    decreases lines.len(),
{
    if lines.len() == 0 {
        Seq::empty()
    } else if arp_accepts(lines.last()) {
        arp_records(lines.drop_last(), now).push(arp_record(lines.last(), now))
    } else {
        arp_records(lines.drop_last(), now)
    }
}

/// Reads a whole table, as the platform printed it, at time `now`: one
/// record for each accepted line, in the order of the lines.
pub fn scan_arp(table: &str, now: u64) -> (out: Vec<NetworkDevice>)
    ensures
        records(out@) == arp_records(lines_of(table@), now),
{
    let chars = chars_of(table);
    let lines = split_lines(chars.as_slice());
    let mut out: Vec<NetworkDevice> = Vec::new();
    let mut i: usize = 0;
    while i < lines.len()
        invariant
            i <= lines.len(),
            records(out@) == arp_records(texts(lines@).subrange(0, i as int), now),
        decreases lines.len() - i,
    {
        let ghost before = records(out@);
        let ghost seen = texts(lines@).subrange(0, i + 1);
        proof {
            assert(seen.drop_last() =~= texts(lines@).subrange(0, i as int));
            assert(seen.last() == lines@[i as int]@);
        }
        match arp_entry(lines[i].as_slice(), now) {
            Some(device) => {
                out.push(device);
                proof {
                    assert(records(out@) =~= before.push(device@));
                }
            },
            None => {},
        }
        i += 1;
    }
    proof {
        assert(texts(lines@).subrange(0, lines.len() as int) =~= texts(lines@));
    }
    out
}

} // verus!
