//! The host's own interface configuration, read where no lease store can be:
//! it yields one record, that of the local host.

use crate::address::{normalize_chars, normalized_mac};
use crate::case::{lower, lowercase};
use crate::cut::{behind_colon, value_after_colon};
use crate::device::{records, DeviceRecord, NetworkDevice};
use crate::search::{has_substring, holds};
use crate::split::{lines_of, split_lines, texts};
use crate::text::{chars_of, string_of, trim, trimmed};
use crate::vendor::{vendor_for, vendor_of};
use vstd::prelude::*;
use vstd::utf8::encode_utf8;

verus! {

/// What the configuration has told of the local host so far.
pub struct LocalFacts {
    pub ip: Seq<char>,
    pub mac: Seq<char>,
    pub hostname: Seq<char>,
}

/// The line gives the host's address.
pub open spec fn names_ip(label: Seq<char>) -> bool {
    has_substring(label, "ipv4 address"@) || has_substring(label, "ip address"@)
}

/// The line gives the host's hardware address.
pub open spec fn names_mac(label: Seq<char>) -> bool {
    has_substring(label, "physical address"@) || has_substring(label, "mac"@)
}

/// The line gives the host's name.
pub open spec fn names_host(label: Seq<char>) -> bool {
    has_substring(label, "host name"@)
}

/// The facts after one more line. A line is told by its text in lower case;
/// one without a colon changes nothing.
pub open spec fn ipconfig_step(facts: LocalFacts, line: Seq<char>) -> LocalFacts {
    let label = lower(trim(line));
    match value_after_colon(line) {
        None => facts,
        Some(value) => if names_ip(label) {
            LocalFacts { ip: value, ..facts }
        } else if names_mac(label) {
            LocalFacts { mac: value, ..facts }
        } else if names_host(label) {
            LocalFacts { hostname: value, ..facts }
        } else {
            facts
        },
    }
}

/// The facts after all the lines: where several lines give the same fact,
/// the last one counts.
pub open spec fn ipconfig_facts(lines: Seq<Seq<char>>) -> LocalFacts
    decreases lines.len(),
{
    if lines.len() == 0 {
        LocalFacts { ip: Seq::empty(), mac: Seq::empty(), hostname: Seq::empty() }
    } else {
        ipconfig_step(ipconfig_facts(lines.drop_last()), lines.last())
    }
}

/// The facts make a record: an address, and a hardware address of at least
/// eight bytes.
pub open spec fn facts_suffice(facts: LocalFacts) -> bool {
    facts.ip.len() > 0 && encode_utf8(facts.mac).len() >= 8
}

/// The record of the local host, made at time `now`.
pub open spec fn local_record(facts: LocalFacts, now: u64) -> DeviceRecord {
    DeviceRecord {
        ip: facts.ip,
        mac: normalized_mac(facts.mac),
        hostname: facts.hostname,
        vendor: vendor_of(normalized_mac(facts.mac)),
        device_type: "Computer"@,
        first_seen: now,
        last_seen: now,
        status: "online"@,
        tags: seq!["local"@],
        notes: Seq::empty(),
        os: Seq::empty(),
    }
}

/// Reads the host's interface configuration at time `now`.
pub fn parse_ipconfig_dhcp_at(output: &str, now: u64) -> (r: Option<NetworkDevice>)
    ensures
        r is Some <==> facts_suffice(ipconfig_facts(lines_of(output@))),
        r matches Some(d) ==> d@ == local_record(ipconfig_facts(lines_of(output@)), now),
{
    let chars = chars_of(output);
    let lines = split_lines(chars.as_slice());
    let mut ip: Vec<char> = Vec::new();
    let mut mac: Vec<char> = Vec::new();
    let mut hostname: Vec<char> = Vec::new();
    let mut i: usize = 0;
    proof {
        assert(texts(lines@).subrange(0, 0) =~= Seq::<Seq<char>>::empty());
    }
    while i < lines.len()
        invariant
            i <= lines.len(),
            ipconfig_facts(texts(lines@).subrange(0, i as int)) == (LocalFacts {
                ip: ip@,
                mac: mac@,
                hostname: hostname@,
            }),
        decreases lines.len() - i,
    {
        let line = lines[i].as_slice();
        proof {
            let seen = texts(lines@).subrange(0, i + 1);
            assert(seen.drop_last() =~= texts(lines@).subrange(0, i as int));
            assert(seen.last() == line@);
        }
        let clean = trimmed(line);
        let label = lowercase(clean.as_slice());
        match behind_colon(line) {
            None => {},
            Some(value) => {
                if holds(label.as_slice(), "ipv4 address") || holds(label.as_slice(), "ip address") {
                    ip = value;
                } else if holds(label.as_slice(), "physical address") || holds(
                    label.as_slice(),
                    "mac",
                ) {
                    mac = value;
                } else if holds(label.as_slice(), "host name") {
                    hostname = value;
                }
            },
        }
        i += 1;
    }
    proof {
        assert(texts(lines@).subrange(0, lines.len() as int) =~= texts(lines@));
    }
    let mac_text = string_of(mac.as_slice());
    if ip.len() == 0 || mac_text.as_str().as_bytes().len() < 8 {
        return None;
    }
    let normal = normalize_chars(mac.as_slice());
    let mut tags: Vec<String> = Vec::new();
    tags.push("local".to_owned());
    let device = NetworkDevice {
        ip: string_of(ip.as_slice()),
        mac: string_of(normal.as_slice()),
        hostname: string_of(hostname.as_slice()),
        vendor: vendor_for(normal.as_slice()),
        device_type: "Computer".to_owned(),
        first_seen: now,
        last_seen: now,
        status: "online".to_owned(),
        tags,
        notes: String::new(),
        os: String::new(),
    };
    proof {
        assert(device@.tags =~= seq!["local"@]);
    }
    Some(device)
}

/// Reads the host's interface configuration, stamping the record with the
/// present time.
pub fn parse_ipconfig_dhcp(output: &str) -> (r: Option<NetworkDevice>)
    ensures
        r is Some <==> facts_suffice(ipconfig_facts(lines_of(output@))),
        r matches Some(d) ==> d@ == local_record(
            ipconfig_facts(lines_of(output@)),
            d.first_seen,
        ),
{
    parse_ipconfig_dhcp_at(output, crate::clock::now_secs())
}

/// What the lease source contributes: the record of the local host where
/// the configuration gives one, nothing otherwise.
pub open spec fn lease_records(output: Seq<char>, now: u64) -> Seq<DeviceRecord> {
    let facts = ipconfig_facts(lines_of(output));
    if facts_suffice(facts) {
        seq![local_record(facts, now)]
    } else {
        Seq::empty()
    }
}

/// The sightings that the lease source contributes at time `now`.
pub fn scan_dhcp_leases(output: &str, now: u64) -> (out: Vec<NetworkDevice>)
    ensures
        records(out@) == lease_records(output@, now),
{
    let mut out: Vec<NetworkDevice> = Vec::new();
    match parse_ipconfig_dhcp_at(output, now) {
        Some(device) => {
            out.push(device);
            proof {
                assert(records(out@) =~= seq![device@]);
            }
        },
        None => {
            proof {
                assert(records(out@) =~= Seq::<DeviceRecord>::empty());
            }
        },
    }
    out
}

} // verus!
