//! One discovery pass: what every source told, folded into one set.

use crate::arp::{arp_records, scan_arp};
use crate::device::{records, DeviceRecord, NetworkDevice};
use crate::dhcp::{lease_records, scan_dhcp_leases};
use crate::enrich::{enrich_devices, enriched_all, ResolvedNames};
use crate::merge::{merge_all, merge_devices};
use crate::merge_laws::distinct_identities;
use crate::split::lines_of;
use crate::ssdp::{apply_description, described, ssdp_record, ssdp_sighting};
use crate::text::opt_text;
use vstd::prelude::*;

verus! {

// ---------------------------------------------------------------------------
// Service-discovery replies
// ---------------------------------------------------------------------------

/// One reply to the multicast search: its text, the address it came from,
/// and the description document it pointed to, where that could be fetched.
pub struct SsdpReply {
    pub text: String,
    pub source_ip: String,
    pub description: Option<String>,
}

/// A reply as plain values.
pub struct ReplyText {
    pub text: Seq<char>,
    pub source_ip: Seq<char>,
    pub description: Option<Seq<char>>,
}

impl View for SsdpReply {
    type V = ReplyText;

    open spec fn view(&self) -> ReplyText {
        ReplyText {
            text: self.text@,
            source_ip: self.source_ip@,
            description: opt_text(self.description),
        }
    }
}

/// The replies as plain values.
pub open spec fn reply_texts(replies: Seq<SsdpReply>) -> Seq<ReplyText> {
    replies.map_values(|r: SsdpReply| r@)
}

/// The sighting that a reply amounts to, its description read where there
/// is one.
pub open spec fn reply_record(reply: ReplyText, now: u64) -> DeviceRecord {
    let d = ssdp_record(reply.text, reply.source_ip, now);
    match reply.description {
        Some(body) => described(d, body),
        None => d,
    }
}

/// The sightings that the replies amount to, in their order.
pub open spec fn ssdp_records(replies: Seq<ReplyText>, now: u64) -> Seq<DeviceRecord> {
    Seq::new(replies.len(), |i: int| reply_record(replies[i], now))
}

/// The sightings of the service-discovery source at time `now`: one for
/// each reply, in the order of the replies.
pub fn scan_ssdp_devices(replies: &Vec<SsdpReply>, now: u64) -> (out: Vec<NetworkDevice>)
    ensures
        records(out@) == ssdp_records(reply_texts(replies@), now),
{
    let mut out: Vec<NetworkDevice> = Vec::new();
    let mut i: usize = 0;
    while i < replies.len()
        invariant
            i <= replies.len(),
            out.len() == i,
            forall|k: int|
                0 <= k < i ==> #[trigger] records(out@)[k] == reply_record(replies@[k]@, now),
        decreases replies.len() - i,
    {
        let reply = &replies[i];
        let (mut device, _) = ssdp_sighting(reply.text.as_str(), reply.source_ip.as_str(), now);
        match &reply.description {
            Some(body) => {
                apply_description(&mut device, body.as_str());
            },
            None => {},
        }
        let ghost before = records(out@);
        out.push(device);
        proof {
            assert forall|k: int| 0 <= k < i + 1 implies #[trigger] records(out@)[k]
                == reply_record(replies@[k]@, now) by {
                if k < i {
                    assert(records(out@)[k] == before[k]);
                }
            }
        }
        i += 1;
    }
    proof {
        assert(records(out@) =~= ssdp_records(reply_texts(replies@), now));
    }
    out
}

// ---------------------------------------------------------------------------
// The pass
// ---------------------------------------------------------------------------

/// What the sources of one pass gave: the address-resolution table as the
/// platform printed it, the host's interface configuration where the
/// platform has one, and the replies to the multicast search. A source that
/// failed gives an empty text, or no replies.
pub struct Sources {
    pub arp_table: String,
    pub interface_config: String,
    pub ssdp_replies: Vec<SsdpReply>,
}

/// The sources as plain values.
pub struct SourceTexts {
    pub arp_table: Seq<char>,
    pub interface_config: Seq<char>,
    pub ssdp_replies: Seq<ReplyText>,
}

impl View for Sources {
    type V = SourceTexts;

    open spec fn view(&self) -> SourceTexts {
        SourceTexts {
            arp_table: self.arp_table@,
            interface_config: self.interface_config@,
            ssdp_replies: reply_texts(self.ssdp_replies@),
        }
    }
}

/// The set after the two local sources: the neighbours of the
/// address-resolution table, then the host's own record.
pub open spec fn local_set(arp_table: Seq<char>, interface_config: Seq<char>, now: u64) -> Seq<
    DeviceRecord,
> {
    merge_all(
        merge_all(Seq::empty(), arp_records(lines_of(arp_table), now)),
        lease_records(interface_config, now),
    )
}

/// The set after every source of the pass.
pub open spec fn gathered(sources: SourceTexts, now: u64) -> Seq<DeviceRecord> {
    merge_all(
        local_set(sources.arp_table, sources.interface_config, now),
        ssdp_records(sources.ssdp_replies, now),
    )
}

/// Folds the two local sources into one set, read at time `now`. The set
/// has one record for each identity.
pub fn scan_network_devices(arp_table: &str, interface_config: &str, now: u64) -> (out: Vec<
    NetworkDevice,
>)
    ensures
        records(out@) == local_set(arp_table@, interface_config@, now),
        distinct_identities(records(out@)),
{
    let mut devices: Vec<NetworkDevice> = Vec::new();
    proof {
        assert(records(devices@) =~= Seq::<DeviceRecord>::empty());
    }
    merge_devices(&mut devices, scan_arp(arp_table, now));
    merge_devices(&mut devices, scan_dhcp_leases(interface_config, now));
    devices
}

/// Folds every source of the pass into one set, read at time `now`. The
/// set has one record for each identity. Enrichment comes after it.
pub fn gather_devices(sources: &Sources, now: u64) -> (out: Vec<NetworkDevice>)
    ensures
        records(out@) == gathered(sources@, now),
        distinct_identities(records(out@)),
{
    let mut devices = scan_network_devices(
        sources.arp_table.as_str(),
        sources.interface_config.as_str(),
        now,
    );
    merge_devices(&mut devices, scan_ssdp_devices(&sources.ssdp_replies, now));
    devices
}

/// The inventory of a pass: the gathered set, enriched with the answers of
/// the name services.
pub open spec fn discovered(sources: SourceTexts, names: Seq<ResolvedNames>, now: u64) -> Seq<
    DeviceRecord,
> {
    enriched_all(gathered(sources, now), names)
}

/// One whole pass, read at time `now`: every source folded into one set,
/// and each record of the set enriched with the answers of the name
/// services at its position in `names`. A record without answers is
/// enriched from what it holds alone.
pub fn discover_devices(sources: &Sources, names: &Vec<ResolvedNames>, now: u64) -> (out: Vec<
    NetworkDevice,
>)
    ensures
        records(out@) == discovered(sources@, names@, now),
{
    let mut devices = gather_devices(sources, now);
    enrich_devices(&mut devices, names);
    devices
}

} // verus!
