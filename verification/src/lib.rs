//! An inventory of the devices on the local network.
//!
//! Several sources tell of the hosts of a network: the address-resolution
//! table, the host's own interface configuration, replies to a multicast
//! service search, the name services. Each tells a part, and they overlap.
//! This library reads what the sources print, merges the sightings into one
//! record for each device, fills the gaps from built-in tables, and answers
//! questions about the resulting set: counts, filtered pages, the topology.
//!
//! Every function states what it computes over a mathematical model of its
//! arguments, and is proved to do so. Reading the clock, lower-casing text
//! beyond ASCII, decoding bytes and dissecting packets are left to the
//! standard library, to `chrono` and to `pnet`, behind a few small
//! functions whose contracts are taken on trust.

pub mod address;
pub mod arp;
pub mod capture;
pub mod case;
pub mod clock;
pub mod convert;
pub mod cut;
pub mod device;
pub mod dhcp;
pub mod discovery;
pub mod discovery_laws;
pub mod enrich;
pub mod filter;
pub mod inventory;
pub mod merge;
pub mod merge_laws;
pub mod monitor;
pub mod names;
pub mod number;
pub mod packets;
pub mod priming;
pub mod scan;
pub mod search;
pub mod sniff;
pub mod split;
pub mod ssdp;
pub mod store;
pub mod tally;
pub mod telemetry;
pub mod text;
pub mod topology;
pub mod topology_laws;
pub mod totals;
pub mod traffic;
pub mod vendor;
pub mod wifi;
pub mod wifi_scan;
pub mod wifi_status;
