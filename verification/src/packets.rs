//! The network interfaces of the host as devices, and a first look at raw
//! frames.

use crate::clock::now_secs;
use crate::number::{decimal_text, format_decimal};
use crate::text::{append_chars, chars_of, string_of};
use vstd::prelude::*;

verus! {

/// A device as the interface collector reports it.
#[derive(Debug)]
pub struct Device {
    pub ip: String,
    pub mac: String,
    pub vendor: String,
    pub hostname: String,
    pub device_type: String,
}

/// A device as plain values.
pub struct DeviceView {
    pub ip: Seq<char>,
    pub mac: Seq<char>,
    pub vendor: Seq<char>,
    pub hostname: Seq<char>,
    pub device_type: Seq<char>,
}

impl View for Device {
    type V = DeviceView;

    open spec fn view(&self) -> DeviceView {
        DeviceView {
            ip: self.ip@,
            mac: self.mac@,
            vendor: self.vendor@,
            hostname: self.hostname@,
            device_type: self.device_type@,
        }
    }
}

/// A captured frame, summed up for display.
#[derive(Debug)]
pub struct Packet {
    pub time: String,
    pub source: String,
    pub destination: String,
    pub protocol: String,
    pub size: u32,
    pub info: String,
}

/// A frame summary as plain values.
pub struct PacketView {
    pub time: Seq<char>,
    pub source: Seq<char>,
    pub destination: Seq<char>,
    pub protocol: Seq<char>,
    pub size: u32,
    pub info: Seq<char>,
}

impl View for Packet {
    type V = PacketView;

    open spec fn view(&self) -> PacketView {
        PacketView {
            time: self.time@,
            source: self.source@,
            destination: self.destination@,
            protocol: self.protocol@,
            size: self.size,
            info: self.info@,
        }
    }
}

/// Whose packets are asked for.
#[derive(Debug)]
pub struct PacketQuery {
    pub ip: String,
}

// ---------------------------------------------------------------------------
// Interfaces
// ---------------------------------------------------------------------------

/// What the platform tells of one network interface.
pub struct InterfaceFacts {
    pub name: String,
    pub is_up: bool,
    pub first_ip: Option<String>,
    pub mac: Option<String>,
}

/// The device that an interface is reported as. An address that the
/// interface lacks reads `Unknown`.
pub open spec fn interface_device(facts: InterfaceFacts) -> DeviceView {
    DeviceView {
        ip: match facts.first_ip {
            Some(ip) => ip@,
            None => "Unknown"@,
        },
        mac: match facts.mac {
            Some(mac) => mac@,
            None => "Unknown"@,
        },
        vendor: "Unknown"@,
        hostname: facts.name@,
        device_type: "Network Interface"@,
    }
}

/// The devices of the interfaces that are up, in order.
pub open spec fn interface_devices(interfaces: Seq<InterfaceFacts>) -> Seq<DeviceView>
    decreases interfaces.len(),
{
    if interfaces.len() == 0 {
        Seq::empty()
    } else if interfaces.last().is_up {
        interface_devices(interfaces.drop_last()).push(interface_device(interfaces.last()))
    } else {
        interface_devices(interfaces.drop_last())
    }
}

/// The devices as plain values.
pub open spec fn device_views(devices: Seq<Device>) -> Seq<DeviceView> {
    devices.map_values(|d: Device| d@)
}

/// Reports every interface that is up as a device.
pub fn collect_devices(interfaces: &Vec<InterfaceFacts>) -> (out: Vec<Device>)
    ensures
        device_views(out@) == interface_devices(interfaces@),
{
    let mut out: Vec<Device> = Vec::new();
    let mut i: usize = 0;
    proof {
        assert(interfaces@.subrange(0, 0) =~= Seq::<InterfaceFacts>::empty());
        assert(device_views(out@) =~= Seq::<DeviceView>::empty());
    }
    while i < interfaces.len()
        invariant
            i <= interfaces.len(),
            device_views(out@) == interface_devices(interfaces@.subrange(0, i as int)),
        decreases interfaces.len() - i,
    {
        proof {
            let seen = interfaces@.subrange(0, i + 1);
            assert(seen.drop_last() =~= interfaces@.subrange(0, i as int));
            assert(seen.last() == interfaces@[i as int]);
        }
        let facts = &interfaces[i];
        if facts.is_up {
            let ip = match &facts.first_ip {
                Some(ip) => ip.clone(),
                None => "Unknown".to_owned(),
            };
            let mac = match &facts.mac {
                Some(mac) => mac.clone(),
                None => "Unknown".to_owned(),
            };
            let ghost before = device_views(out@);
            let device = Device {
                ip,
                mac,
                vendor: "Unknown".to_owned(),
                hostname: facts.name.clone(),
                device_type: "Network Interface".to_owned(),
            };
            out.push(device);
            proof {
                assert(device_views(out@) =~= before.push(interface_device(interfaces@[i as int])));
            }
        }
        i += 1;
    }
    proof {
        assert(interfaces@.subrange(0, interfaces.len() as int) =~= interfaces@);
    }
    out
}

// ---------------------------------------------------------------------------
// Frames
// ---------------------------------------------------------------------------

/// Four bytes as a dotted quad.
pub open spec fn dotted(a: u8, b: u8, c: u8, d: u8) -> Seq<char> {
    decimal_text(a as nat) + seq!['.'] + decimal_text(b as nat) + seq!['.'] + decimal_text(
        c as nat,
    ) + seq!['.'] + decimal_text(d as nat)
}

/// The four bytes of the frame from `at` on as a dotted quad; `Unknown`
/// where the frame is too short to hold them.
pub open spec fn address_at(data: Seq<u8>, at: int) -> Seq<char> {
    if data.len() >= at + 4 {
        dotted(data[at], data[at + 1], data[at + 2], data[at + 3])
    } else {
        "Unknown"@
    }
}

/// The name of the transport that the frame carries, by the byte at
/// position 23; `Unknown` where the frame is too short to hold it.
pub open spec fn protocol_name(data: Seq<u8>) -> Seq<char> {
    if data.len() >= 24 {
        if data[23] == 1 {
            "ICMP"@
        } else if data[23] == 6 {
            "TCP"@
        } else if data[23] == 17 {
            "UDP"@
        } else {
            "Other"@
        }
    } else {
        "Unknown"@
    }
}

/// The summary of a frame seen at time `now`: the source address from
/// position 26, the destination from position 30, the transport from
/// position 23, and the length.
pub open spec fn packet_summary(data: Seq<u8>, now: u64) -> PacketView {
    PacketView {
        time: decimal_text(now as nat),
        source: address_at(data, 26),
        destination: address_at(data, 30),
        protocol: protocol_name(data),
        size: (data.len() % 0x1_0000_0000) as u32,
        info: "Packet data length: "@ + decimal_text(data.len()) + " bytes"@,
    }
}

/// The four bytes of the frame from `at` on as a dotted quad.
fn address_text(data: &[u8], at: usize) -> (out: String)
    requires
        at <= 1000,
    ensures
        out@ == address_at(data@, at as int),
{
    if data.len() < at + 4 {
        return "Unknown".to_owned();
    }
    let mut text: Vec<char> = format_decimal(data[at] as u64);
    text.push('.');
    let b = format_decimal(data[at + 1] as u64);
    append_chars(&mut text, b.as_slice());
    text.push('.');
    let c = format_decimal(data[at + 2] as u64);
    append_chars(&mut text, c.as_slice());
    text.push('.');
    let d = format_decimal(data[at + 3] as u64);
    append_chars(&mut text, d.as_slice());
    proof {
        assert(text@ =~= dotted(
            data@[at as int],
            data@[at + 1],
            data@[at + 2],
            data@[at + 3],
        ));
    }
    string_of(text.as_slice())
}

/// Sums up a frame seen at time `now`.
pub fn process_packet_at(data: &[u8], now: u64) -> (packet: Packet)
    ensures
        packet@ == packet_summary(data@, now),
{
    let time = format_decimal(now);
    let protocol = if data.len() >= 24 {
        let p = data[23];
        if p == 1 {
            "ICMP".to_owned()
        } else if p == 6 {
            "TCP".to_owned()
        } else if p == 17 {
            "UDP".to_owned()
        } else {
            "Other".to_owned()
        }
    } else {
        "Unknown".to_owned()
    };
    let mut info: Vec<char> = chars_of("Packet data length: ");
    let length = format_decimal(data.len() as u64);
    append_chars(&mut info, length.as_slice());
    let tail = chars_of(" bytes");
    append_chars(&mut info, tail.as_slice());
    let size: u32 = ((data.len() as u64) % 0x1_0000_0000u64) as u32;
    Packet {
        time: string_of(time.as_slice()),
        source: address_text(data, 26),
        destination: address_text(data, 30),
        protocol,
        size,
        info: string_of(info.as_slice()),
    }
}

/// Sums up a frame seen now.
pub fn process_packet(data: &[u8]) -> (packet: Packet)
    ensures
        exists|now: u64| packet@ == packet_summary(data@, now),
{
    process_packet_at(data, now_secs())
}

} // verus!
