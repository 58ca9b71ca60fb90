//! The device record and its mathematical model.

use vstd::prelude::*;

verus! {

/// One host of the network, as merged from every source that saw it.
pub struct NetworkDevice {
    pub ip: String,
    pub mac: String,
    pub hostname: String,
    pub vendor: String,
    pub device_type: String,
    pub first_seen: u64,
    pub last_seen: u64,
    pub status: String,
    pub tags: Vec<String>,
    pub notes: String,
    pub os: String,
}

/// What a `NetworkDevice` holds, as plain mathematical values.
pub struct DeviceRecord {
    pub ip: Seq<char>,
    pub mac: Seq<char>,
    pub hostname: Seq<char>,
    pub vendor: Seq<char>,
    pub device_type: Seq<char>,
    pub first_seen: u64,
    pub last_seen: u64,
    pub status: Seq<char>,
    pub tags: Seq<Seq<char>>,
    pub notes: Seq<char>,
    pub os: Seq<char>,
}

/// The views of a sequence of strings.
pub open spec fn strings(v: Seq<String>) -> Seq<Seq<char>> {
    v.map_values(|s: String| s@)
}

impl View for NetworkDevice {
    type V = DeviceRecord;

    open spec fn view(&self) -> DeviceRecord {
        DeviceRecord {
            ip: self.ip@,
            mac: self.mac@,
            hostname: self.hostname@,
            vendor: self.vendor@,
            device_type: self.device_type@,
            first_seen: self.first_seen,
            last_seen: self.last_seen,
            status: self.status@,
            tags: strings(self.tags@),
            notes: self.notes@,
            os: self.os@,
        }
    }
}

/// The records that a sequence of devices stands for.
pub open spec fn records(devices: Seq<NetworkDevice>) -> Seq<DeviceRecord> {
    devices.map_values(|d: NetworkDevice| d@)
}

/// A copy of a list of strings.
pub fn clone_strings(v: &Vec<String>) -> (out: Vec<String>)
    ensures
        strings(out@) == strings(v@),
{
    let mut out: Vec<String> = Vec::new();
    let mut i: usize = 0;
    while i < v.len()
        invariant
            i <= v.len(),
            strings(out@) == strings(v@.subrange(0, i as int)),
        decreases v.len() - i,
    {
        let ghost before = strings(out@);
        let item = v[i].clone();
        out.push(item);
        proof {
            assert(strings(out@) =~= before.push(v@[i as int]@));
            assert(strings(v@.subrange(0, i + 1)) =~= strings(v@.subrange(0, i as int)).push(
                v@[i as int]@,
            ));
        }
        i += 1;
    }
    proof {
        assert(v@.subrange(0, v.len() as int) =~= v@);
    }
    out
}

impl Clone for NetworkDevice {
    fn clone(&self) -> (out: Self)
        ensures
            out@ == self@,
    {
        NetworkDevice {
            ip: self.ip.clone(),
            mac: self.mac.clone(),
            hostname: self.hostname.clone(),
            vendor: self.vendor.clone(),
            device_type: self.device_type.clone(),
            first_seen: self.first_seen,
            last_seen: self.last_seen,
            status: self.status.clone(),
            tags: clone_strings(&self.tags),
            notes: self.notes.clone(),
            os: self.os.clone(),
        }
    }
}

} // verus!
