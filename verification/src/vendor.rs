//! Who made a device, and what kind of device it is, guessed from the first
//! three octets of its hardware address and from the maker's name.

use crate::address::{normalize_chars, normalized_mac};
use crate::case::{lower, lowercase};
use crate::search::{begins_with, has_substring, holds, starts_with};
use crate::text::chars_of;
use vstd::prelude::*;

verus! {

/// The maker that the built-in table gives for a canonical hardware address,
/// by its first three octets; `"Unknown"` where the table has none.
pub open spec fn vendor_of(mac: Seq<char>) -> Seq<char> {
    if starts_with(mac, "00:50:56"@) {
        "VMware"@
    } else if starts_with(mac, "08:00:27"@) {
        "VirtualBox"@
    } else if starts_with(mac, "00:15:5d"@) {
        "Microsoft"@
    } else if starts_with(mac, "00:1c:42"@) {
        "Parallels"@
    } else if starts_with(mac, "ac:de:48"@) {
        "Apple"@
    } else if starts_with(mac, "00:23:df"@) {
        "Apple"@
    } else if starts_with(mac, "28:cf:e9"@) {
        "Apple"@
    } else if starts_with(mac, "a4:83:e7"@) {
        "Apple"@
    } else {
        "Unknown"@
    }
}

/// The maker that the wider table gives for a canonical hardware address:
/// a few makers of routers and boards first, then `vendor_of`.
pub open spec fn wider_vendor_of(mac: Seq<char>) -> Seq<char> {
    if starts_with(mac, "f4:f5:e8"@) {
        "TP-Link"@
    } else if starts_with(mac, "b8:27:eb"@) {
        "Raspberry Pi"@
    } else if starts_with(mac, "3c:84:6a"@) {
        "Ubiquiti"@
    } else if starts_with(mac, "fc:ec:da"@) {
        "Xiaomi"@
    } else if starts_with(mac, "d4:6a:6a"@) {
        "ASUSTek"@
    } else if starts_with(mac, "1c:bf:c0"@) {
        "Samsung"@
    } else {
        vendor_of(mac)
    }
}

/// The kind of device that a maker's name in lower case suggests.
pub open spec fn device_type_of(vendor: Seq<char>) -> Seq<char> {
    if has_substring(vendor, "vmware"@) || has_substring(vendor, "virtualbox"@) || has_substring(
        vendor,
        "parallels"@,
    ) || has_substring(vendor, "microsoft"@) {
        "Computer"@
    } else if has_substring(vendor, "apple"@) || has_substring(vendor, "samsung"@)
        || has_substring(vendor, "xiaomi"@) {
        "Phone"@
    } else if has_substring(vendor, "tp-link"@) || has_substring(vendor, "ubiquiti"@)
        || has_substring(vendor, "asus"@) {
        "Router"@
    } else {
        "Unknown"@
    }
}

/// The maker of the device with the canonical hardware address `mac`.
pub fn vendor_for(mac: &[char]) -> (out: String)
    ensures
        out@ == vendor_of(mac@),
{
    if begins_with(mac, "00:50:56") {
        "VMware".to_owned()
    } else if begins_with(mac, "08:00:27") {
        "VirtualBox".to_owned()
    } else if begins_with(mac, "00:15:5d") {
        "Microsoft".to_owned()
    } else if begins_with(mac, "00:1c:42") {
        "Parallels".to_owned()
    } else if begins_with(mac, "ac:de:48") {
        "Apple".to_owned()
    } else if begins_with(mac, "00:23:df") {
        "Apple".to_owned()
    } else if begins_with(mac, "28:cf:e9") {
        "Apple".to_owned()
    } else if begins_with(mac, "a4:83:e7") {
        "Apple".to_owned()
    } else {
        "Unknown".to_owned()
    }
}

/// The maker of the device with the canonical hardware address `mac`, by the
/// built-in table.
pub fn get_vendor_from_mac(mac: &str) -> (out: String)
    ensures
        out@ == vendor_of(mac@),
{
    let chars = chars_of(mac);
    vendor_for(chars.as_slice())
}

/// The maker of the device with the canonical hardware address `mac`, by the
/// wider table.
pub fn wider_vendor_for(mac: &[char]) -> (out: String)
    ensures
        out@ == wider_vendor_of(mac@),
{
    if begins_with(mac, "f4:f5:e8") {
        "TP-Link".to_owned()
    } else if begins_with(mac, "b8:27:eb") {
        "Raspberry Pi".to_owned()
    } else if begins_with(mac, "3c:84:6a") {
        "Ubiquiti".to_owned()
    } else if begins_with(mac, "fc:ec:da") {
        "Xiaomi".to_owned()
    } else if begins_with(mac, "d4:6a:6a") {
        "ASUSTek".to_owned()
    } else if begins_with(mac, "1c:bf:c0") {
        "Samsung".to_owned()
    } else {
        vendor_for(mac)
    }
}

/// The maker of the device with the hardware address `mac`, in any spelling,
/// by the wider table.
pub fn lookup_vendor_map(mac: &str) -> (out: String)
    ensures
        out@ == wider_vendor_of(normalized_mac(mac@)),
{
    let chars = chars_of(mac);
    let normal = normalize_chars(chars.as_slice());
    wider_vendor_for(normal.as_slice())
}

/// The kind of device that the maker's name `vendor`, in lower case, suggests.
pub fn device_type_for(vendor: &[char]) -> (out: String)
    ensures
        out@ == device_type_of(vendor@),
{
    if holds(vendor, "vmware") || holds(vendor, "virtualbox") || holds(vendor, "parallels")
        || holds(vendor, "microsoft") {
        "Computer".to_owned()
    } else if holds(vendor, "apple") || holds(vendor, "samsung") || holds(vendor, "xiaomi") {
        "Phone".to_owned()
    } else if holds(vendor, "tp-link") || holds(vendor, "ubiquiti") || holds(vendor, "asus") {
        "Router".to_owned()
    } else {
        "Unknown".to_owned()
    }
}

/// The kind of device that the maker's name suggests, whatever its case. The
/// address plays no part.
pub fn guess_device_type(_ip: &str, vendor: &str) -> (out: String)
    ensures
        out@ == device_type_of(lower(vendor@)),
{
    let chars = chars_of(vendor);
    let lowered = lowercase(chars.as_slice());
    device_type_for(lowered.as_slice())
}

} // verus!
