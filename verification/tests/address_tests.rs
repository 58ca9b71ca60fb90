use lan_inventory::address::{is_valid_ipv4, is_valid_mac, normalize_mac};
use lan_inventory::arp::{parse_arp_line, parse_arp_line_at, scan_arp};
use lan_inventory::vendor::{get_vendor_from_mac, guess_device_type, lookup_vendor_map};

#[test]
fn ipv4_accepts_dotted_quads() {
    assert!(is_valid_ipv4("192.168.1.10"));
    assert!(is_valid_ipv4("0.0.0.0"));
    assert!(is_valid_ipv4("255.255.255.255"));
    assert!(is_valid_ipv4("001.002.003.004"));
    assert!(is_valid_ipv4("0000000010.0.0.1"));
}

#[test]
fn ipv4_rejects_everything_else() {
    assert!(!is_valid_ipv4(""));
    assert!(!is_valid_ipv4("1.2.3"));
    assert!(!is_valid_ipv4("1.2.3.4.5"));
    assert!(!is_valid_ipv4("256.1.1.1"));
    assert!(!is_valid_ipv4("1.2.3.999"));
    assert!(!is_valid_ipv4("1..2.3"));
    assert!(!is_valid_ipv4("1.2.3."));
    assert!(!is_valid_ipv4("+1.2.3.4"));
    assert!(!is_valid_ipv4("-1.2.3.4"));
    assert!(!is_valid_ipv4("a.b.c.d"));
    assert!(!is_valid_ipv4("1.2.3.4 "));
    assert!(!is_valid_ipv4("Interface:"));
    assert!(!is_valid_ipv4("99999999999999999999999.1.1.1"));
}

#[test]
fn mac_accepts_six_hex_pairs() {
    assert!(is_valid_mac("aa:bb:cc:dd:ee:ff"));
    assert!(is_valid_mac("AA-BB-CC-DD-EE-FF"));
    assert!(is_valid_mac("00:1c:42:00:00:08"));
    assert!(is_valid_mac("01-23:45-67:89-aB"));
}

#[test]
fn mac_rejects_everything_else() {
    assert!(!is_valid_mac(""));
    assert!(!is_valid_mac("aa:bb:cc:dd:ee"));
    assert!(!is_valid_mac("aa:bb:cc:dd:ee:ff:00"));
    assert!(!is_valid_mac("gg:bb:cc:dd:ee:ff"));
    assert!(!is_valid_mac("aabb.ccdd.eeff"));
    assert!(!is_valid_mac("a:bb:cc:dd:ee:fff"));
    assert!(!is_valid_mac("aa:bb:cc:dd:ee:f"));
    assert!(!is_valid_mac("---"));
    assert!(!is_valid_mac("0x3"));
    assert!(!is_valid_mac("N/A"));
    assert!(!is_valid_mac("aa:bb:cc:dd:ee:\u{e9}"));
}

#[test]
fn normalize_mac_lowers_and_uses_colons() {
    assert_eq!(normalize_mac("AA-BB-CC-DD-EE-FF"), "aa:bb:cc:dd:ee:ff");
    assert_eq!(normalize_mac("aa:bb:cc:dd:ee:ff"), "aa:bb:cc:dd:ee:ff");
    assert_eq!(normalize_mac("00-1C-42"), "00:1c:42");
    assert_eq!(normalize_mac(""), "");
}

#[test]
fn normalize_mac_lowers_letters_beyond_ascii() {
    assert_eq!(normalize_mac("\u{c9}-\u{416}"), "\u{e9}:\u{436}");
}

#[test]
fn arp_line_with_neighbour_is_accepted() {
    let device = parse_arp_line_at("192.168.1.10   aa:bb:cc:dd:ee:ff", 1700000000);
    let device = device.expect("one record");
    assert_eq!(device.ip, "192.168.1.10");
    assert_eq!(device.mac, "aa:bb:cc:dd:ee:ff");
    assert_eq!(device.hostname, "");
    assert_eq!(device.vendor, "Unknown");
    assert_eq!(device.device_type, "Unknown");
    assert_eq!(device.first_seen, 1700000000);
    assert_eq!(device.last_seen, 1700000000);
    assert_eq!(device.status, "online");
    assert!(device.tags.is_empty());
    assert_eq!(device.notes, "");
    assert_eq!(device.os, "");
}

#[test]
fn arp_line_in_windows_spelling_is_normalized() {
    let device = parse_arp_line_at("  192.168.1.7     00-50-56-C0-00-08     dynamic  ", 5);
    let device = device.expect("one record");
    assert_eq!(device.ip, "192.168.1.7");
    assert_eq!(device.mac, "00:50:56:c0:00:08");
    assert_eq!(device.vendor, "VMware");
}

#[test]
fn arp_header_line_is_rejected() {
    assert!(parse_arp_line_at("Interface: 192.168.1.1 --- 0x3", 1).is_none());
    assert!(parse_arp_line_at("  Internet Address      Physical Address      Type", 1).is_none());
    assert!(parse_arp_line_at("", 1).is_none());
    assert!(parse_arp_line_at("   ", 1).is_none());
    assert!(parse_arp_line_at("192.168.1.1", 1).is_none());
    assert!(parse_arp_line_at("? (192.168.1.1) at aa:bb:cc:dd:ee:ff [ether] on eth0", 1).is_none());
}

#[test]
fn arp_multicast_address_is_discarded() {
    assert!(parse_arp_line_at("224.0.0.251   01:00:5e:00:00:fb", 1).is_none());
    assert!(parse_arp_line_at("239.255.255.250   01:00:5e:7f:ff:fa", 1).is_none());
    assert!(parse_arp_line_at("230.1.2.3   01:00:5e:01:02:03", 1).is_none());
    assert!(parse_arp_line_at("223.255.255.255   aa:bb:cc:dd:ee:01", 1).is_some());
    assert!(parse_arp_line_at("240.0.0.1   aa:bb:cc:dd:ee:01", 1).is_some());
}

#[test]
fn arp_broadcast_hardware_address_is_discarded() {
    assert!(parse_arp_line_at("192.168.1.5   ff:ff:ff:ff:ff:ff", 1).is_none());
    assert!(parse_arp_line_at("192.168.1.255   ff-ff-ff-ff-ff-ff", 1).is_none());
    assert!(parse_arp_line_at("192.168.1.255   FF-FF-FF-FF-FF-FF", 1).is_none());
    assert!(parse_arp_line_at("192.168.1.5   ff:ff:ff:ff:ff:fe", 1).is_some());
}

#[test]
fn arp_line_is_stamped_with_one_time() {
    let device = parse_arp_line("10.0.0.2 aa:bb:cc:00:00:02").expect("one record");
    assert_eq!(device.first_seen, device.last_seen);
    assert!(device.first_seen > 1_600_000_000);
}

#[test]
fn arp_table_keeps_accepted_lines_in_order() {
    let table = "\r\nInterface: 192.168.1.2 --- 0x3\r\n  Internet Address      Physical Address      Type\r\n  192.168.1.1           a4-83-e7-11-22-33     dynamic\r\n  192.168.1.9           08-00-27-aa-bb-cc     dynamic\r\n  192.168.1.255         ff-ff-ff-ff-ff-ff     static\r\n  224.0.0.22            01-00-5e-00-00-16     static\r\n";
    let devices = scan_arp(table, 42);
    assert_eq!(devices.len(), 2);
    assert_eq!(devices[0].ip, "192.168.1.1");
    assert_eq!(devices[0].mac, "a4:83:e7:11:22:33");
    assert_eq!(devices[0].vendor, "Apple");
    assert_eq!(devices[1].ip, "192.168.1.9");
    assert_eq!(devices[1].vendor, "VirtualBox");
    assert_eq!(devices[1].last_seen, 42);
}

#[test]
fn arp_table_of_nothing_gives_nothing() {
    assert!(scan_arp("", 1).is_empty());
}

#[test]
fn vendor_table_by_prefix() {
    assert_eq!(get_vendor_from_mac("00:50:56:aa:bb:cc"), "VMware");
    assert_eq!(get_vendor_from_mac("08:00:27:aa:bb:cc"), "VirtualBox");
    assert_eq!(get_vendor_from_mac("00:15:5d:aa:bb:cc"), "Microsoft");
    assert_eq!(get_vendor_from_mac("00:1c:42:aa:bb:cc"), "Parallels");
    assert_eq!(get_vendor_from_mac("ac:de:48:aa:bb:cc"), "Apple");
    assert_eq!(get_vendor_from_mac("00:23:df:aa:bb:cc"), "Apple");
    assert_eq!(get_vendor_from_mac("28:cf:e9:aa:bb:cc"), "Apple");
    assert_eq!(get_vendor_from_mac("a4:83:e7:aa:bb:cc"), "Apple");
    assert_eq!(get_vendor_from_mac("00:50:56"), "VMware");
}

#[test]
fn vendor_table_misses() {
    assert_eq!(get_vendor_from_mac("12:34:56:aa:bb:cc"), "Unknown");
    assert_eq!(get_vendor_from_mac("00:50:5"), "Unknown");
    assert_eq!(get_vendor_from_mac(""), "Unknown");
    assert_eq!(get_vendor_from_mac("00:50:57:aa:bb:cc"), "Unknown");
    assert_eq!(get_vendor_from_mac("00-50-56-aa-bb-cc"), "Unknown");
    assert_eq!(get_vendor_from_mac("f4:f5:e8:00:00:01"), "Unknown");
}

#[test]
fn wider_vendor_table_normalizes_first() {
    assert_eq!(lookup_vendor_map("F4-F5-E8-00-00-01"), "TP-Link");
    assert_eq!(lookup_vendor_map("b8:27:eb:00:00:01"), "Raspberry Pi");
    assert_eq!(lookup_vendor_map("3C:84:6A:00:00:01"), "Ubiquiti");
    assert_eq!(lookup_vendor_map("fc:ec:da:00:00:01"), "Xiaomi");
    assert_eq!(lookup_vendor_map("d4:6a:6a:00:00:01"), "ASUSTek");
    assert_eq!(lookup_vendor_map("1c:bf:c0:00:00:01"), "Samsung");
    assert_eq!(lookup_vendor_map("00-50-56-AA-BB-CC"), "VMware");
    assert_eq!(lookup_vendor_map("12:34:56:78:9a:bc"), "Unknown");
    assert_eq!(lookup_vendor_map(""), "Unknown");
    assert_eq!(lookup_vendor_map("f4:f5"), "Unknown");
}

#[test]
fn device_type_from_vendor() {
    assert_eq!(guess_device_type("10.0.0.1", "VMware"), "Computer");
    assert_eq!(guess_device_type("10.0.0.1", "Oracle VirtualBox"), "Computer");
    assert_eq!(guess_device_type("10.0.0.1", "PARALLELS"), "Computer");
    assert_eq!(guess_device_type("10.0.0.1", "Microsoft"), "Computer");
    assert_eq!(guess_device_type("10.0.0.1", "Apple"), "Phone");
    assert_eq!(guess_device_type("10.0.0.1", "Samsung"), "Phone");
    assert_eq!(guess_device_type("10.0.0.1", "Xiaomi"), "Phone");
    assert_eq!(guess_device_type("10.0.0.1", "TP-Link"), "Router");
    assert_eq!(guess_device_type("10.0.0.1", "Ubiquiti"), "Router");
    assert_eq!(guess_device_type("10.0.0.1", "ASUSTek"), "Router");
    assert_eq!(guess_device_type("10.0.0.1", "Raspberry Pi"), "Unknown");
    assert_eq!(guess_device_type("10.0.0.1", "Unknown"), "Unknown");
    assert_eq!(guess_device_type("10.0.0.1", ""), "Unknown");
}

#[test]
fn device_type_first_rule_wins() {
    assert_eq!(guess_device_type("", "Apple on VMware"), "Computer");
    assert_eq!(guess_device_type("", "asus samsung"), "Phone");
}

#[test]
fn device_type_ignores_case_beyond_ascii() {
    assert_eq!(guess_device_type("", "\u{c9}cole APPLE"), "Phone");
}
