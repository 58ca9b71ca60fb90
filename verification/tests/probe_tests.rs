use lan_inventory::device::NetworkDevice;
use lan_inventory::dhcp::{parse_ipconfig_dhcp, parse_ipconfig_dhcp_at, scan_dhcp_leases};
use lan_inventory::enrich::{
    enrich_device, enrich_devices, wants_lookup, wants_name_table, ResolvedNames,
};
use lan_inventory::names::{netbios_name, reverse_dns};
use lan_inventory::priming::{extra_cidrs, ping_targets};
use lan_inventory::ssdp::{
    apply_description, extract_os_from_server, extract_xml_tag, guess_type_from_ssdp,
    parse_http_headers, ssdp_sighting,
};

fn bare(ip: &str, mac: &str) -> NetworkDevice {
    NetworkDevice {
        ip: ip.to_string(),
        mac: mac.to_string(),
        hostname: String::new(),
        vendor: "Unknown".to_string(),
        device_type: "Unknown".to_string(),
        first_seen: 1,
        last_seen: 1,
        status: "online".to_string(),
        tags: vec![],
        notes: String::new(),
        os: String::new(),
    }
}

const IPCONFIG: &str = "Windows IP Configuration\r\n\r\n   Host Name . . . . . . . . . . . . : DESK-7\r\n   Primary Dns Suffix  . . . . . . . : \r\n\r\nEthernet adapter Ethernet:\r\n\r\n   Description . . . . . . . . . . . : Intel(R) Ethernet\r\n   Physical Address. . . . . . . . . : 00-15-5D-01-02-03\r\n   DHCP Enabled. . . . . . . . . . . : Yes\r\n   IPv4 Address. . . . . . . . . . . : 192.168.1.20\r\n   Subnet Mask . . . . . . . . . . . : 255.255.255.0\r\n";

#[test]
fn ipconfig_gives_the_local_record() {
    let device = parse_ipconfig_dhcp_at(IPCONFIG, 99).expect("the local host");
    assert_eq!(device.ip, "192.168.1.20");
    assert_eq!(device.mac, "00:15:5d:01:02:03");
    assert_eq!(device.hostname, "DESK-7");
    assert_eq!(device.vendor, "Microsoft");
    assert_eq!(device.device_type, "Computer");
    assert_eq!(device.first_seen, 99);
    assert_eq!(device.last_seen, 99);
    assert_eq!(device.status, "online");
    assert_eq!(device.tags, vec!["local".to_string()]);
    assert_eq!(device.notes, "");
    assert_eq!(device.os, "");
}

#[test]
fn ipconfig_last_line_of_a_kind_counts() {
    let text = "IPv4 Address: 10.0.0.1\nPhysical Address: 00-50-56-00-00-01\nIP Address: 10.0.0.2\n";
    let device = parse_ipconfig_dhcp_at(text, 1).expect("the local host");
    assert_eq!(device.ip, "10.0.0.2");
    assert_eq!(device.vendor, "VMware");
    assert_eq!(device.hostname, "");
}

#[test]
fn ipconfig_without_address_gives_nothing() {
    assert!(parse_ipconfig_dhcp_at("Physical Address: 00-50-56-00-00-01\n", 1).is_none());
    assert!(parse_ipconfig_dhcp_at("IPv4 Address: 10.0.0.1\n", 1).is_none());
    assert!(parse_ipconfig_dhcp_at("IPv4 Address: 10.0.0.1\nPhysical Address: 00-50\n", 1).is_none());
    assert!(parse_ipconfig_dhcp_at("", 1).is_none());
    assert!(parse_ipconfig_dhcp_at("IPv4 Address 10.0.0.1\nPhysical Address 00-50-56-00-00-01\n", 1).is_none());
}

#[test]
fn ipconfig_short_address_counts_by_bytes() {
    let text = "IPv4 Address: 10.0.0.1\nmac: \u{e9}\u{e9}\u{e9}\u{e9}\n";
    let device = parse_ipconfig_dhcp_at(text, 1).expect("eight bytes of address");
    assert_eq!(device.mac, "\u{e9}\u{e9}\u{e9}\u{e9}");
    assert_eq!(device.vendor, "Unknown");
}

#[test]
fn ipconfig_is_stamped_now() {
    let device = parse_ipconfig_dhcp(IPCONFIG).expect("the local host");
    assert_eq!(device.first_seen, device.last_seen);
    assert!(device.first_seen > 1_600_000_000);
}

#[test]
fn lease_source_gives_one_record_or_none() {
    assert_eq!(scan_dhcp_leases(IPCONFIG, 3).len(), 1);
    assert_eq!(scan_dhcp_leases("nothing here", 3).len(), 0);
}

const REPLY: &str = "HTTP/1.1 200 OK\r\nCACHE-CONTROL: max-age=1800\r\nLOCATION: http://192.168.1.1:5000/rootDesc.xml\r\nSERVER: Linux/3.4 UPnP/1.0 MiniUPnPd/1.9\r\nST: urn:schemas-upnp-org:device:InternetGatewayDevice:1\r\nUSN: uuid:1234::urn:schemas-upnp-org:device:InternetGatewayDevice:1\r\n\r\n";

#[test]
fn headers_are_read_by_lowercase_name() {
    let headers = parse_http_headers(REPLY);
    assert_eq!(headers.get("server"), Some("Linux/3.4 UPnP/1.0 MiniUPnPd/1.9".to_string()));
    assert_eq!(headers.get("location"), Some("http://192.168.1.1:5000/rootDesc.xml".to_string()));
    assert_eq!(headers.get("cache-control"), Some("max-age=1800".to_string()));
    assert_eq!(headers.get("SERVER"), None);
    assert_eq!(headers.get("host"), None);
    assert_eq!(headers.get_or_empty("host"), "");
    assert_eq!(headers.get_or_empty("st"), "urn:schemas-upnp-org:device:InternetGatewayDevice:1");
}

#[test]
fn headers_later_line_wins() {
    let headers = parse_http_headers("A: 1\nB: 2\na : 3\nno colon here\n");
    assert_eq!(headers.get("a"), Some("3".to_string()));
    assert_eq!(headers.get("b"), Some("2".to_string()));
    assert_eq!(headers.get("no colon here"), None);
}

#[test]
fn headers_names_beyond_ascii_are_lowered() {
    let headers = parse_http_headers("\u{c9}TAT: ok\n");
    assert_eq!(headers.get("\u{e9}tat"), Some("ok".to_string()));
}

#[test]
fn xml_element_text_is_trimmed() {
    let xml = "<root><device><friendlyName>  Living Room TV </friendlyName><manufacturer>Acme</manufacturer></device></root>";
    assert_eq!(extract_xml_tag(xml, "friendlyName"), Some("Living Room TV".to_string()));
    assert_eq!(extract_xml_tag(xml, "manufacturer"), Some("Acme".to_string()));
    assert_eq!(extract_xml_tag(xml, "modelName"), None);
    assert_eq!(extract_xml_tag("<a></a>", "a"), Some(String::new()));
}

#[test]
fn xml_element_needs_open_before_close() {
    assert_eq!(extract_xml_tag("</a><a>x", "a"), None);
    assert_eq!(extract_xml_tag("<a>x", "a"), None);
    assert_eq!(extract_xml_tag("x</a>", "a"), None);
    assert_eq!(extract_xml_tag("<a>1</a><a>2</a>", "a"), Some("1".to_string()));
}

#[test]
fn ssdp_type_by_keyword() {
    assert_eq!(guess_type_from_ssdp(&parse_http_headers("ST: urn:schemas-upnp-org:service:Printer:1\n")), "Printer");
    assert_eq!(guess_type_from_ssdp(&parse_http_headers("USN: uuid:ip-CAMERA-7\n")), "Camera");
    assert_eq!(guess_type_from_ssdp(&parse_http_headers("SERVER: SmartTV/1.0\n")), "TV");
    assert_eq!(guess_type_from_ssdp(&parse_http_headers("ST: urn:dlna-org:device\n")), "TV");
    assert_eq!(guess_type_from_ssdp(&parse_http_headers("ST: urn:schemas-upnp-org:device:MediaRenderer:1\n")), "TV");
    assert_eq!(guess_type_from_ssdp(&parse_http_headers(REPLY)), "Router");
    assert_eq!(guess_type_from_ssdp(&parse_http_headers("ST: upnp:rootdevice\nSERVER: WAN IGD\n")), "Router");
    assert_eq!(guess_type_from_ssdp(&parse_http_headers("SERVER: my-router\n")), "Router");
    assert_eq!(guess_type_from_ssdp(&parse_http_headers("ST: upnp:rootdevice\n")), "Unknown");
    assert_eq!(guess_type_from_ssdp(&parse_http_headers("")), "Unknown");
}

#[test]
fn ssdp_type_first_keyword_wins() {
    assert_eq!(guess_type_from_ssdp(&parse_http_headers("ST: printer\nSERVER: camera router tv\n")), "Printer");
    assert_eq!(guess_type_from_ssdp(&parse_http_headers("ST: tv\nUSN: camera\n")), "Camera");
}

#[test]
fn ssdp_type_does_not_join_headers() {
    assert_eq!(guess_type_from_ssdp(&parse_http_headers("ST: ca\nUSN: mera\n")), "Unknown");
}

#[test]
fn os_from_server_header() {
    assert_eq!(extract_os_from_server(Some(&"Android/12 UPnP/1.0".to_string())), "Android");
    assert_eq!(extract_os_from_server(Some(&"Darwin/21.0".to_string())), "macOS");
    assert_eq!(extract_os_from_server(Some(&"Mac OS X".to_string())), "macOS");
    assert_eq!(extract_os_from_server(Some(&"macOS 14".to_string())), "macOS");
    assert_eq!(extract_os_from_server(Some(&"iOS/17".to_string())), "iOS");
    assert_eq!(extract_os_from_server(Some(&"Microsoft-Windows/10.0".to_string())), "Windows");
    assert_eq!(extract_os_from_server(Some(&"Linux/3.4 UPnP/1.0".to_string())), "Linux");
    assert_eq!(extract_os_from_server(Some(&"FreeBSD/13".to_string())), "FreeBSD/13");
    assert_eq!(extract_os_from_server(Some(&String::new())), "");
    assert_eq!(extract_os_from_server(None), "");
}

#[test]
fn os_first_rule_wins() {
    assert_eq!(extract_os_from_server(Some(&"Linux Android".to_string())), "Android");
    assert_eq!(extract_os_from_server(Some(&"Helios/2".to_string())), "iOS");
}

#[test]
fn reply_becomes_a_sighting() {
    let (device, location) = ssdp_sighting(REPLY, "192.168.1.1", 77);
    assert_eq!(device.ip, "192.168.1.1");
    assert_eq!(device.mac, "");
    assert_eq!(device.hostname, "");
    assert_eq!(device.vendor, "Linux/3.4 UPnP/1.0 MiniUPnPd/1.9");
    assert_eq!(device.device_type, "Router");
    assert_eq!(device.first_seen, 77);
    assert_eq!(device.last_seen, 77);
    assert_eq!(device.status, "online");
    assert!(device.tags.is_empty());
    assert_eq!(device.os, "Linux");
    assert_eq!(location, Some("http://192.168.1.1:5000/rootDesc.xml".to_string()));
}

#[test]
fn reply_without_headers_is_still_a_sighting() {
    let (device, location) = ssdp_sighting("", "10.1.1.1", 1);
    assert_eq!(device.vendor, "Unknown");
    assert_eq!(device.device_type, "Unknown");
    assert_eq!(device.os, "");
    assert_eq!(location, None);
}

#[test]
fn description_fills_name_and_platform() {
    let mut device = bare("10.0.0.9", "");
    apply_description(&mut device, "<friendlyName>Den</friendlyName><modelDescription>Speaker</modelDescription><manufacturer>Acme</manufacturer>");
    assert_eq!(device.hostname, "Den");
    assert_eq!(device.os, "Speaker");
}

#[test]
fn description_falls_back_to_manufacturer() {
    let mut device = bare("10.0.0.9", "");
    apply_description(&mut device, "<modelDescription> </modelDescription><manufacturer>Acme</manufacturer>");
    assert_eq!(device.hostname, "");
    assert_eq!(device.os, "Acme");
}

#[test]
fn description_keeps_known_platform() {
    let mut device = bare("10.0.0.9", "");
    device.os = "Linux".to_string();
    device.hostname = "old".to_string();
    apply_description(&mut device, "<friendlyName>New</friendlyName><manufacturer>Acme</manufacturer>");
    assert_eq!(device.hostname, "New");
    assert_eq!(device.os, "Linux");
}

#[test]
fn reverse_lookup_name_is_found() {
    assert_eq!(reverse_dns("Server:  gw.lan\nAddress:  192.168.1.1\n\nName:    printer.lan.\nAddress:  192.168.1.30\n"), Some("printer.lan".to_string()));
    assert_eq!(reverse_dns("30.1.168.192.in-addr.arpa\tname = printer.lan.\n"), Some("printer.lan".to_string()));
    assert_eq!(reverse_dns("x \u{438}\u{43c}\u{44f} = host...\n"), Some("host".to_string()));
    assert_eq!(reverse_dns("** server can't find 30.1.168.192.in-addr.arpa: NXDOMAIN\n"), None);
    assert_eq!(reverse_dns(""), None);
}

#[test]
fn reverse_lookup_takes_the_piece_between_separators() {
    assert_eq!(reverse_dns("Name: a:b\n"), Some("a".to_string()));
    assert_eq!(reverse_dns("name = x = y\n"), Some("x".to_string()));
    assert_eq!(reverse_dns("Name:\n"), Some(String::new()));
    assert_eq!(reverse_dns("NAME: First\nName: Second\n"), Some("First".to_string()));
}

#[test]
fn netbios_name_is_found() {
    let text = "\n    NetBIOS Remote Machine Name Table\n\n       Name               Type         Status\n    ---------------------------------------------\n    DESK-7         <00>  UNIQUE      Registered\n    WORKGROUP      <00>  GROUP       Registered\n";
    assert_eq!(netbios_name(text), Some("DESK-7".to_string()));
    assert_eq!(netbios_name("    WORKGROUP      <00>  GROUP       Registered\n"), None);
    assert_eq!(netbios_name("    DESK-7         <20>  UNIQUE      Registered\n"), None);
    assert_eq!(netbios_name("Host not found.\n"), None);
    assert_eq!(netbios_name("<00>unique\n"), Some("<00>unique".to_string()));
}

#[test]
fn enrichment_fills_in_order() {
    let mut device = bare("10.0.0.5", "F4-F5-E8-00-00-01");
    let names = ResolvedNames { reverse_dns: Some("ap.lan".to_string()), netbios: Some("AP".to_string()) };
    enrich_device(&mut device, &names);
    assert_eq!(device.hostname, "ap.lan");
    assert_eq!(device.vendor, "TP-Link");
    assert_eq!(device.device_type, "Router");
}

#[test]
fn enrichment_falls_back_to_netbios() {
    let mut device = bare("10.0.0.5", "");
    enrich_device(&mut device, &ResolvedNames { reverse_dns: Some(String::new()), netbios: Some("PC".to_string()) });
    assert_eq!(device.hostname, "PC");
    let mut other = bare("10.0.0.6", "");
    enrich_device(&mut other, &ResolvedNames { reverse_dns: None, netbios: Some("PC2".to_string()) });
    assert_eq!(other.hostname, "PC2");
    assert_eq!(other.vendor, "Unknown");
    assert_eq!(other.device_type, "Unknown");
}

#[test]
fn enrichment_keeps_what_is_known() {
    let mut device = bare("10.0.0.5", "b8:27:eb:00:00:01");
    device.hostname = "pi".to_string();
    device.vendor = "Custom".to_string();
    device.device_type = "Server".to_string();
    enrich_device(&mut device, &ResolvedNames { reverse_dns: Some("other".to_string()), netbios: None });
    assert_eq!(device.hostname, "pi");
    assert_eq!(device.vendor, "Custom");
    assert_eq!(device.device_type, "Server");
}

#[test]
fn enrichment_twice_is_enrichment_once() {
    let names = vec![
        ResolvedNames { reverse_dns: Some("a.lan".to_string()), netbios: None },
        ResolvedNames { reverse_dns: None, netbios: None },
    ];
    let mut devices = vec![bare("10.0.0.1", "ac:de:48:00:00:01"), bare("10.0.0.2", "12:34:56:00:00:02"), bare("10.0.0.3", "")];
    enrich_devices(&mut devices, &names);
    let once: Vec<_> = devices.iter().map(|d| (d.hostname.clone(), d.vendor.clone(), d.device_type.clone())).collect();
    enrich_devices(&mut devices, &names);
    let twice: Vec<_> = devices.iter().map(|d| (d.hostname.clone(), d.vendor.clone(), d.device_type.clone())).collect();
    assert_eq!(once, twice);
    assert_eq!(once[0], ("a.lan".to_string(), "Apple".to_string(), "Phone".to_string()));
    assert_eq!(once[1], (String::new(), "Unknown".to_string(), "Unknown".to_string()));
    assert_eq!(once[2], (String::new(), "Unknown".to_string(), "Unknown".to_string()));
}

#[test]
fn ping_targets_cover_the_range() {
    let targets = ping_targets("192.168.7.0/24").expect("a /24 range");
    assert_eq!(targets.len(), 254);
    assert_eq!(targets[0], "192.168.7.1");
    assert_eq!(targets[8], "192.168.7.9");
    assert_eq!(targets[9], "192.168.7.10");
    assert_eq!(targets[99], "192.168.7.100");
    assert_eq!(targets[253], "192.168.7.254");
}

#[test]
fn ping_targets_need_a_slash24() {
    assert!(ping_targets("192.168.7.0/16").is_none());
    assert!(ping_targets("192.168.7.0").is_none());
    assert!(ping_targets("192.168.7/24").is_none());
    assert!(ping_targets("1.2.3.4.5/24").is_none());
    assert!(ping_targets("").is_none());
    assert!(ping_targets("/24").is_none());
}

#[test]
fn ping_targets_strip_every_suffix() {
    let targets = ping_targets("10.1.2.0/24/24").expect("a /24 range");
    assert_eq!(targets[0], "10.1.2.1");
    let odd = ping_targets("a.b.c.d/24").expect("four parts");
    assert_eq!(odd[1], "a.b.c.2");
}

#[test]
fn cidr_list_is_split_and_trimmed() {
    assert_eq!(extra_cidrs("192.168.0.0/24, 192.168.1.0/24"), vec!["192.168.0.0/24".to_string(), "192.168.1.0/24".to_string()]);
    assert_eq!(extra_cidrs(" a ,, b ,  "), vec!["a".to_string(), "b".to_string()]);
    assert!(extra_cidrs("").is_empty());
    assert!(extra_cidrs(" , ,").is_empty());
}

#[test]
fn name_services_are_asked_only_where_needed() {
    let mut device = bare("10.0.0.5", "");
    assert!(wants_lookup(&device));
    assert!(wants_name_table(&device, &None));
    assert!(wants_name_table(&device, &Some(String::new())));
    assert!(!wants_name_table(&device, &Some("host".to_string())));
    device.hostname = "known".to_string();
    assert!(!wants_lookup(&device));
    assert!(!wants_name_table(&device, &None));
}
