use lan_inventory::device::NetworkDevice;
use lan_inventory::discovery::{
    discover_devices, gather_devices, scan_network_devices, scan_ssdp_devices, Sources, SsdpReply,
};
use lan_inventory::enrich::{enrich_devices, ResolvedNames};
use lan_inventory::ssdp::description_url;
use lan_inventory::filter::{
    get_filtered_devices, list_devices, matches_filter, select_devices, sort_by_recency,
    DeviceFilter,
};
use lan_inventory::inventory::{get_device_inventory, get_device_summary};
use lan_inventory::topology::{get_topology, subnet_key_of, NodeKind};

fn device(ip: &str, kind: &str, seen: u64) -> NetworkDevice {
    NetworkDevice {
        ip: ip.to_string(),
        mac: String::new(),
        hostname: String::new(),
        vendor: "Unknown".to_string(),
        device_type: kind.to_string(),
        first_seen: seen,
        last_seen: seen,
        status: "online".to_string(),
        tags: vec![],
        notes: String::new(),
        os: String::new(),
    }
}

fn no_filter() -> DeviceFilter {
    DeviceFilter {
        device_type: None,
        vendor: None,
        status: None,
        tag: None,
        search: None,
        page: None,
        per_page: None,
    }
}

fn many(n: usize) -> Vec<NetworkDevice> {
    (0..n).map(|i| device(&format!("10.0.{}.{}", i / 200, i % 200 + 2), "Computer", 1000 + i as u64)).collect()
}

const ARP: &str = "Interface: 192.168.1.20 --- 0x3\n  Internet Address      Physical Address      Type\n  192.168.1.1           f4-f5-e8-00-00-01     dynamic\n  192.168.1.20          00-15-5d-01-02-03     dynamic\n  192.168.1.30          12-34-56-00-00-30     dynamic\n  192.168.1.255         ff-ff-ff-ff-ff-ff     static\n";
const IPCONFIG: &str = "   Host Name . . . . : DESK-7\n   Physical Address. : 00-15-5D-01-02-03\n   IPv4 Address. . . : 192.168.1.20\n";

fn sources() -> Sources {
    Sources {
        arp_table: ARP.to_string(),
        interface_config: IPCONFIG.to_string(),
        ssdp_replies: vec![
            SsdpReply {
                text: "HTTP/1.1 200 OK\r\nSERVER: Linux UPnP/1.0\r\nST: upnp:rootdevice\r\nLOCATION: http://192.168.1.30/desc.xml\r\n\r\n".to_string(),
                source_ip: "192.168.1.30".to_string(),
                description: Some("<friendlyName>Office Printer</friendlyName>".to_string()),
            },
            SsdpReply {
                text: "HTTP/1.1 200 OK\r\nST: urn:dial-multiscreen-org:service:dial:1\r\nUSN: uuid:abc\r\n\r\n".to_string(),
                source_ip: "192.168.1.40".to_string(),
                description: None,
            },
            SsdpReply {
                text: "HTTP/1.1 200 OK\r\nST: camera\r\n\r\n".to_string(),
                source_ip: "192.168.1.41".to_string(),
                description: None,
            },
        ],
    }
}

#[test]
fn local_sources_are_folded_into_one_set() {
    let devices = scan_network_devices(ARP, IPCONFIG, 10);
    assert_eq!(devices.len(), 3);
    assert_eq!(devices[0].ip, "192.168.1.1");
    assert_eq!(devices[0].vendor, "Unknown");
    assert_eq!(devices[1].ip, "192.168.1.20");
    assert_eq!(devices[1].hostname, "DESK-7");
    assert_eq!(devices[1].vendor, "Microsoft");
    assert_eq!(devices[1].device_type, "Computer");
    assert!(devices[1].tags.is_empty());
    assert_eq!(devices[2].ip, "192.168.1.30");
}

#[test]
fn every_source_is_folded_into_one_set() {
    let devices = gather_devices(&sources(), 10);
    assert_eq!(devices.len(), 5);
    assert_eq!(devices[2].ip, "192.168.1.30");
    assert_eq!(devices[2].mac, "12:34:56:00:00:30");
    assert_eq!(devices[2].hostname, "Office Printer");
    assert_eq!(devices[2].vendor, "Linux UPnP/1.0");
    assert_eq!(devices[2].os, "Linux");
    assert_eq!(devices[3].ip, "192.168.1.40");
    assert_eq!(devices[3].mac, "");
    assert_eq!(devices[3].device_type, "Unknown");
    assert_eq!(devices[4].ip, "192.168.1.41");
    assert_eq!(devices[4].device_type, "Camera");
}

#[test]
fn set_has_one_record_for_each_identity() {
    let doubled = format!("{}{}", ARP, "  192.168.1.99          f4-f5-e8-00-00-01     dynamic\n  192.168.1.30          aa-aa-aa-00-00-30     dynamic\n");
    let devices = scan_network_devices(&doubled, "", 10);
    assert_eq!(devices.len(), 3);
    for i in 0..devices.len() {
        for j in (i + 1)..devices.len() {
            assert_ne!(devices[i].ip, devices[j].ip);
            assert_ne!(devices[i].mac, devices[j].mac);
        }
    }
}

#[test]
fn pass_run_twice_differs_in_times_only() {
    let names = vec![
        ResolvedNames { reverse_dns: Some("gw.lan".to_string()), netbios: None },
        ResolvedNames { reverse_dns: None, netbios: None },
    ];
    let mut first = gather_devices(&sources(), 1000);
    enrich_devices(&mut first, &names);
    let mut second = gather_devices(&sources(), 2000);
    enrich_devices(&mut second, &names);
    assert_eq!(first.len(), second.len());
    for (a, b) in first.iter().zip(second.iter()) {
        assert_eq!(a.ip, b.ip);
        assert_eq!(a.mac, b.mac);
        assert_eq!(a.hostname, b.hostname);
        assert_eq!(a.vendor, b.vendor);
        assert_eq!(a.device_type, b.device_type);
        assert_eq!(a.status, b.status);
        assert_eq!(a.tags, b.tags);
        assert_eq!(a.notes, b.notes);
        assert_eq!(a.os, b.os);
        assert_eq!(a.first_seen, 1000);
        assert_eq!(b.last_seen, 2000);
    }
    assert_eq!(first[0].hostname, "gw.lan");
    assert_eq!(first[0].vendor, "TP-Link");
    assert_eq!(first[0].device_type, "Router");
}

#[test]
fn whole_pass_gathers_then_enriches() {
    let names = vec![
        ResolvedNames { reverse_dns: Some("gw.lan".to_string()), netbios: None },
        ResolvedNames { reverse_dns: None, netbios: Some("DESK".to_string()) },
    ];
    let devices = discover_devices(&sources(), &names, 1000);
    let mut by_steps = gather_devices(&sources(), 1000);
    enrich_devices(&mut by_steps, &names);
    assert_eq!(devices.len(), 5);
    assert_eq!(devices.len(), by_steps.len());
    for (a, b) in devices.iter().zip(by_steps.iter()) {
        assert_eq!(a.ip, b.ip);
        assert_eq!(a.mac, b.mac);
        assert_eq!(a.hostname, b.hostname);
        assert_eq!(a.vendor, b.vendor);
        assert_eq!(a.device_type, b.device_type);
        assert_eq!(a.os, b.os);
        assert_eq!(a.first_seen, 1000);
        assert_eq!(a.last_seen, 1000);
    }
    assert_eq!(devices[0].ip, "192.168.1.1");
    assert_eq!(devices[0].hostname, "gw.lan");
    assert_eq!(devices[0].vendor, "TP-Link");
    assert_eq!(devices[0].device_type, "Router");
    assert_eq!(devices[1].hostname, "DESK-7");
    assert_eq!(devices[2].hostname, "Office Printer");
    assert_eq!(devices[2].os, "Linux");
    assert!(discover_devices(&Sources { arp_table: String::new(), interface_config: String::new(), ssdp_replies: vec![] }, &names, 1).is_empty());
}

#[test]
fn failed_sources_give_an_empty_set() {
    let nothing = Sources { arp_table: String::new(), interface_config: String::new(), ssdp_replies: vec![] };
    assert!(gather_devices(&nothing, 1).is_empty());
}

#[test]
fn replies_become_sightings_in_order() {
    let devices = scan_ssdp_devices(&sources().ssdp_replies, 5);
    assert_eq!(devices.len(), 3);
    assert_eq!(devices[0].hostname, "Office Printer");
    assert_eq!(devices[0].os, "Linux");
    assert_eq!(devices[1].ip, "192.168.1.40");
    assert_eq!(devices[1].last_seen, 5);
}

#[test]
fn description_url_is_the_location_header() {
    assert_eq!(description_url("HTTP/1.1 200 OK\r\nLocation:  http://10.0.0.1/d.xml \r\n"), Some("http://10.0.0.1/d.xml".to_string()));
    assert_eq!(description_url("HTTP/1.1 200 OK\r\n"), None);
}

#[test]
fn inventory_counts_online_devices() {
    let mut devices = vec![device("10.0.0.1", "Router", 1), device("10.0.0.2", "Phone", 2), device("10.0.0.3", "Phone", 3)];
    devices[1].status = "offline".to_string();
    let report = get_device_inventory(devices, 123);
    assert_eq!(report.total_count, 3);
    assert_eq!(report.online_count, 2);
    assert_eq!(report.last_scan, 123);
    assert_eq!(report.devices.len(), 3);
}

#[test]
fn summary_counts_and_groups() {
    let mut devices = vec![
        device("10.0.0.1", "Router", 1),
        device("10.0.0.2", "Phone", 2),
        device("10.0.0.3", "Phone", 3),
        device("10.0.0.4", "Unknown", 4),
        device("10.0.0.5", "Phone", 5),
        device("10.0.0.6", "Router", 6),
    ];
    devices[1].status = "offline".to_string();
    devices[3].status = "unknown".to_string();
    devices[2].tags = vec!["trusted".to_string(), "investigate".to_string()];
    devices[5].tags = vec!["investigate".to_string()];
    devices[0].vendor = "TP-Link".to_string();
    devices[5].vendor = "TP-Link".to_string();
    let summary = get_device_summary(&devices);
    assert_eq!(summary.total_devices, 6);
    assert_eq!(summary.online_devices, 4);
    assert_eq!(summary.offline_devices, 2);
    assert_eq!(summary.investigate_devices, 2);
    let by_type: Vec<(String, usize)> = summary.by_type.iter().map(|c| (c.label.clone(), c.count)).collect();
    assert_eq!(by_type, vec![("Router".to_string(), 2), ("Phone".to_string(), 3), ("Unknown".to_string(), 1)]);
    let by_vendor: Vec<(String, usize)> = summary.by_vendor.iter().map(|c| (c.label.clone(), c.count)).collect();
    assert_eq!(by_vendor, vec![("TP-Link".to_string(), 2), ("Unknown".to_string(), 4)]);
    assert_eq!(summary.recent_devices.len(), 5);
    assert_eq!(summary.recent_devices[0].ip, "10.0.0.1");
    assert_eq!(summary.recent_devices[4].ip, "10.0.0.5");
}

#[test]
fn summary_of_nothing() {
    let summary = get_device_summary(&vec![]);
    assert_eq!(summary.total_devices, 0);
    assert_eq!(summary.online_devices, 0);
    assert_eq!(summary.offline_devices, 0);
    assert!(summary.by_type.is_empty());
    assert!(summary.recent_devices.is_empty());
}

#[test]
fn pagination_of_forty_five_devices() {
    let devices = many(45);
    let mut filter = no_filter();
    filter.per_page = Some(20);
    filter.page = Some(1);
    let first = get_filtered_devices(&devices, &filter);
    assert_eq!(first.devices.len(), 20);
    assert_eq!(first.pagination.total, 45);
    assert_eq!(first.pagination.total_pages, 3);
    assert_eq!(first.pagination.page, 1);
    assert_eq!(first.pagination.per_page, 20);
    assert_eq!(first.devices[0].last_seen, 1044);
    assert_eq!(first.devices[19].last_seen, 1025);
    filter.page = Some(2);
    let second = get_filtered_devices(&devices, &filter);
    assert_eq!(second.devices.len(), 20);
    assert_eq!(second.devices[0].last_seen, 1024);
    filter.page = Some(3);
    let third = get_filtered_devices(&devices, &filter);
    assert_eq!(third.devices.len(), 5);
    assert_eq!(third.devices[4].last_seen, 1000);
    filter.page = Some(4);
    let fourth = get_filtered_devices(&devices, &filter);
    assert!(fourth.devices.is_empty());
    assert_eq!(fourth.pagination.total_pages, 3);
    assert_eq!(fourth.pagination.page, 4);
}

#[test]
fn pagination_defaults_and_clamps() {
    let devices = many(250);
    let plain = get_filtered_devices(&devices, &no_filter());
    assert_eq!(plain.pagination.page, 1);
    assert_eq!(plain.pagination.per_page, 20);
    assert_eq!(plain.devices.len(), 20);
    assert_eq!(plain.pagination.total_pages, 13);
    let mut filter = no_filter();
    filter.per_page = Some(1000);
    let big = get_filtered_devices(&devices, &filter);
    assert_eq!(big.pagination.per_page, 100);
    assert_eq!(big.devices.len(), 100);
    assert_eq!(big.pagination.total_pages, 3);
    filter.per_page = Some(0);
    filter.page = Some(0);
    let zero = get_filtered_devices(&devices, &filter);
    assert_eq!(zero.pagination.per_page, 20);
    assert_eq!(zero.pagination.page, 1);
    assert_eq!(zero.devices.len(), 20);
    filter.per_page = Some(100);
    filter.page = Some(u32::MAX);
    let far = get_filtered_devices(&devices, &filter);
    assert!(far.devices.is_empty());
    filter.per_page = Some(50);
    filter.page = Some(5);
    let exact = get_filtered_devices(&devices, &filter);
    assert_eq!(exact.devices.len(), 50);
    assert_eq!(exact.pagination.total_pages, 5);
}

#[test]
fn pagination_of_nothing() {
    let page = get_filtered_devices(&vec![], &no_filter());
    assert!(page.devices.is_empty());
    assert_eq!(page.pagination.total, 0);
    assert_eq!(page.pagination.total_pages, 0);
}

#[test]
fn filters_combine_with_and() {
    let mut devices = vec![device("10.0.0.1", "Router", 1), device("10.0.0.2", "Router", 2), device("10.0.0.3", "Phone", 3)];
    devices[1].status = "offline".to_string();
    let mut filter = no_filter();
    filter.device_type = Some("router".to_string());
    filter.status = Some("online".to_string());
    let page = get_filtered_devices(&devices, &filter);
    assert_eq!(page.devices.len(), 1);
    assert_eq!(page.devices[0].ip, "10.0.0.1");
    assert!(matches_filter(&devices[0], &filter));
    assert!(!matches_filter(&devices[1], &filter));
    assert!(!matches_filter(&devices[2], &filter));
}

#[test]
fn each_filter_alone() {
    let mut devices = vec![device("10.0.0.1", "Router", 1), device("10.0.0.2", "Smart Phone", 2), device("192.168.0.3", "TV", 3)];
    devices[0].vendor = "TP-Link".to_string();
    devices[0].hostname = "Gateway".to_string();
    devices[1].tags = vec!["trusted".to_string()];
    devices[1].mac = "AA:BB:CC:00:00:02".to_string();
    devices[2].status = "offline".to_string();
    let mut by_type = no_filter();
    by_type.device_type = Some("PHONE".to_string());
    assert_eq!(select_devices(&devices, &by_type).len(), 1);
    let mut by_vendor = no_filter();
    by_vendor.vendor = Some("tp-".to_string());
    assert_eq!(select_devices(&devices, &by_vendor)[0].ip, "10.0.0.1");
    let mut by_status = no_filter();
    by_status.status = Some("offline".to_string());
    assert_eq!(select_devices(&devices, &by_status)[0].ip, "192.168.0.3");
    by_status.status = Some("Offline".to_string());
    assert!(select_devices(&devices, &by_status).is_empty());
    let mut by_tag = no_filter();
    by_tag.tag = Some("trusted".to_string());
    assert_eq!(select_devices(&devices, &by_tag)[0].ip, "10.0.0.2");
    by_tag.tag = Some("trust".to_string());
    assert!(select_devices(&devices, &by_tag).is_empty());
    let mut by_search = no_filter();
    by_search.search = Some("GATE".to_string());
    assert_eq!(select_devices(&devices, &by_search)[0].ip, "10.0.0.1");
    by_search.search = Some("192.168".to_string());
    assert_eq!(select_devices(&devices, &by_search)[0].ip, "192.168.0.3");
    by_search.search = Some("bb:cc".to_string());
    assert_eq!(select_devices(&devices, &by_search)[0].ip, "10.0.0.2");
    by_search.search = Some("unknown".to_string());
    assert_eq!(select_devices(&devices, &by_search).len(), 2);
    by_search.search = Some("router".to_string());
    assert!(select_devices(&devices, &by_search).is_empty());
    assert_eq!(select_devices(&devices, &no_filter()).len(), 3);
}

#[test]
fn listing_is_latest_first_and_stable() {
    let devices = vec![device("a", "x", 5), device("b", "x", 9), device("c", "x", 5), device("d", "x", 7), device("e", "x", 9)];
    let sorted = sort_by_recency(devices);
    let order: Vec<String> = sorted.iter().map(|d| d.ip.clone()).collect();
    assert_eq!(order, vec!["b", "e", "d", "a", "c"]);
}

#[test]
fn topology_of_two_subnets() {
    let devices = vec![device("10.0.0.1", "Router", 1), device("10.0.0.5", "Client", 1), device("10.0.1.1", "Router", 1), device("10.0.1.9", "Client", 1)];
    let topology = get_topology(&devices);
    let subnets = topology.nodes.iter().filter(|n| n.kind == NodeKind::Subnet).count();
    let routers = topology.nodes.iter().filter(|n| n.kind == NodeKind::Router).count();
    let clients = topology.nodes.iter().filter(|n| n.kind == NodeKind::Client).count();
    assert_eq!(subnets, 2);
    assert_eq!(routers, 2);
    assert_eq!(clients, 2);
    assert_eq!(topology.links.len(), 4);
    let links: Vec<(usize, usize)> = topology.links.iter().map(|l| (l.source, l.target)).collect();
    assert_eq!(links, vec![(0, 1), (1, 2), (3, 4), (4, 5)]);
    for (i, node) in topology.nodes.iter().enumerate() {
        assert_eq!(node.id, i);
    }
    assert_eq!(topology.nodes[0].name, "10.0.0.0/24");
    assert_eq!(topology.nodes[1].name, "10.0.0.1");
    assert_eq!(topology.nodes[1].ip, Some("10.0.0.1".to_string()));
    assert_eq!(topology.nodes[1].os, None);
    assert_eq!(topology.nodes[2].name, "10.0.0.5");
    assert_eq!(topology.nodes[2].os, Some(String::new()));
    assert_eq!(topology.nodes[3].name, "10.0.1.0/24");
}

#[test]
fn topology_makes_up_a_router_where_none_is_seen() {
    let mut devices = vec![device("10.0.0.5", "Phone", 1), device("10.0.0.6", "Phone", 1)];
    devices[0].hostname = "phone-a".to_string();
    let topology = get_topology(&devices);
    assert_eq!(topology.nodes.len(), 4);
    assert_eq!(topology.nodes[1].kind, NodeKind::Router);
    assert_eq!(topology.nodes[1].name, "10.0.0.1");
    assert_eq!(topology.nodes[1].ip, None);
    assert_eq!(topology.nodes[2].name, "phone-a");
    assert_eq!(topology.nodes[3].name, "10.0.0.6");
    assert_eq!(topology.links.len(), 3);
}

#[test]
fn topology_picks_the_first_router_and_orders_subnets() {
    let devices = vec![
        device("192.168.1.7", "Phone", 1),
        device("10.0.0.9", "wifi ROUTER", 1),
        device("192.168.1.1", "Unknown", 1),
        device("10.0.0.1", "Unknown", 1),
        device("fe80::1", "Unknown", 1),
    ];
    let topology = get_topology(&devices);
    let names: Vec<String> = topology.nodes.iter().map(|n| n.name.clone()).collect();
    assert_eq!(names, vec![
        "10.0.0.0/24", "10.0.0.9", "10.0.0.1",
        "192.168.1.0/24", "192.168.1.1", "192.168.1.7",
        "other.0/24", "other.1", "fe80::1",
    ]);
    assert_eq!(topology.nodes[2].kind, NodeKind::Client);
    assert_eq!(topology.links.len(), 6);
}

#[test]
fn topology_of_nothing() {
    let topology = get_topology(&vec![]);
    assert!(topology.nodes.is_empty());
    assert!(topology.links.is_empty());
}

#[test]
fn subnet_key_is_the_first_three_parts() {
    assert_eq!(subnet_key_of("192.168.1.77").iter().collect::<String>(), "192.168.1");
    assert_eq!(subnet_key_of("a.b.c.d").iter().collect::<String>(), "a.b.c");
    assert_eq!(subnet_key_of("10.0.0").iter().collect::<String>(), "other");
    assert_eq!(subnet_key_of("").iter().collect::<String>(), "other");
}

#[test]
fn page_limit_can_be_set() {
    let devices = many(250);
    let mut filter = no_filter();
    filter.per_page = Some(200);
    assert_eq!(list_devices(&devices, &filter, 150).devices.len(), 150);
    assert_eq!(list_devices(&devices, &filter, 0).devices.len(), 100);
    assert_eq!(list_devices(&devices, &filter, 1000).devices.len(), 200);
    assert_eq!(list_devices(&devices, &no_filter(), 5).pagination.per_page, 5);
    assert_eq!(list_devices(&devices, &no_filter(), 5).pagination.total_pages, 50);
    filter.per_page = Some(u32::MAX);
    filter.page = Some(u32::MAX);
    let far = list_devices(&devices, &filter, u32::MAX);
    assert!(far.devices.is_empty());
    assert_eq!(far.pagination.total_pages, 1);
}
