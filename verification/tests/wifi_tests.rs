use lan_inventory::convert::{
    count_outcomes, is_picture_extension, process_single_image, webp_file_name, ImagePlan,
};
use lan_inventory::cut::{parse_i32, piece_behind, without_surrounding, without_trailing};
use lan_inventory::store::{delete_server, delete_snippet, save_server, save_snippet, SavedServer, Snippet};
use lan_inventory::telemetry::{
    counter_total, get_network_stats, get_network_stats_windows, measurements, Measurement,
};
use lan_inventory::wifi::percent_to_dbm;
use lan_inventory::wifi_scan::{
    scan_nearby_aps_windows, scan_saved_profiles, scan_with_iw, scan_with_iwlist, scan_with_nmcli,
};
use lan_inventory::wifi_status::{
    first_saved_profile, get_bssid, get_channel, get_gateway, get_gateway_from_table,
    get_gateway_ip_windows, get_gateway_windows, get_security, get_signal_strength, get_ssid,
    get_wifi_interface, get_wifi_interface_windows, read_wifi_facts, wifi_status_windows,
};

fn chars(s: &str) -> Vec<char> {
    s.chars().collect()
}

fn text(v: &[char]) -> String {
    v.iter().collect()
}

const IWCONFIG: &str = "lo        no wireless extensions.\n\nwlan0     IEEE 802.11  ESSID:\"Home Net\"  \n          Mode:Managed  Frequency:2.437 GHz  Access Point: AA:BB:CC:DD:EE:FF   \n          Bit Rate=72.2 Mb/s   Tx-Power=22 dBm   \n          Encryption key:off\n          Link Quality=60/70  Signal level=-50 dBm  \n";

#[test]
fn signed_numbers_follow_the_standard_library() {
    for s in ["0", "-0", "+0", "42", "-42", "+42", "2147483647", "2147483648", "-2147483648", "-2147483649", "", "-", "+", "--1", "+-1", "1-", " 1", "1 ", "007", "-007", "1e3", "99999999999999999999"] {
        assert_eq!(parse_i32(&chars(s)), s.parse::<i32>().ok());
    }
}

#[test]
fn pieces_follow_the_standard_library() {
    for (line, marker) in [("a=b=c", "="), ("a=b", "="), ("ab", "="), ("=", "="), ("x::y::z", "::"), ("ESSID:\"n\"", "ESSID:"), ("aaa", "aa"), ("", "x")] {
        let expected = line.split(marker).nth(1).map(|s| s.to_string());
        assert_eq!(piece_behind(&chars(line), marker).map(|p| text(&p)), expected);
    }
    assert_eq!(piece_behind(&chars("abc"), ""), None);
    for s in ["\"q\"", "\"\"\"q", "q", "", "\"\"", "a\"b\""] {
        assert_eq!(text(&without_surrounding(&chars(s), '"')), s.trim_matches('"'));
        assert_eq!(text(&without_trailing(&chars(s), '"')), s.trim_end_matches('"'));
    }
}

#[test]
fn link_is_read_from_the_wireless_listing() {
    assert_eq!(get_wifi_interface(IWCONFIG), Some("wlan0".to_string()));
    assert_eq!(get_wifi_interface("lo no wireless extensions.\n"), None);
    assert_eq!(get_ssid(IWCONFIG), "Home Net");
    assert_eq!(get_ssid("wlan0 IEEE 802.11 ESSID:off/any\n"), "Not Connected");
    assert_eq!(get_ssid("wlan0 ESSID:\"\"\nwlan1 ESSID:\"second\"\n"), "second");
    assert_eq!(get_ssid(""), "Not Connected");
    assert_eq!(get_bssid(IWCONFIG), "AA:BB:CC:DD:EE:FF");
    assert_eq!(get_bssid("Access Point: Not-Associated\n"), "Not Associated");
    assert_eq!(get_bssid(""), "Not Associated");
    assert_eq!(get_signal_strength(IWCONFIG), -50);
    assert_eq!(get_signal_strength("Signal level=x\nSignal level=-71\n"), -71);
    assert_eq!(get_signal_strength("Signal level=-71dBm\n"), -100);
    assert_eq!(get_signal_strength(""), -100);
    assert_eq!(get_security(IWCONFIG), "Open");
    assert_eq!(get_security("Encryption key:on\n"), "Secured");
    assert_eq!(get_security("Encryption key:1234-5678 office\n"), "Open");
    assert_eq!(get_security("nothing\n"), "Unknown");
}

#[test]
fn channel_is_read_from_the_channel_listing() {
    assert_eq!(get_channel("wlan0     13 channels in total\n          Channel 01 : 2.412 GHz\n          Current Frequency:2.437 GHz (Channel 6)\n"), 6);
    assert_eq!(get_channel("Current Frequency:5.18 GHz (Channel 36) (x)\n"), 36);
    assert_eq!(get_channel("Current Frequency:2.437 GHz\n"), 0);
    assert_eq!(get_channel("Current Frequency:2.437 GHz (Channel six)\nCurrent Frequency=2.4 (Channel 1)\n"), 0);
    assert_eq!(get_channel(""), 0);
}

#[test]
fn gateway_is_read_from_the_routes() {
    assert_eq!(get_gateway("default via 192.168.1.1 dev wlan0 proto dhcp metric 600\n"), Some("192.168.1.1".to_string()));
    assert_eq!(get_gateway("default via\n10.0.0.0/8 dev eth0\n"), None);
    assert_eq!(get_gateway_from_table("Kernel IP routing table\nDestination Gateway Genmask\n0.0.0.0 10.0.0.1 0.0.0.0 UG 0 0 0 eth0\n"), Some("10.0.0.1".to_string()));
    assert_eq!(get_gateway_from_table(" 0.0.0.0 10.0.0.1\n"), None);
    let config = "Ethernet adapter:\r\n   IPv4 Address. . . : 192.168.1.20\r\n   Default Gateway . . . . . . . . . :  \r\n   Default Gateway . . . . . . . . . : fe80::1%5\r\n";
    assert_eq!(get_gateway_windows(config), Some("fe80::1%5".to_string()));
    assert_eq!(get_gateway_ip_windows(config), Some("fe80".to_string()));
    assert_eq!(get_gateway_windows("   \u{41e}\u{441}\u{43d}\u{43e}\u{432}\u{43d}\u{43e}\u{439} \u{448}\u{43b}\u{44e}\u{437}. . . : 10.0.0.1\r\n"), Some("10.0.0.1".to_string()));
    assert_eq!(get_gateway_windows("no gateway here\n"), None);
}

const NETSH_INTERFACES: &str = "\r\nThere is 1 interface on the system:\r\n\r\n    Name                   : Wi-Fi\r\n    Description            : Intel(R) Wireless\r\n    SSID                   : Home Net\r\n    BSSID                  : aa:bb:cc:dd:ee:ff\r\n    Radio type             : 802.11ac\r\n    Authentication         : WPA2-Personal\r\n    Channel                : 36\r\n    Signal                 : 87%\r\n    SSID                   : Other\r\n";

#[test]
fn link_is_read_from_the_platform_shell() {
    assert_eq!(get_wifi_interface_windows(NETSH_INTERFACES), Some("Wi-Fi".to_string()));
    assert_eq!(get_wifi_interface_windows("Description : x\n"), None);
    let facts = read_wifi_facts(NETSH_INTERFACES);
    assert_eq!(facts.ssid, "Home Net");
    assert_eq!(facts.bssid, "aa:bb:cc:dd:ee:ff");
    assert_eq!(facts.channel, 36);
    assert_eq!(facts.signal_percent, 87);
    assert_eq!(facts.auth, "WPA2-Personal");
    let status = wifi_status_windows(&facts, Some("Saved".to_string()), Some("192.168.1.1".to_string()));
    assert_eq!(status.ssid, "Home Net");
    assert_eq!(status.bssid, "aa:bb:cc:dd:ee:ff");
    assert_eq!(status.channel, 36);
    assert_eq!(status.gateway_ip, "192.168.1.1");
    assert_eq!(status.signal_strength, -57);
    assert_eq!(status.frequency, 5180);
    assert_eq!(status.security, "WPA2-Personal");
}

#[test]
fn link_that_is_down_gets_stand_ins() {
    let facts = read_wifi_facts("    State : disconnected\r\n");
    assert_eq!(facts.ssid, "");
    assert_eq!(facts.signal_percent, -1);
    let status = wifi_status_windows(&facts, None, None);
    assert_eq!(status.ssid, "Not Connected");
    assert_eq!(status.bssid, "Not Available");
    assert_eq!(status.channel, 1);
    assert_eq!(status.gateway_ip, "Unknown");
    assert_eq!(status.signal_strength, -100);
    assert_eq!(status.frequency, 2412);
    assert_eq!(status.security, "Unknown");
    let saved = wifi_status_windows(&facts, Some("Saved".to_string()), None);
    assert_eq!(saved.ssid, "Saved");
    assert_eq!(first_saved_profile("Profiles on interface Wi-Fi:\r\n    All User Profile     : Saved\r\n    All User Profile     : Second\r\n"), Some("Saved".to_string()));
    assert_eq!(first_saved_profile("none\n"), None);
    assert_eq!(percent_to_dbm(100), -50);
    assert_eq!(percent_to_dbm(0), -100);
    assert_eq!(percent_to_dbm(-3), -101);
    assert_eq!(percent_to_dbm(i32::MIN), i32::MIN / 2 - 100);
}

#[test]
fn colon_separated_listing_is_read() {
    let aps = scan_with_nmcli("Home:AA\\:BB:80:6:WPA2\nCafe:11:x:y:Open:extra\n:22:1:2:WPA\nshort:1:2\n");
    assert_eq!(aps.len(), 2);
    assert_eq!(aps[0].ssid, "Home");
    assert_eq!(aps[0].bssid, "AA\\");
    assert_eq!(aps[0].rssi, 0);
    assert_eq!(aps[0].channel, 80);
    assert_eq!(aps[0].security, "6");
    assert_eq!(aps[1].ssid, "Cafe");
    assert_eq!(aps[1].bssid, "11");
    assert_eq!(aps[1].rssi, 0);
    assert_eq!(aps[1].channel, 0);
    assert_eq!(aps[1].security, "Open");
    let plain = scan_with_nmcli("Net:001122334455:-61:11:WPA2\n");
    assert_eq!(plain[0].rssi, -61);
    assert_eq!(plain[0].channel, 11);
    assert_eq!(plain[0].frequency, 0);
}

#[test]
fn station_dump_is_read() {
    let text = "BSS aa:bb:cc:dd:ee:01(on wlan0)\n\tsignal: -48.00 dBm\n\tSSID: Home\n\tDS Parameter set: channel 6\nBSS aa:bb:cc:dd:ee:02(on wlan0) -- associated\n\tsignal: -70 dBm\n\tSSID: \nBSS aa:bb:cc:dd:ee:03\n\tSSID: Cafe\n\tsignal: -81 dBm\n\tDS Parameter set: channel x\n";
    let aps = scan_with_iw(text);
    assert_eq!(aps.len(), 2);
    assert_eq!(aps[0].ssid, "Home");
    assert_eq!(aps[0].bssid, "aa:bb:cc:dd:ee:01(on");
    assert_eq!(aps[0].rssi, 0);
    assert_eq!(aps[0].channel, 6);
    assert_eq!(aps[1].ssid, "Cafe");
    assert_eq!(aps[1].bssid, "aa:bb:cc:dd:ee:03");
    assert_eq!(aps[1].rssi, -81);
    assert_eq!(aps[1].channel, 0);
    assert!(scan_with_iw("").is_empty());
}

#[test]
fn cell_listing_is_read() {
    let text = "wlan0     Scan completed :\n          Cell 01 - Address: AA:BB:CC:DD:EE:01\n                    Channel:6\n                    Frequency:2.437 GHz (Channel 6)\n                    Quality=60/70  Signal level=-50 dBm  \n                    Encryption key:on\n                    ESSID:\"Home\"\n          Cell 02 - Address: AA:BB:CC:DD:EE:02\n                    ESSID:\"\"\n          Cell 03 - Address: AA:BB:CC:DD:EE:03\n                    Frequency:5.18 GHz\n                    Frequency:bad\n                    Encryption key:off\n                    ESSID:\"Cafe\"\n";
    let cells = scan_with_iwlist(text);
    assert_eq!(cells.len(), 2);
    assert_eq!(cells[0].ap.ssid, "Home");
    assert_eq!(cells[0].ap.bssid, "");
    assert_eq!(cells[0].ap.channel, 6);
    assert_eq!(cells[0].ap.rssi, -50);
    assert_eq!(cells[0].ap.security, "Secured");
    assert_eq!(cells[0].ap.frequency, 0);
    assert_eq!(cells[0].frequency_texts, vec!["2.437".to_string()]);
    assert_eq!(cells[1].ap.ssid, "Cafe");
    assert_eq!(cells[1].ap.security, "Open");
    assert_eq!(cells[1].frequency_texts, vec!["5.18".to_string(), "bad".to_string()]);
    let addressed = scan_with_iwlist("Address: 11:22\nESSID:x\n");
    assert_eq!(addressed[0].ap.bssid, "11:22");
    assert_eq!(addressed[0].ap.ssid, "x");
}

#[test]
fn network_listing_of_the_platform_shell_is_read() {
    let text = "\r\nInterface name : Wi-Fi\r\nThere are 2 networks currently visible.\r\n\r\nSSID 1 : Home Net\r\n    Network type            : Infrastructure\r\n    Authentication          : WPA2-Personal\r\n    Encryption              : CCMP\r\n    BSSID 1                 : aa:bb:cc:dd:ee:01\r\n         Signal             : 80%\r\n         Radio type         : 802.11n\r\n         Channel            : 11\r\n\r\nSSID 2 : Cafe\r\n    Encryption              : None\r\n         Signal             : 41%\r\n         Channel            : 250\r\n";
    let aps = scan_nearby_aps_windows(text);
    assert_eq!(aps.len(), 2);
    assert_eq!(aps[0].ssid, "Home Net");
    assert_eq!(aps[0].security, "WPA2-Personal");
    assert_eq!(aps[0].bssid, "BSSID");
    assert_eq!(aps[0].rssi, -60);
    assert_eq!(aps[0].channel, 11);
    assert_eq!(aps[0].frequency, 2462);
    assert_eq!(aps[1].ssid, "Cafe");
    assert_eq!(aps[1].security, "None");
    assert_eq!(aps[1].bssid, "");
    assert_eq!(aps[1].rssi, -80);
    assert_eq!(aps[1].channel, 250);
    assert_eq!(aps[1].frequency, 0);
    let unnamed = scan_nearby_aps_windows("SSID 1 : Bare\r\n");
    assert_eq!(unnamed.len(), 1);
    assert_eq!(unnamed[0].security, "Unknown");
    assert!(scan_nearby_aps_windows("SSID 1 :\r\nSignal : 50%\r\n").is_empty());
}

#[test]
fn saved_profiles_become_access_points() {
    let aps = scan_saved_profiles("Profiles on interface Wi-Fi:\r\n    All User Profile     : Home Net\r\n    ALL USER PROFILE     : \r\n    All User Profile     : Cafe\r\n");
    assert_eq!(aps.len(), 2);
    assert_eq!(aps[0].ssid, "Home Net");
    assert_eq!(aps[0].bssid, "Unknown");
    assert_eq!(aps[0].rssi, -60);
    assert_eq!(aps[0].channel, 6);
    assert_eq!(aps[0].security, "WPA2");
    assert_eq!(aps[0].frequency, 2437);
    assert_eq!(aps[1].ssid, "Cafe");
}

#[test]
fn measurements_are_cut_out_as_written() {
    let ping = "PING 127.0.0.1 (127.0.0.1) 56(84) bytes of data.\n64 bytes from 127.0.0.1: icmp_seq=1 ttl=64 time=0.045 ms\n64 bytes: time=oops\n\n--- 127.0.0.1 ping statistics ---\n4 packets transmitted, 3 received, 25% packet loss, time 3004ms\nrtt min/avg/max/mdev = 0.045/0.045/0.045/0.000 ms\n";
    assert_eq!(measurements(Measurement::RoundTrip, ping), vec!["0.045".to_string(), "oops".to_string()]);
    assert_eq!(measurements(Measurement::PacketLoss, ping), vec!["25".to_string()]);
    assert_eq!(measurements(Measurement::PacketLoss, "packet loss\n1 2 3 packet loss here\n"), vec!["loss".to_string(), "here".to_string()]);
    assert_eq!(measurements(Measurement::Frequency, "Current Frequency:2.437 GHz (Channel 6)\nCurrent Frequency: 5\n"), vec!["2.437".to_string(), String::new()]);
    assert!(measurements(Measurement::RoundTrip, "").is_empty());
}

#[test]
fn byte_counters_are_added_up() {
    let table = "Inter-|   Receive    |  Transmit\n face |bytes packets|bytes packets\n    lo: 1000 10 0 0 0 0 0 0 1000 10 0 0 0 0 0 0\n  eth0: 5000 50 0 0 0 0 0 0 700 7 0 0 0 0 0 0\n wlan0:300 3 0 0 0 0 0 0 20 2 0 0 0 0 0 0\n tun:0: 9 3 0 0 0 0 0 0 9 2 0 0 0 0 0 0\n iface: 9 3 0 0 0 0 0 0 9 2 0 0 0 0 0 0\n";
    let totals = get_network_stats(table);
    assert_eq!(totals.received, 5300);
    assert_eq!(totals.sent, 720);
    let listed = get_network_stats_windows("Interface Statistics\r\n\r\n                           Received            Sent\r\n\r\nBytes                    1234567          765432\r\nUnicast packets             1000             900\r\nBytes 1 1\r\n").expect("counters");
    assert_eq!(listed.received, 1234567);
    assert_eq!(listed.sent, 765432);
    assert!(get_network_stats_windows("Bytes 0 0\nBytes 5 5\n").is_none());
    assert!(get_network_stats_windows("Bytes 5\n").is_none());
    assert!(get_network_stats_windows("nothing\n").is_none());
    let half = get_network_stats_windows("  Bytes x 7\n").expect("counters");
    assert_eq!(half.received, 0);
    assert_eq!(half.sent, 7);
    assert_eq!(counter_total(" 12345 \r\n"), Some(12345));
    assert_eq!(counter_total("12345.6"), None);
    assert_eq!(counter_total(""), None);
}

fn snippet(id: i64, name: &str) -> Snippet {
    Snippet { id, name: name.to_string(), language: "rust".to_string(), code: "fn main() {}".to_string() }
}

fn server(name: &str, host: &str) -> SavedServer {
    SavedServer { name: name.to_string(), host: host.to_string(), user: "root".to_string(), port: 22, password: String::new() }
}

#[test]
fn snippets_are_saved_and_deleted() {
    let mut all: Vec<Snippet> = vec![];
    save_snippet(&mut all, snippet(1, "one"));
    save_snippet(&mut all, snippet(2, "two"));
    assert_eq!(all.iter().map(|s| s.id).collect::<Vec<_>>(), vec![2, 1]);
    save_snippet(&mut all, snippet(1, "uno"));
    assert_eq!(all.len(), 2);
    assert_eq!(all[1].name, "uno");
    assert!(!delete_snippet(&mut all, 9));
    assert_eq!(all.len(), 2);
    assert!(delete_snippet(&mut all, 2));
    assert_eq!(all.len(), 1);
    assert_eq!(all[0].id, 1);
    assert!(delete_snippet(&mut all, 1));
    assert!(all.is_empty());
    assert!(!delete_snippet(&mut all, 1));
}

#[test]
fn servers_are_saved_and_deleted() {
    let mut all: Vec<SavedServer> = vec![];
    save_server(&mut all, server("a", "h1"));
    save_server(&mut all, server("b", "h2"));
    save_server(&mut all, server("a", "h3"));
    assert_eq!(all.iter().map(|s| (s.name.clone(), s.host.clone())).collect::<Vec<_>>(), vec![("b".to_string(), "h2".to_string()), ("a".to_string(), "h3".to_string())]);
    assert!(!delete_server(&mut all, &"c".to_string()));
    assert_eq!(all.len(), 2);
    assert!(delete_server(&mut all, &"b".to_string()));
    assert_eq!(all.len(), 1);
    assert_eq!(all[0].name, "a");
}

#[test]
fn pictures_are_told_by_their_ending() {
    for ending in ["NEF", "nef", "JPG", "jpg", "JPEG", "jpeg"] {
        assert!(is_picture_extension(ending));
    }
    for ending in ["Nef", "Jpg", "png", "webp", "", "jpe", "jpegs"] {
        assert!(!is_picture_extension(ending));
    }
}

#[test]
fn picture_plan_follows_the_name_and_the_output() {
    assert!(matches!(process_single_image(None, false), ImagePlan::InvalidName));
    assert!(matches!(process_single_image(None, true), ImagePlan::InvalidName));
    assert!(matches!(process_single_image(Some("DSC_0001"), true), ImagePlan::Skip));
    match process_single_image(Some("DSC_0001"), false) {
        ImagePlan::Convert(name) => assert_eq!(name, "DSC_0001.webp"),
        _ => panic!("a conversion"),
    }
    assert_eq!(webp_file_name(""), ".webp");
    let report = count_outcomes(&vec![true, false, true, true]);
    assert_eq!(report.converted, 3);
    assert_eq!(report.failed, 1);
    let none = count_outcomes(&vec![]);
    assert_eq!(none.converted, 0);
    assert_eq!(none.failed, 0);
}
