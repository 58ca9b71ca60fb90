use lan_inventory::capture::{
    build_capture_command, capture_targets, CaptureSession, StartDecision, StartReq,
};
use lan_inventory::clock::{millis, now, now_ms, now_secs, read_moment, stamp, Moment};
use lan_inventory::monitor::{monitor_action, monitor_command, MonitorAction, MonitorCommand};
use lan_inventory::packets::{collect_devices, process_packet, process_packet_at, InterfaceFacts};
use lan_inventory::sniff::{dir, parse_http_request, parse_http_text};
use lan_inventory::totals::{rank, total_up, total_up_numbers, weigh, Total};
use lan_inventory::traffic::{
    add_or_inc, get_summary, interface_totals, parse_dns_cache_hosts, parse_netstat_flows,
    parse_ss_flows, split_host_port, FlowRow,
};
use lan_inventory::wifi::channel_to_frequency;

fn flow(proto: &str, remote_port: u16, count: u32) -> FlowRow {
    FlowRow {
        proto: proto.to_string(),
        local_ip: "10.0.0.2".to_string(),
        local_port: 50000,
        remote_ip: "1.1.1.1".to_string(),
        remote_port,
        state: "ESTAB".to_string(),
        count,
    }
}

#[test]
fn host_and_port_are_parted_at_the_last_colon() {
    assert_eq!(split_host_port("10.0.0.5:443"), ("10.0.0.5".to_string(), 443));
    assert_eq!(split_host_port("[::1]:53"), ("::1".to_string(), 53));
    assert_eq!(split_host_port("[[fe80::1]]:8080"), ("fe80::1".to_string(), 8080));
    assert_eq!(split_host_port("*:*"), ("*".to_string(), 0));
    assert_eq!(split_host_port("0.0.0.0:0"), ("0.0.0.0".to_string(), 0));
    assert_eq!(split_host_port("localhost"), ("localhost".to_string(), 0));
    assert_eq!(split_host_port(""), (String::new(), 0));
    assert_eq!(split_host_port(":80"), (String::new(), 80));
    assert_eq!(split_host_port("host:"), ("host".to_string(), 0));
}

#[test]
fn port_is_read_as_the_standard_library_reads_it() {
    assert_eq!(split_host_port("h:65535").1, 65535);
    assert_eq!(split_host_port("h:65536").1, 0);
    assert_eq!(split_host_port("h:+80").1, 80);
    assert_eq!(split_host_port("h:-80").1, 0);
    assert_eq!(split_host_port("h:080").1, 80);
    assert_eq!(split_host_port("h: 80").1, 0);
    assert_eq!(split_host_port("h:8o").1, 0);
    assert_eq!(split_host_port("h:+").1, 0);
    assert_eq!(split_host_port("h:99999999999999999999999").1, 0);
    for text in ["443", "+1", "65536", "", "+", "-1", "0x10", "00001"] {
        let expected = text.parse::<u16>().unwrap_or(0);
        assert_eq!(split_host_port(&format!("h:{}", text)).1, expected);
    }
}

#[test]
fn same_flow_is_counted_once_more() {
    let mut rows = vec![flow("TCP", 443, 1), flow("TCP", 80, 1)];
    add_or_inc(&mut rows, flow("TCP", 80, 1));
    assert_eq!(rows.len(), 2);
    assert_eq!(rows[0].count, 1);
    assert_eq!(rows[1].count, 2);
    add_or_inc(&mut rows, flow("UDP", 80, 1));
    assert_eq!(rows.len(), 3);
    assert_eq!(rows[2].count, 1);
    let mut other_state = flow("TCP", 80, 1);
    other_state.state = "TIME-WAIT".to_string();
    add_or_inc(&mut rows, other_state);
    assert_eq!(rows.len(), 4);
}

#[test]
fn full_count_stays_full() {
    let mut rows = vec![flow("TCP", 443, u32::MAX)];
    add_or_inc(&mut rows, flow("TCP", 443, 1));
    assert_eq!(rows[0].count, u32::MAX);
}

#[test]
fn netstat_listing_is_read() {
    let text = "\r\nActive Connections\r\n\r\n  Proto  Local Address          Foreign Address        State           PID\r\n  TCP    192.168.1.20:49712     52.1.2.3:443           ESTABLISHED     1234\r\n  TCP    192.168.1.20:49712     52.1.2.3:443           ESTABLISHED     1234\r\n  TCP    [::1]:5000             [::]:0                 LISTENING       4\r\n  UDP    0.0.0.0:5353           *:*                    99\r\n  UDP    0.0.0.0:0              *:*                    99\r\n";
    let rows = parse_netstat_flows(text);
    assert_eq!(rows.len(), 3);
    assert_eq!(rows[0].proto, "TCP");
    assert_eq!(rows[0].local_ip, "192.168.1.20");
    assert_eq!(rows[0].local_port, 49712);
    assert_eq!(rows[0].remote_ip, "52.1.2.3");
    assert_eq!(rows[0].remote_port, 443);
    assert_eq!(rows[0].state, "ESTABLISHED");
    assert_eq!(rows[0].count, 2);
    assert_eq!(rows[1].local_ip, "::1");
    assert_eq!(rows[1].remote_ip, "::");
    assert_eq!(rows[1].state, "LISTENING");
    assert_eq!(rows[2].proto, "UDP");
    assert_eq!(rows[2].state, "-");
    assert_eq!(rows[2].local_port, 5353);
    assert_eq!(rows[2].remote_ip, "*");
}

#[test]
fn ss_listing_is_read() {
    let text = "Netid State  Recv-Q Send-Q Local Address:Port  Peer Address:Port Process\nudp   UNCONN 0      0      127.0.0.53%lo:53    0.0.0.0:*\ntcp   ESTAB  0      0      10.0.0.2:22         10.0.0.9:51234    users:((\"sshd\"))\ntcp   ESTAB  0      0      10.0.0.2:22         10.0.0.9:51234\ntcp   LISTEN 0      128    [::]:80\n";
    let rows = parse_ss_flows(text);
    assert_eq!(rows.len(), 2);
    assert_eq!(rows[0].proto, "UDP");
    assert_eq!(rows[0].state, "UNCONN");
    assert_eq!(rows[0].local_ip, "127.0.0.53%lo");
    assert_eq!(rows[0].local_port, 53);
    assert_eq!(rows[0].remote_ip, "0.0.0.0");
    assert_eq!(rows[0].remote_port, 0);
    assert_eq!(rows[1].proto, "TCP");
    assert_eq!(rows[1].count, 2);
    assert_eq!(rows[1].remote_port, 51234);
}

#[test]
fn summary_ranks_protocols_and_ports() {
    let rows = vec![flow("TCP", 443, 2), flow("UDP", 53, 7), flow("TCP", 80, 4), flow("TCP", 443, 1), flow("ICMP", 0, 6)];
    let summary = get_summary(&rows);
    let protocols: Vec<(String, u32)> = summary.top_protocols.iter().map(|t| (t.key.clone(), t.total)).collect();
    assert_eq!(protocols, vec![("TCP".to_string(), 7), ("UDP".to_string(), 7), ("ICMP".to_string(), 6)]);
    let ports: Vec<(u16, u32)> = summary.top_ports.iter().map(|t| (t.key, t.total)).collect();
    assert_eq!(ports, vec![(53, 7), (0, 6), (80, 4), (443, 3)]);
}

#[test]
fn sums_stay_full() {
    let sums = total_up(&vec![Total { key: 1u16, total: u32::MAX - 1 }, Total { key: 1u16, total: 5 }, Total { key: 2u16, total: 5 }]);
    assert_eq!(sums.len(), 2);
    assert_eq!(sums[0].total, u32::MAX);
    assert_eq!(sums[1].total, 5);
    let ranked = rank(vec![Total { key: 1u16, total: 1 }, Total { key: 2u16, total: 3 }, Total { key: 3u16, total: 3 }]);
    let keys: Vec<u16> = ranked.iter().map(|t| t.key).collect();
    assert_eq!(keys, vec![2, 3, 1]);
}

#[test]
fn clock_before_the_epoch_reads_as_the_epoch() {
    let epoch = read_moment(None);
    assert_eq!(epoch.secs, 0);
    assert_eq!(epoch.nanos, 0);
    assert_eq!(millis(&epoch), 0);
    let later = read_moment(Some(Moment { secs: 1_700_000_000, nanos: 250_000_000 }));
    assert_eq!(later.secs, 1_700_000_000);
    assert_eq!(later.nanos, 250_000_000);
    assert_eq!(millis(&later), 1_700_000_000_250);
}

fn numbered(entries: &[(u16, u32)]) -> Vec<Total<u16>> {
    entries.iter().map(|e| Total { key: e.0, total: e.1 }).collect()
}

#[test]
fn numbers_are_summed_in_the_order_first_met() {
    let entries = numbered(&[(443, 2), (80, 1), (443, 3), (53, 1), (80, 1), (0, 9)]);
    let sums: Vec<(u16, u32)> = total_up_numbers(&entries).iter().map(|t| (t.key, t.total)).collect();
    assert_eq!(sums, vec![(443, 5), (80, 2), (53, 1), (0, 9)]);
    let other: Vec<(u16, u32)> = total_up(&entries).iter().map(|t| (t.key, t.total)).collect();
    assert_eq!(sums, other);
    assert!(total_up_numbers(&vec![]).is_empty());
}

#[test]
fn sums_by_number_stay_full() {
    let entries = numbered(&[(1, u32::MAX - 1), (2, 5), (1, 5), (1, 7), (2, u32::MAX)]);
    let sums: Vec<(u16, u32)> = total_up_numbers(&entries).iter().map(|t| (t.key, t.total)).collect();
    assert_eq!(sums, vec![(1, u32::MAX), (2, u32::MAX)]);
}

#[test]
fn weights_are_kept_by_number() {
    let sums = weigh(&numbered(&[(443, 2), (80, 1), (443, 3)]));
    assert_eq!(sums.len(), 2);
    assert_eq!(sums.get(&443), Some(&5));
    assert_eq!(sums.get(&80), Some(&1));
    assert_eq!(sums.get(&22), None);
}

#[test]
fn interface_table_is_added_up() {
    let text = "Inter-|   Receive                                                |  Transmit\n face |bytes    packets errs drop fifo frame compressed multicast|bytes    packets errs drop fifo colls carrier compressed\n    lo: 1000 10 0 0 0 0 0 0 1000 10 0 0 0 0 0 0\n  eth0: 5000 50 0 0 0 0 0 0 700 7 0 0 0 0 0 0\n wlan0: 300 3 0 0 0 0 0 0 20 2 0 0 0 0 0 0\n short: 1 2 3\n  bad0: x 50 0 0 0 0 0 0 700 7 0 0 0 0 0 0\n";
    let totals = interface_totals(text);
    assert_eq!(totals.received, 5300);
    assert_eq!(totals.sent, 720);
    let none = interface_totals("");
    assert_eq!(none.received, 0);
    assert_eq!(none.sent, 0);
}

#[test]
fn interface_totals_stay_full() {
    let text = "a: 18446744073709551615 0 0 0 0 0 0 0 1 0 0 0 0 0 0 0\nb: 5 0 0 0 0 0 0 0 2 0 0 0 0 0 0 0\nc: 18446744073709551616 0 0 0 0 0 0 0 2 0 0 0 0 0 0 0\n";
    let totals = interface_totals(text);
    assert_eq!(totals.received, u64::MAX);
    assert_eq!(totals.sent, 3);
}

#[test]
fn resolver_cache_names_are_listed() {
    let text = "\r\nWindows IP Configuration\r\n\r\n    example.com\r\n    ----------------------------------------\r\n    Record Name . . . . . : example.com\r\n    Record Type . . . . . : 1\r\n    RECORD NAME . . . . . : cdn.example.net\r\n";
    assert_eq!(parse_dns_cache_hosts(text), vec!["example.com".to_string(), "cdn.example.net".to_string()]);
    assert!(parse_dns_cache_hosts("Record Name without colon\n").is_empty());
}

#[test]
fn direction_is_seen_from_the_selected_device() {
    assert_eq!(dir(&Some("10.0.0.5".to_string()), "10.0.0.5"), "out");
    assert_eq!(dir(&Some("10.0.0.5".to_string()), "10.0.0.50"), "out");
    assert_eq!(dir(&Some("10.0.0.5".to_string()), "10.0.0.6"), "in");
    assert_eq!(dir(&Some(String::new()), "anything"), "out");
    assert_eq!(dir(&None, "10.0.0.5"), "unknown");
}

#[test]
fn http_request_is_read_from_a_payload() {
    let request = parse_http_request(b"GET /index.html HTTP/1.1\r\nHost: example.com\r\nAccept: */*\r\n\r\n").expect("a request");
    assert_eq!(request.method, "GET");
    assert_eq!(request.path, "/index.html");
    assert_eq!(request.host, "example.com");
    let post = parse_http_request(b"xxPOST /api HTTP/1.1\nHOST:  api.example.com:8080 \nX: GET /other\n").expect("a request");
    assert_eq!(post.method, "POST");
    assert_eq!(post.path, "/api");
    assert_eq!(post.host, "api.example.com:8080");
}

#[test]
fn http_request_needs_a_method() {
    assert!(parse_http_request(b"").is_none());
    assert!(parse_http_request(b"HTTP/1.1 200 OK\r\n\r\n").is_none());
    assert!(parse_http_request(b"GET/ HTTP/1.1\r\n").is_none());
    assert!(parse_http_request(b"get / HTTP/1.1\r\n").is_none());
}

#[test]
fn http_request_details() {
    let bare = parse_http_text("DELETE ").expect("a request");
    assert_eq!(bare.method, "DELETE");
    assert_eq!(bare.path, "/");
    assert_eq!(bare.host, "");
    let earliest = parse_http_text("PUT GET /a\r\r\n").expect("a request");
    assert_eq!(earliest.method, "PUT");
    assert_eq!(earliest.path, "GET");
    let no_value = parse_http_text("HEAD /x\nhost:\n").expect("a request");
    assert_eq!(no_value.host, "");
    let options = parse_http_text("zzOPTIONS * HTTP/1.1\nA: b\nhost: h\nhost: second\n").expect("a request");
    assert_eq!(options.method, "OPTIONS");
    assert_eq!(options.path, "*");
    assert_eq!(options.host, "h");
    let patch = parse_http_text("\nPATCH /p\n").expect("a request");
    assert_eq!(patch.method, "PATCH");
}

#[test]
fn http_request_survives_bytes_that_are_no_text() {
    let request = parse_http_request(b"\xff\xfeGET /\xff HTTP/1.1\r\nHost: h\xc3\xa9\r\n").expect("a request");
    assert_eq!(request.method, "GET");
    assert_eq!(request.path, "/\u{fffd}");
    assert_eq!(request.host, "h\u{e9}");
}

#[test]
fn frame_is_summed_up() {
    let mut data = vec![0u8; 60];
    data[23] = 6;
    data[26..30].copy_from_slice(&[192, 168, 1, 20]);
    data[30..34].copy_from_slice(&[8, 8, 4, 255]);
    let packet = process_packet_at(&data, 1700000000);
    assert_eq!(packet.time, "1700000000");
    assert_eq!(packet.source, "192.168.1.20");
    assert_eq!(packet.destination, "8.8.4.255");
    assert_eq!(packet.protocol, "TCP");
    assert_eq!(packet.size, 60);
    assert_eq!(packet.info, "Packet data length: 60 bytes");
    data[23] = 17;
    assert_eq!(process_packet_at(&data, 0).protocol, "UDP");
    assert_eq!(process_packet_at(&data, 0).time, "0");
    data[23] = 1;
    assert_eq!(process_packet_at(&data, 0).protocol, "ICMP");
    data[23] = 2;
    assert_eq!(process_packet_at(&data, 0).protocol, "Other");
}

#[test]
fn short_frame_is_summed_up_without_panic() {
    for n in 0..40usize {
        let data = vec![7u8; n];
        let packet = process_packet_at(&data, 1);
        assert_eq!(packet.size, n as u32);
        assert_eq!(packet.protocol, if n >= 24 { "Other" } else { "Unknown" });
        assert_eq!(packet.source, if n >= 30 { "7.7.7.7" } else { "Unknown" });
        assert_eq!(packet.destination, if n >= 34 { "7.7.7.7" } else { "Unknown" });
        assert_eq!(packet.info, format!("Packet data length: {} bytes", n));
    }
    let now = process_packet(&[]);
    assert!(now.time.parse::<u64>().expect("seconds") > 1_600_000_000);
}

#[test]
fn interfaces_that_are_up_become_devices() {
    let interfaces = vec![
        InterfaceFacts { name: "eth0".to_string(), is_up: true, first_ip: Some("10.0.0.2".to_string()), mac: Some("aa:bb:cc:dd:ee:ff".to_string()) },
        InterfaceFacts { name: "wlan0".to_string(), is_up: false, first_ip: Some("10.0.0.3".to_string()), mac: None },
        InterfaceFacts { name: "tun0".to_string(), is_up: true, first_ip: None, mac: None },
    ];
    let devices = collect_devices(&interfaces);
    assert_eq!(devices.len(), 2);
    assert_eq!(devices[0].ip, "10.0.0.2");
    assert_eq!(devices[0].mac, "aa:bb:cc:dd:ee:ff");
    assert_eq!(devices[0].hostname, "eth0");
    assert_eq!(devices[0].vendor, "Unknown");
    assert_eq!(devices[0].device_type, "Network Interface");
    assert_eq!(devices[1].ip, "Unknown");
    assert_eq!(devices[1].mac, "Unknown");
    assert_eq!(devices[1].hostname, "tun0");
}

fn start_request() -> StartReq {
    StartReq { privacy_mask: None, iface: None, bpf: None, ring_mb: None, targets: None }
}

#[test]
fn capture_command_is_built() {
    assert_eq!(build_capture_command(&start_request()), "tcpdump -i any -w capture.pcap");
    let mut request = start_request();
    request.iface = Some("eth0".to_string());
    request.targets = Some(vec!["10.0.0.5".to_string(), "  ".to_string(), "fe80::1".to_string()]);
    assert_eq!(build_capture_command(&request), "tcpdump -i eth0 -w capture.pcap \"host 10.0.0.5 or host fe80::1\"");
    request.bpf = Some("tcp port 80".to_string());
    assert_eq!(build_capture_command(&request), "tcpdump -i eth0 -w capture.pcap \"(tcp port 80) and (host 10.0.0.5 or host fe80::1)\"");
    request.targets = Some(vec![]);
    assert_eq!(build_capture_command(&request), "tcpdump -i eth0 -w capture.pcap \"tcp port 80\"");
    request.bpf = Some("   ".to_string());
    assert_eq!(build_capture_command(&request), "tcpdump -i eth0 -w capture.pcap");
    request.targets = Some(vec![" 10.0.0.9 ".to_string()]);
    assert_eq!(capture_targets(&request), vec![" 10.0.0.9 ".to_string()]);
    assert_eq!(build_capture_command(&request), "tcpdump -i eth0 -w capture.pcap \"(   ) and (host  10.0.0.9 )\"");
}

#[test]
fn capture_session_runs_its_course() {
    let mut session = CaptureSession::new("t0");
    assert!(session.consent);
    assert!(!session.running);
    assert!(session.privacy_mask);
    assert_eq!(session.audit, vec!["t0 consent preset to true".to_string()]);
    let mut request = start_request();
    request.privacy_mask = Some(false);
    match session.plan_start(&request) {
        StartDecision::Spawn(command) => assert_eq!(command, "tcpdump -i any -w capture.pcap"),
        _ => panic!("a command to run"),
    }
    assert!(!session.privacy_mask);
    assert!(!session.running);
    session.record_start(true, 1700000000, "t1");
    assert!(session.running);
    assert_eq!(session.started_at, Some(1700000000));
    assert!(matches!(session.plan_start(&start_request()), StartDecision::AlreadyRunning));
    assert!(!session.privacy_mask);
    assert!(session.must_stop());
    session.record_stop("t2", "capture.pcap");
    assert!(!session.running);
    assert_eq!(session.last_file, Some("capture.pcap".to_string()));
    assert!(!session.must_stop());
    session.record_stop("t3", "other.pcap");
    assert_eq!(session.audit, vec![
        "t0 consent preset to true".to_string(),
        "t1 capture started".to_string(),
        "t2 capture stopped".to_string(),
    ]);
}

#[test]
fn capture_without_consent_is_forbidden() {
    let mut session = CaptureSession::new("t0");
    session.set_consent(false, "t1");
    assert!(!session.consent);
    let mut request = start_request();
    request.privacy_mask = Some(false);
    assert!(matches!(session.plan_start(&request), StartDecision::Forbidden));
    assert!(session.privacy_mask);
    assert!(!session.running);
    session.set_consent(true, "t2");
    assert!(matches!(session.plan_start(&request), StartDecision::Spawn(_)));
    session.record_start(false, 5, "t3");
    assert!(!session.running);
    assert_eq!(session.started_at, None);
    assert_eq!(session.audit, vec![
        "t0 consent preset to true".to_string(),
        "t1 consent set to false".to_string(),
        "t2 consent set to true".to_string(),
    ]);
}

#[test]
fn moment_is_written_as_the_calendar_writes_it() {
    assert_eq!(stamp(&Moment { secs: 1431648000, nanos: 0 }), "2015-05-15 00:00:00 UTC");
    assert_eq!(stamp(&Moment { secs: 0, nanos: 0 }), "1970-01-01 00:00:00 UTC");
    assert_eq!(stamp(&Moment { secs: 1431648000, nanos: 500_000_000 }), "2015-05-15 00:00:00.500 UTC");
    assert_eq!(stamp(&Moment { secs: u64::MAX, nanos: 0 }), "18446744073709551615");
    assert_eq!(stamp(&Moment { secs: 9_000_000_000_000_000, nanos: 0 }), "9000000000000000");
}

#[test]
fn moment_in_milliseconds() {
    assert_eq!(millis(&Moment { secs: 3, nanos: 999_999_999 }), 3999);
    assert_eq!(millis(&Moment { secs: 0, nanos: 0 }), 0);
    assert_eq!(millis(&Moment { secs: u64::MAX, nanos: 0 }), i64::MAX);
    assert_eq!(millis(&Moment { secs: 9_223_372_036_854_775, nanos: 807_000_000 }), i64::MAX);
    assert_eq!(millis(&Moment { secs: 9_223_372_036_854_775, nanos: 806_000_000 }), i64::MAX - 1);
}

#[test]
fn clock_reads_the_present() {
    let moment = now();
    assert!(moment.secs > 1_600_000_000);
    assert!(moment.nanos < 1_000_000_000);
    assert!(now_secs() >= moment.secs);
    assert!(now_ms() >= 1_600_000_000_000);
}

#[test]
fn channels_have_frequencies() {
    assert_eq!(channel_to_frequency(1), 2412);
    assert_eq!(channel_to_frequency(6), 2437);
    assert_eq!(channel_to_frequency(13), 2472);
    assert_eq!(channel_to_frequency(14), 2484);
    assert_eq!(channel_to_frequency(32), 5160);
    assert_eq!(channel_to_frequency(36), 5180);
    assert_eq!(channel_to_frequency(196), 5980);
    assert_eq!(channel_to_frequency(0), 0);
    assert_eq!(channel_to_frequency(15), 0);
    assert_eq!(channel_to_frequency(31), 0);
    assert_eq!(channel_to_frequency(197), 0);
    assert_eq!(channel_to_frequency(-1), 0);
    assert_eq!(channel_to_frequency(i32::MAX), 0);
    assert_eq!(channel_to_frequency(i32::MIN), 0);
}

#[test]
fn monitor_understands_start_and_stop() {
    assert_eq!(monitor_command("start"), MonitorCommand::Start);
    assert_eq!(monitor_command("  Please START now \n"), MonitorCommand::Start);
    assert_eq!(monitor_command("stop"), MonitorCommand::Stop);
    assert_eq!(monitor_command("STOP and start"), MonitorCommand::Start);
    assert_eq!(monitor_command("hello"), MonitorCommand::Ignore);
    assert_eq!(monitor_command(""), MonitorCommand::Ignore);
    assert_eq!(monitor_action("start", false), MonitorAction::BeginStream);
    assert_eq!(monitor_action("start", true), MonitorAction::Nothing);
    assert_eq!(monitor_action("stop", true), MonitorAction::EndStream);
    assert_eq!(monitor_action("stop", false), MonitorAction::EndStream);
    assert_eq!(monitor_action("?", true), MonitorAction::Nothing);
}
