use lan_inventory::device::NetworkDevice;
use lan_inventory::merge::{belongs_to, merge_device, merge_devices};

fn device(ip: &str, mac: &str) -> NetworkDevice {
    NetworkDevice {
        ip: ip.to_string(),
        mac: mac.to_string(),
        hostname: String::new(),
        vendor: "Unknown".to_string(),
        device_type: "Unknown".to_string(),
        first_seen: 100,
        last_seen: 100,
        status: "online".to_string(),
        tags: vec![],
        notes: String::new(),
        os: String::new(),
    }
}

fn key(d: &NetworkDevice) -> (String, String, String, String, String, u64, u64, String, String) {
    (
        d.ip.clone(),
        d.mac.clone(),
        d.hostname.clone(),
        d.vendor.clone(),
        d.device_type.clone(),
        d.first_seen,
        d.last_seen,
        d.status.clone(),
        d.os.clone(),
    )
}

#[test]
fn sighting_of_unseen_device_is_added() {
    let mut set = vec![device("10.0.0.1", "aa:aa:aa:aa:aa:01")];
    merge_devices(&mut set, vec![device("10.0.0.2", "aa:aa:aa:aa:aa:02")]);
    assert_eq!(set.len(), 2);
    assert_eq!(set[1].ip, "10.0.0.2");
}

#[test]
fn sighting_by_address_fills_gaps() {
    let mut set = vec![device("10.0.0.1", "aa:aa:aa:aa:aa:01")];
    let mut seen = device("10.0.0.1", "");
    seen.hostname = "printer".to_string();
    seen.vendor = "HP".to_string();
    seen.device_type = "Printer".to_string();
    seen.last_seen = 250;
    seen.first_seen = 250;
    seen.os = "Linux".to_string();
    merge_devices(&mut set, vec![seen]);
    assert_eq!(set.len(), 1);
    assert_eq!(set[0].hostname, "printer");
    assert_eq!(set[0].vendor, "HP");
    assert_eq!(set[0].device_type, "Printer");
    assert_eq!(set[0].last_seen, 250);
    assert_eq!(set[0].first_seen, 100);
    assert_eq!(set[0].mac, "aa:aa:aa:aa:aa:01");
    assert_eq!(set[0].os, "Linux");
}

#[test]
fn missing_hardware_address_and_platform_are_filled() {
    let mut set = vec![device("10.0.0.1", "")];
    let mut seen = device("10.0.0.1", "aa:aa:aa:aa:aa:01");
    seen.os = "Linux".to_string();
    merge_device(&mut set, seen);
    assert_eq!(set.len(), 1);
    assert_eq!(set[0].mac, "aa:aa:aa:aa:aa:01");
    assert_eq!(set[0].os, "Linux");
    let mut later = device("10.0.0.1", "bb:bb:bb:bb:bb:02");
    later.os = "Windows".to_string();
    merge_device(&mut set, later);
    assert_eq!(set.len(), 1);
    assert_eq!(set[0].mac, "aa:aa:aa:aa:aa:01");
    assert_eq!(set[0].os, "Linux");
}

#[test]
fn sighting_by_hardware_address_matches() {
    let mut set = vec![device("10.0.0.1", "aa:aa:aa:aa:aa:01")];
    let mut seen = device("10.0.0.77", "aa:aa:aa:aa:aa:01");
    seen.hostname = "moved".to_string();
    merge_devices(&mut set, vec![seen]);
    assert_eq!(set.len(), 1);
    assert_eq!(set[0].ip, "10.0.0.1");
    assert_eq!(set[0].hostname, "moved");
}

#[test]
fn empty_hardware_address_is_no_key() {
    let mut set = vec![device("10.0.0.1", "")];
    merge_devices(&mut set, vec![device("10.0.0.2", "")]);
    assert_eq!(set.len(), 2);
    assert!(!belongs_to(&set[0], &set[1]));
    assert!(belongs_to(&set[0], &device("10.0.0.1", "")));
}

#[test]
fn known_fields_are_never_overwritten() {
    let mut first = device("10.0.0.1", "aa:aa:aa:aa:aa:01");
    first.hostname = "alpha".to_string();
    first.vendor = "Apple".to_string();
    first.device_type = "Phone".to_string();
    first.notes = "mine".to_string();
    first.tags = vec!["trusted".to_string()];
    let mut set = vec![first];
    let mut second = device("10.0.0.1", "aa:aa:aa:aa:aa:01");
    second.hostname = "beta".to_string();
    second.vendor = "Samsung".to_string();
    second.device_type = "TV".to_string();
    second.notes = "theirs".to_string();
    second.tags = vec!["blocked".to_string()];
    second.status = "offline".to_string();
    merge_devices(&mut set, vec![second]);
    assert_eq!(set.len(), 1);
    assert_eq!(set[0].hostname, "alpha");
    assert_eq!(set[0].vendor, "Apple");
    assert_eq!(set[0].device_type, "Phone");
    assert_eq!(set[0].notes, "mine");
    assert_eq!(set[0].tags, vec!["trusted".to_string()]);
    assert_eq!(set[0].status, "online");
}

#[test]
fn unknown_sentinel_is_replaced_but_not_restored() {
    let mut set = vec![device("10.0.0.1", "")];
    let mut a = device("10.0.0.1", "");
    a.vendor = "Apple".to_string();
    let b = device("10.0.0.1", "");
    merge_devices(&mut set, vec![a, b]);
    assert_eq!(set[0].vendor, "Apple");
    assert_eq!(set[0].device_type, "Unknown");
}

#[test]
fn last_seen_never_moves_back() {
    let mut set = vec![device("10.0.0.1", "")];
    set[0].last_seen = 500;
    let mut old = device("10.0.0.1", "");
    old.last_seen = 300;
    merge_device(&mut set, old);
    assert_eq!(set[0].last_seen, 500);
    let mut new = device("10.0.0.1", "");
    new.last_seen = 700;
    merge_device(&mut set, new);
    assert_eq!(set[0].last_seen, 700);
    assert_eq!(set[0].first_seen, 100);
}

#[test]
fn first_matching_record_takes_the_sighting() {
    let mut set = vec![device("10.0.0.1", "aa:aa:aa:aa:aa:01"), device("10.0.0.2", "aa:aa:aa:aa:aa:02")];
    let mut seen = device("10.0.0.2", "aa:aa:aa:aa:aa:01");
    seen.hostname = "both".to_string();
    merge_device(&mut set, seen);
    assert_eq!(set[0].hostname, "both");
    assert_eq!(set[1].hostname, "");
}

#[test]
fn hardware_address_is_matched_before_address() {
    let mut set = vec![device("10.0.0.2", "aa:aa:aa:aa:aa:02"), device("10.0.0.1", "aa:aa:aa:aa:aa:01")];
    let mut seen = device("10.0.0.2", "aa:aa:aa:aa:aa:01");
    seen.hostname = "both".to_string();
    merge_device(&mut set, seen);
    assert_eq!(set.len(), 2);
    assert_eq!(set[0].hostname, "");
    assert_eq!(set[1].hostname, "both");
    assert_eq!(set[1].ip, "10.0.0.1");
    let mut bare = device("10.0.0.2", "");
    bare.hostname = "by address".to_string();
    merge_device(&mut set, bare);
    assert_eq!(set[0].hostname, "by address");
    assert_eq!(set[1].hostname, "both");
}

#[test]
fn filled_hardware_address_stays_unique() {
    let mut set = vec![device("10.0.0.1", ""), device("10.0.0.2", "aa:aa:aa:aa:aa:02")];
    merge_device(&mut set, device("10.0.0.1", "aa:aa:aa:aa:aa:02"));
    assert_eq!(set.len(), 2);
    assert_eq!(set[0].mac, "");
    assert_eq!(set[1].mac, "aa:aa:aa:aa:aa:02");
}

#[test]
fn duplicates_within_one_list_are_merged() {
    let mut set: Vec<NetworkDevice> = vec![];
    let mut again = device("10.0.0.1", "aa:aa:aa:aa:aa:01");
    again.hostname = "x".to_string();
    merge_devices(&mut set, vec![device("10.0.0.1", "aa:aa:aa:aa:aa:01"), again]);
    assert_eq!(set.len(), 1);
    assert_eq!(set[0].hostname, "x");
}

#[test]
fn order_of_separate_sightings_does_not_matter() {
    let existing = vec![device("10.0.0.1", "aa:aa:aa:aa:aa:01"), device("10.0.0.2", "")];
    let mut a = device("10.0.0.1", "");
    a.hostname = "router".to_string();
    a.last_seen = 200;
    let mut b = device("10.0.0.2", "bb:bb:bb:bb:bb:02");
    b.vendor = "Apple".to_string();
    let c = device("10.0.0.3", "cc:cc:cc:cc:cc:03");
    let d = device("10.0.0.4", "");
    let mut one = existing.clone();
    merge_devices(&mut one, vec![a.clone(), b.clone(), c.clone(), d.clone()]);
    let mut two = existing.clone();
    merge_devices(&mut two, vec![d, c, b, a]);
    assert_eq!(one.len(), 4);
    assert_eq!(two.len(), 4);
    let mut left: Vec<_> = one.iter().map(key).collect();
    let mut right: Vec<_> = two.iter().map(key).collect();
    left.sort();
    right.sort();
    assert_eq!(left, right);
}

#[test]
fn order_of_conflicting_sightings_does_matter() {
    let mut a = device("10.0.0.1", "");
    a.hostname = "a".to_string();
    let mut b = device("10.0.0.1", "aa:aa:aa:aa:aa:01");
    b.hostname = "b".to_string();
    let mut one: Vec<NetworkDevice> = vec![];
    merge_devices(&mut one, vec![a.clone(), b.clone()]);
    let mut two: Vec<NetworkDevice> = vec![];
    merge_devices(&mut two, vec![b, a]);
    assert_eq!(one.len(), 1);
    assert_eq!(two.len(), 1);
    assert_eq!(one[0].hostname, "a");
    assert_eq!(one[0].mac, "aa:aa:aa:aa:aa:01");
    assert_eq!(two[0].hostname, "b");
    assert_eq!(two[0].mac, "aa:aa:aa:aa:aa:01");
}

fn partial(mac: &str, hostname: &str, device_type: &str) -> NetworkDevice {
    NetworkDevice {
        ip: "10.0.0.2".to_string(),
        mac: mac.to_string(),
        hostname: hostname.to_string(),
        vendor: "Unknown".to_string(),
        device_type: device_type.to_string(),
        first_seen: 1,
        last_seen: 1,
        status: "online".to_string(),
        tags: vec![],
        notes: String::new(),
        os: String::new(),
    }
}

#[test]
fn order_of_sightings_that_agree_does_not_matter() {
    let a = partial("aa:bb:cc:dd:ee:01", "", "Unknown");
    let b = partial("", "tv", "TV");
    let mut one: Vec<NetworkDevice> = vec![];
    merge_devices(&mut one, vec![a.clone(), b.clone()]);
    let mut two: Vec<NetworkDevice> = vec![];
    merge_devices(&mut two, vec![b, a]);
    assert_eq!(one.len(), 1);
    assert_eq!(two.len(), 1);
    for set in [&one, &two] {
        assert_eq!(set[0].ip, "10.0.0.2");
        assert_eq!(set[0].mac, "aa:bb:cc:dd:ee:01");
        assert_eq!(set[0].hostname, "tv");
        assert_eq!(set[0].vendor, "Unknown");
        assert_eq!(set[0].device_type, "TV");
        assert_eq!(set[0].os, "");
        assert_eq!(set[0].last_seen, 1);
    }
    assert_eq!(key(&one[0]), key(&two[0]));
}

#[test]
fn each_sighting_of_one_device_may_tell_a_part() {
    let mut a = device("10.0.0.5", "aa:aa:aa:aa:aa:05");
    a.last_seen = 300;
    let mut b = device("10.0.0.5", "");
    b.hostname = "nas".to_string();
    b.os = "Linux".to_string();
    let mut c = device("10.0.0.5", "aa:aa:aa:aa:aa:05");
    c.vendor = "Synology".to_string();
    c.device_type = "Server".to_string();
    let other = device("10.0.0.6", "aa:aa:aa:aa:aa:06");
    let orders: Vec<Vec<NetworkDevice>> = vec![
        vec![a.clone(), b.clone(), c.clone(), other.clone()],
        vec![c.clone(), other.clone(), b.clone(), a.clone()],
        vec![b.clone(), a.clone(), other.clone(), c.clone(), b.clone()],
    ];
    for order in orders {
        let mut set: Vec<NetworkDevice> = vec![];
        merge_devices(&mut set, order);
        assert_eq!(set.len(), 2);
        let mut keys: Vec<_> = set.iter().map(key).collect();
        keys.sort();
        assert_eq!(keys[0].0, "10.0.0.5");
        assert_eq!(keys[0].1, "aa:aa:aa:aa:aa:05");
        assert_eq!(keys[0].2, "nas");
        assert_eq!(keys[0].3, "Synology");
        assert_eq!(keys[0].4, "Server");
        assert_eq!(keys[0].6, 300);
        assert_eq!(keys[0].8, "Linux");
        assert_eq!(keys[1].0, "10.0.0.6");
        assert_eq!(keys[1].1, "aa:aa:aa:aa:aa:06");
    }
}

#[test]
fn merging_nothing_changes_nothing() {
    let mut set = vec![device("10.0.0.1", "aa:aa:aa:aa:aa:01")];
    merge_devices(&mut set, vec![]);
    assert_eq!(set.len(), 1);
    assert_eq!(set[0].ip, "10.0.0.1");
}
