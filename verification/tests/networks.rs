use netcounters::network_data::NetworkData;
use netcounters::networks::{refresh_networks_list_from_sysfs, Networks};
use netcounters::sysfs::{StatisticsFiles, SysfsEntry};

fn counter_file(value: u64) -> Option<Vec<u8>> {
    Some(format!("{}\n", value).into_bytes())
}

fn files(values: [u64; 6]) -> StatisticsFiles {
    StatisticsFiles {
        rx_bytes: counter_file(values[0]),
        tx_bytes: counter_file(values[1]),
        rx_packets: counter_file(values[2]),
        tx_packets: counter_file(values[3]),
        rx_errors: counter_file(values[4]),
        tx_errors: counter_file(values[5]),
    }
}

/// An interface directory without a `statistics` directory below it.
fn bare(name: &str) -> SysfsEntry {
    SysfsEntry { name: Some(name.to_owned()), statistics: StatisticsFiles::unreadable() }
}

fn entry(name: &str, values: [u64; 6]) -> SysfsEntry {
    SysfsEntry { name: Some(name.to_owned()), statistics: files(values) }
}

fn names(networks: &Networks) -> Vec<String> {
    let mut names: Vec<String> = networks.iter().into_iter().map(|pair| pair.0).collect();
    names.sort();
    names
}

fn find(networks: &Networks, name: &str) -> Option<NetworkData> {
    networks.iter().into_iter().find(|pair| pair.0 == name).map(|pair| pair.1)
}

fn current(data: &NetworkData) -> [u64; 6] {
    [
        data.get_total_received(),
        data.get_total_transmitted(),
        data.get_total_packets_received(),
        data.get_total_packets_transmitted(),
        data.get_total_errors_on_received(),
        data.get_total_errors_on_transmitted(),
    ]
}

fn since_last(data: &NetworkData) -> [u64; 6] {
    [
        data.get_received(),
        data.get_transmitted(),
        data.get_packets_received(),
        data.get_packets_transmitted(),
        data.get_errors_on_received(),
        data.get_errors_on_transmitted(),
    ]
}

#[test]
fn new_registry_is_empty() {
    let networks = Networks::new();
    assert!(networks.iter().is_empty());
}

#[test]
fn refresh_networks_list_add_interface() {
    let mut sys_net_dir = vec![bare("itf1")];

    let mut interfaces = Networks::new();

    refresh_networks_list_from_sysfs(&mut interfaces, &Some(sys_net_dir.clone()));
    assert_eq!(names(&interfaces), ["itf1"]);

    sys_net_dir.push(bare("itf2"));

    refresh_networks_list_from_sysfs(&mut interfaces, &Some(sys_net_dir.clone()));
    let itf_names = names(&interfaces);
    assert_eq!(itf_names, ["itf1", "itf2"]);
}

#[test]
fn refresh_networks_list_remove_interface() {
    let mut sys_net_dir = vec![bare("itf1"), bare("itf2")];

    let mut interfaces = Networks::new();

    refresh_networks_list_from_sysfs(&mut interfaces, &Some(sys_net_dir.clone()));
    let itf_names = names(&interfaces);
    assert_eq!(itf_names, ["itf1", "itf2"]);

    sys_net_dir.remove(0);

    refresh_networks_list_from_sysfs(&mut interfaces, &Some(sys_net_dir.clone()));
    assert_eq!(names(&interfaces), ["itf2"]);
}

#[test]
fn list_refresh_method_does_what_the_function_does() {
    let listing = Some(vec![entry("eth0", [1, 2, 3, 4, 5, 6]), entry("lo", [7, 8, 9, 10, 11, 12])]);
    let mut by_method = Networks::new();
    by_method.refresh_networks_list(&listing);
    let mut by_function = Networks::new();
    refresh_networks_list_from_sysfs(&mut by_function, &listing);
    assert_eq!(names(&by_method), ["eth0", "lo"]);
    assert_eq!(names(&by_function), ["eth0", "lo"]);
    assert_eq!(current(&find(&by_method, "lo").unwrap()), [7, 8, 9, 10, 11, 12]);
    assert_eq!(current(&find(&by_function, "lo").unwrap()), [7, 8, 9, 10, 11, 12]);
}

#[test]
fn list_refresh_without_a_listing_changes_nothing() {
    let mut networks = Networks::new();
    networks.refresh_networks_list(&Some(vec![entry("eth0", [10, 20, 30, 40, 50, 60])]));
    networks.refresh_networks_list(&Some(vec![entry("eth0", [11, 22, 33, 44, 55, 66])]));

    networks.refresh_networks_list(&None);

    assert_eq!(names(&networks), ["eth0"]);
    let data = find(&networks, "eth0").unwrap();
    assert_eq!(current(&data), [11, 22, 33, 44, 55, 66]);
    assert_eq!(since_last(&data), [1, 2, 3, 4, 5, 6]);
}

#[test]
fn list_refresh_without_a_listing_leaves_an_empty_registry_empty() {
    let mut networks = Networks::new();
    networks.refresh_networks_list(&None);
    assert!(networks.iter().is_empty());
}

#[test]
fn list_refresh_from_an_empty_directory_removes_everything() {
    let mut networks = Networks::new();
    networks.refresh_networks_list(&Some(vec![bare("itf1"), bare("itf2")]));
    networks.refresh_networks_list(&Some(Vec::new()));
    assert!(networks.iter().is_empty());
}

#[test]
fn list_refresh_passes_over_a_name_that_does_not_decode() {
    let undecodable = SysfsEntry { name: None, statistics: files([1, 1, 1, 1, 1, 1]) };
    let mut networks = Networks::new();
    networks.refresh_networks_list(&Some(vec![
        entry("eth0", [1, 2, 3, 4, 5, 6]),
        undecodable,
        entry("wlan0", [6, 5, 4, 3, 2, 1]),
    ]));
    assert_eq!(names(&networks), ["eth0", "wlan0"]);
    assert_eq!(current(&find(&networks, "eth0").unwrap()), [1, 2, 3, 4, 5, 6]);
    assert_eq!(current(&find(&networks, "wlan0").unwrap()), [6, 5, 4, 3, 2, 1]);
}

#[test]
fn list_refresh_with_only_undecodable_names_removes_everything() {
    let mut networks = Networks::new();
    networks.refresh_networks_list(&Some(vec![bare("eth0")]));
    networks.refresh_networks_list(&Some(vec![SysfsEntry {
        name: None,
        statistics: StatisticsFiles::unreadable(),
    }]));
    assert!(networks.iter().is_empty());
}

#[test]
fn discovered_interface_has_zero_deltas() {
    let mut networks = Networks::new();
    networks.refresh_networks_list(&Some(vec![entry("eth0", [987, 654, 321, 12, 3, u64::MAX])]));
    let data = find(&networks, "eth0").unwrap();
    assert_eq!(current(&data), [987, 654, 321, 12, 3, u64::MAX]);
    assert_eq!(since_last(&data), [0; 6]);
}

#[test]
fn interface_discovered_later_has_zero_deltas() {
    let mut networks = Networks::new();
    networks.refresh_networks_list(&Some(vec![entry("eth0", [1, 1, 1, 1, 1, 1])]));
    networks.refresh_networks_list(&Some(vec![
        entry("eth0", [5, 5, 5, 5, 5, 5]),
        entry("eth1", [70, 80, 90, 100, 110, 120]),
    ]));
    assert_eq!(since_last(&find(&networks, "eth0").unwrap()), [4; 6]);
    let data = find(&networks, "eth1").unwrap();
    assert_eq!(current(&data), [70, 80, 90, 100, 110, 120]);
    assert_eq!(since_last(&data), [0; 6]);
}

#[test]
fn list_refresh_rotates_a_known_interface() {
    let mut networks = Networks::new();
    networks.refresh_networks_list(&Some(vec![entry("eth0", [100, 200, 300, 400, 500, 600])]));
    networks.refresh_networks_list(&Some(vec![entry("eth0", [150, 260, 370, 480, 590, 600])]));
    let data = find(&networks, "eth0").unwrap();
    assert_eq!(current(&data), [150, 260, 370, 480, 590, 600]);
    assert_eq!(since_last(&data), [50, 60, 70, 80, 90, 0]);
}

#[test]
fn list_refresh_twice_from_an_unchanged_directory() {
    let listing =
        Some(vec![entry("eth0", [10, 20, 30, 40, 50, 60]), entry("lo", [1, 2, 3, 4, 5, 6])]);
    let mut networks = Networks::new();
    networks.refresh_networks_list(&listing);
    let names_once = names(&networks);
    let eth0_once = current(&find(&networks, "eth0").unwrap());
    let lo_once = current(&find(&networks, "lo").unwrap());

    networks.refresh_networks_list(&listing);

    assert_eq!(names(&networks), names_once);
    assert_eq!(names(&networks), ["eth0", "lo"]);
    let eth0 = find(&networks, "eth0").unwrap();
    let lo = find(&networks, "lo").unwrap();
    assert_eq!(current(&eth0), eth0_once);
    assert_eq!(current(&eth0), [10, 20, 30, 40, 50, 60]);
    assert_eq!(current(&lo), lo_once);
    assert_eq!(current(&lo), [1, 2, 3, 4, 5, 6]);
    assert_eq!(since_last(&eth0), [0; 6]);
    assert_eq!(since_last(&lo), [0; 6]);
}

#[test]
fn list_refresh_reads_an_unreadable_file_as_zero() {
    let mut statistics = files([100, 200, 300, 400, 500, 600]);
    statistics.rx_packets = None;
    statistics.tx_errors = Some(b"n/a\n".to_vec());
    let mut networks = Networks::new();
    networks.refresh_networks_list(&Some(vec![
        SysfsEntry { name: Some("eth0".to_owned()), statistics },
        entry("eth1", [1, 2, 3, 4, 5, 6]),
    ]));
    assert_eq!(names(&networks), ["eth0", "eth1"]);
    assert_eq!(current(&find(&networks, "eth0").unwrap()), [100, 200, 0, 400, 500, 0]);
    assert_eq!(current(&find(&networks, "eth1").unwrap()), [1, 2, 3, 4, 5, 6]);
}

#[test]
fn list_refresh_after_a_counter_reset_gives_a_zero_delta() {
    let mut networks = Networks::new();
    networks.refresh_networks_list(&Some(vec![entry("eth0", [100, 100, 100, 100, 100, 100])]));
    networks.refresh_networks_list(&Some(vec![entry("eth0", [40, 100, 101, 0, 99, 1000])]));
    let data = find(&networks, "eth0").unwrap();
    assert_eq!(current(&data), [40, 100, 101, 0, 99, 1000]);
    assert_eq!(since_last(&data), [0, 0, 1, 0, 0, 900]);
}

#[test]
fn list_refresh_takes_a_name_listed_twice_in_twice() {
    let mut networks = Networks::new();
    networks.refresh_networks_list(&Some(vec![
        entry("eth0", [10, 10, 10, 10, 10, 10]),
        entry("eth0", [13, 14, 15, 16, 17, 18]),
    ]));
    assert_eq!(names(&networks), ["eth0"]);
    let data = find(&networks, "eth0").unwrap();
    assert_eq!(current(&data), [13, 14, 15, 16, 17, 18]);
    assert_eq!(since_last(&data), [3, 4, 5, 6, 7, 8]);
}

#[test]
fn list_refresh_readds_an_interface_as_new() {
    let mut networks = Networks::new();
    networks.refresh_networks_list(&Some(vec![entry("usb0", [500, 500, 500, 500, 500, 500])]));
    networks.refresh_networks_list(&Some(Vec::new()));
    networks.refresh_networks_list(&Some(vec![entry("usb0", [900, 900, 900, 900, 900, 900])]));
    let data = find(&networks, "usb0").unwrap();
    assert_eq!(current(&data), [900; 6]);
    assert_eq!(since_last(&data), [0; 6]);
}

#[test]
fn list_refresh_keeps_many_interfaces_in_step() {
    let first: Vec<SysfsEntry> = (0..20u64).map(|i| entry(&format!("if{}", i), [i; 6])).collect();
    let second: Vec<SysfsEntry> =
        (0..20u64).filter(|i| i % 3 != 0).map(|i| entry(&format!("if{}", i), [i + 5; 6])).collect();
    let mut networks = Networks::new();
    networks.refresh_networks_list(&Some(first));
    assert_eq!(networks.iter().len(), 20);
    networks.refresh_networks_list(&Some(second));
    let mut expected: Vec<String> =
        (0..20u64).filter(|i| i % 3 != 0).map(|i| format!("if{}", i)).collect();
    expected.sort();
    assert_eq!(names(&networks), expected);
    for i in (0..20u64).filter(|i| i % 3 != 0) {
        let data = find(&networks, &format!("if{}", i)).unwrap();
        assert_eq!(current(&data), [i + 5; 6]);
        assert_eq!(since_last(&data), [5; 6]);
    }
}

#[test]
fn iter_gives_each_interface_once() {
    let mut networks = Networks::new();
    networks.refresh_networks_list(&Some(vec![
        entry("a", [1; 6]),
        entry("b", [2; 6]),
        entry("c", [3; 6]),
    ]));
    let pairs = networks.iter();
    assert_eq!(pairs.len(), 3);
    let mut seen: Vec<(String, u64)> =
        pairs.iter().map(|pair| (pair.0.clone(), pair.1.get_total_received())).collect();
    seen.sort();
    assert_eq!(seen, [("a".to_owned(), 1), ("b".to_owned(), 2), ("c".to_owned(), 3)]);
}

#[test]
fn iter_can_be_started_again() {
    let mut networks = Networks::new();
    networks.refresh_networks_list(&Some(vec![entry("a", [1; 6]), entry("b", [2; 6])]));
    assert_eq!(names(&networks), names(&networks));
    assert_eq!(networks.iter().len(), 2);
    assert_eq!(networks.iter().len(), 2);
}

#[test]
fn counter_refresh_rotates_every_known_interface() {
    let mut networks = Networks::new();
    networks.refresh_networks_list(&Some(vec![
        entry("eth0", [100, 200, 300, 400, 500, 600]),
        entry("lo", [1, 2, 3, 4, 5, 6]),
    ]));
    networks.refresh(&vec![
        entry("lo", [11, 22, 33, 44, 55, 66]),
        entry("eth0", [101, 202, 303, 404, 505, 606]),
    ]);
    assert_eq!(names(&networks), ["eth0", "lo"]);
    let eth0 = find(&networks, "eth0").unwrap();
    assert_eq!(current(&eth0), [101, 202, 303, 404, 505, 606]);
    assert_eq!(since_last(&eth0), [1, 2, 3, 4, 5, 6]);
    let lo = find(&networks, "lo").unwrap();
    assert_eq!(current(&lo), [11, 22, 33, 44, 55, 66]);
    assert_eq!(since_last(&lo), [10, 20, 30, 40, 50, 60]);
}

#[test]
fn counter_refresh_adds_no_interface() {
    let mut networks = Networks::new();
    networks.refresh_networks_list(&Some(vec![entry("eth0", [1; 6])]));
    networks.refresh(&vec![entry("eth0", [2; 6]), entry("eth1", [9; 6])]);
    assert_eq!(names(&networks), ["eth0"]);
    assert_eq!(current(&find(&networks, "eth0").unwrap()), [2; 6]);
}

#[test]
fn counter_refresh_on_an_empty_registry_adds_nothing() {
    let mut networks = Networks::new();
    networks.refresh(&vec![entry("eth0", [2; 6])]);
    assert!(networks.iter().is_empty());
}

#[test]
fn counter_refresh_removes_no_interface() {
    let mut networks = Networks::new();
    networks.refresh_networks_list(&Some(vec![entry("eth0", [5; 6]), entry("eth1", [7; 6])]));
    networks.refresh(&vec![entry("eth1", [8; 6])]);
    assert_eq!(names(&networks), ["eth0", "eth1"]);
    // The files of eth0 are gone: it reads zero, and its delta saturates.
    let eth0 = find(&networks, "eth0").unwrap();
    assert_eq!(current(&eth0), [0; 6]);
    assert_eq!(since_last(&eth0), [0; 6]);
    let eth1 = find(&networks, "eth1").unwrap();
    assert_eq!(current(&eth1), [8; 6]);
    assert_eq!(since_last(&eth1), [1; 6]);
}

#[test]
fn counter_refresh_takes_the_first_entry_of_a_name() {
    let mut networks = Networks::new();
    networks.refresh_networks_list(&Some(vec![entry("eth0", [10; 6])]));
    networks.refresh(&vec![
        SysfsEntry { name: None, statistics: files([99; 6]) },
        entry("eth0", [12; 6]),
        entry("eth0", [50; 6]),
    ]);
    let eth0 = find(&networks, "eth0").unwrap();
    assert_eq!(current(&eth0), [12; 6]);
    assert_eq!(since_last(&eth0), [2; 6]);
}

#[test]
fn counter_refresh_reads_an_unreadable_file_as_zero() {
    let mut networks = Networks::new();
    networks.refresh_networks_list(&Some(vec![entry("eth0", [10, 20, 30, 40, 50, 60])]));
    let mut statistics = files([11, 21, 31, 41, 51, 61]);
    statistics.tx_bytes = None;
    networks.refresh(&vec![SysfsEntry { name: Some("eth0".to_owned()), statistics }]);
    let eth0 = find(&networks, "eth0").unwrap();
    assert_eq!(current(&eth0), [11, 0, 31, 41, 51, 61]);
    assert_eq!(since_last(&eth0), [1, 0, 1, 1, 1, 1]);
}

#[test]
fn counter_refresh_twice_from_unchanged_files_gives_zero_deltas() {
    let mut networks = Networks::new();
    networks.refresh_networks_list(&Some(vec![entry("eth0", [10; 6])]));
    let readings = vec![entry("eth0", [25; 6])];
    networks.refresh(&readings);
    assert_eq!(since_last(&find(&networks, "eth0").unwrap()), [15; 6]);
    networks.refresh(&readings);
    let eth0 = find(&networks, "eth0").unwrap();
    assert_eq!(current(&eth0), [25; 6]);
    assert_eq!(since_last(&eth0), [0; 6]);
}

#[test]
fn refreshes_interleave() {
    let mut networks = Networks::new();
    networks.refresh_networks_list(&Some(vec![entry("eth0", [100; 6])]));
    networks.refresh(&vec![entry("eth0", [130; 6])]);
    networks.refresh_networks_list(&Some(vec![entry("eth0", [170; 6]), entry("tun0", [5; 6])]));
    networks.refresh(&vec![entry("eth0", [171; 6]), entry("tun0", [9; 6])]);
    assert_eq!(names(&networks), ["eth0", "tun0"]);
    let eth0 = find(&networks, "eth0").unwrap();
    assert_eq!(current(&eth0), [171; 6]);
    assert_eq!(since_last(&eth0), [1; 6]);
    let tun0 = find(&networks, "tun0").unwrap();
    assert_eq!(current(&tun0), [9; 6]);
    assert_eq!(since_last(&tun0), [4; 6]);
}
