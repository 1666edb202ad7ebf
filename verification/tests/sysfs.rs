use netcounters::counter::READ_BUDGET;
use netcounters::sysfs::{
    RX_BYTES, RX_ERRORS, RX_PACKETS, STATISTICS, SYSFS_NET, TX_BYTES, TX_ERRORS, TX_PACKETS,
};
use netcounters::{refresh_networks_list_from_sysfs, Networks, StatisticsFiles, SysfsEntry};

#[test]
fn interfaces_are_listed_under_sys_class_net() {
    assert_eq!(SYSFS_NET, "/sys/class/net/");
    assert_eq!(STATISTICS, "statistics");
}

#[test]
fn counter_files_have_the_kernel_names() {
    assert_eq!(RX_BYTES, "rx_bytes");
    assert_eq!(TX_BYTES, "tx_bytes");
    assert_eq!(RX_PACKETS, "rx_packets");
    assert_eq!(TX_PACKETS, "tx_packets");
    assert_eq!(RX_ERRORS, "rx_errors");
    assert_eq!(TX_ERRORS, "tx_errors");
}

#[test]
fn budget_holds_the_largest_counter_and_its_newline() {
    assert!(format!("{}\n", u64::MAX).len() <= READ_BUDGET);
}

#[test]
fn items_are_reachable_from_the_crate_root() {
    let mut networks = Networks::new();
    let listing = Some(vec![SysfsEntry {
        name: Some("lo".to_owned()),
        statistics: StatisticsFiles::unreadable(),
    }]);
    refresh_networks_list_from_sysfs(&mut networks, &listing);
    let pairs = networks.iter();
    assert_eq!(pairs.len(), 1);
    assert_eq!(pairs[0].0, "lo");
    assert_eq!(pairs[0].1.get_total_received(), 0);
}
