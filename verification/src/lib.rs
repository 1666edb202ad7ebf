//! Per-interface network traffic counters, as a Linux kernel publishes them
//! under `/sys/class/net`.
//!
//! The library is the verified core of a polling collector. It never touches
//! the file system: the caller lists the directory, reads the counter files
//! and hands over what it found as plain values (see [`sysfs`]). From those
//! the library parses the counters ([`counter`]), keeps a current and a
//! previous value of each ([`network_data`]), and keeps the set of known
//! interfaces in step with the directory ([`networks`]). What the two
//! refreshes compute is defined on maps in [`model`], together with the
//! lemmas that hold of it.

pub mod counter;
mod interface_list;
pub mod model;
pub mod network_data;
pub mod networks;
pub mod sysfs;

pub use network_data::{Counter, NetworkData, NetworkDataView};
pub use networks::{refresh_networks_list_from_sysfs, Networks};
pub use sysfs::{CounterReadings, StatisticsFiles, SysfsEntry};
