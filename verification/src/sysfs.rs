//! What the caller found under `/sys/class/net`, as plain values.
//!
//! The directory holds one subdirectory per interface, named after it. Each
//! of them holds a directory `statistics` with one small text file per
//! counter. The caller reads them and reports here what each read gave.

use crate::counter::{bytes_read, counter_of, read};
use vstd::prelude::*;

verus! {

/// The directory in which the kernel lists the network interfaces.
pub const SYSFS_NET: &'static str = "/sys/class/net/";

/// The directory below an interface's entry that holds its counter files.
pub const STATISTICS: &'static str = "statistics";

/// The file that counts the bytes received.
pub const RX_BYTES: &'static str = "rx_bytes";

/// The file that counts the bytes transmitted.
pub const TX_BYTES: &'static str = "tx_bytes";

/// The file that counts the packets received.
pub const RX_PACKETS: &'static str = "rx_packets";

/// The file that counts the packets transmitted.
pub const TX_PACKETS: &'static str = "tx_packets";

/// The file that counts the packets received with an error.
pub const RX_ERRORS: &'static str = "rx_errors";

/// The file that counts the packets whose transmission failed.
pub const TX_ERRORS: &'static str = "tx_errors";

/// The six counters of one interface, as read at one time.
#[derive(Clone, Copy, Debug)]
pub struct CounterReadings {
    /// Bytes received.
    pub rx_bytes: u64,
    /// Bytes transmitted.
    pub tx_bytes: u64,
    /// Packets received.
    pub rx_packets: u64,
    /// Packets transmitted.
    pub tx_packets: u64,
    /// Packets received with an error.
    pub rx_errors: u64,
    /// Packets whose transmission failed.
    pub tx_errors: u64,
}

impl CounterReadings {
    /// The readings when no file can be read: all zero.
    pub open spec fn zero() -> CounterReadings {
        CounterReadings {
            rx_bytes: 0,
            tx_bytes: 0,
            rx_packets: 0,
            tx_packets: 0,
            rx_errors: 0,
            tx_errors: 0,
        }
    }
}

/// What reading the six counter files of one interface gave. A field is
/// `None` when its file could not be opened or read, else the bytes read.
#[derive(Clone, Debug)]
pub struct StatisticsFiles {
    /// Outcome of reading [`RX_BYTES`].
    pub rx_bytes: Option<Vec<u8>>,
    /// Outcome of reading [`TX_BYTES`].
    pub tx_bytes: Option<Vec<u8>>,
    /// Outcome of reading [`RX_PACKETS`].
    pub rx_packets: Option<Vec<u8>>,
    /// Outcome of reading [`TX_PACKETS`].
    pub tx_packets: Option<Vec<u8>>,
    /// Outcome of reading [`RX_ERRORS`].
    pub rx_errors: Option<Vec<u8>>,
    /// Outcome of reading [`TX_ERRORS`].
    pub tx_errors: Option<Vec<u8>>,
}

impl StatisticsFiles {
    /// The six counters that these files hold.
    pub open spec fn readings(self) -> CounterReadings {
        CounterReadings {
            rx_bytes: counter_of(bytes_read(self.rx_bytes)),
            tx_bytes: counter_of(bytes_read(self.tx_bytes)),
            rx_packets: counter_of(bytes_read(self.rx_packets)),
            tx_packets: counter_of(bytes_read(self.tx_packets)),
            rx_errors: counter_of(bytes_read(self.rx_errors)),
            tx_errors: counter_of(bytes_read(self.tx_errors)),
        }
    }

    /// The outcome for an interface none of whose files could be read.
    pub fn unreadable() -> (files: StatisticsFiles)
        ensures
            files.readings() == CounterReadings::zero(),
            files.rx_bytes is None,
            files.tx_bytes is None,
            files.rx_packets is None,
            files.tx_packets is None,
            files.rx_errors is None,
            files.tx_errors is None,
    {
        StatisticsFiles {
            rx_bytes: None,
            tx_bytes: None,
            rx_packets: None,
            tx_packets: None,
            rx_errors: None,
            tx_errors: None,
        }
    }

    /// Parses the six files.
    pub fn parse(&self) -> (readings: CounterReadings)
        ensures
            readings == self.readings(),
    {
        CounterReadings {
            rx_bytes: read(&self.rx_bytes),
            tx_bytes: read(&self.tx_bytes),
            rx_packets: read(&self.rx_packets),
            tx_packets: read(&self.tx_packets),
            rx_errors: read(&self.rx_errors),
            tx_errors: read(&self.tx_errors),
        }
    }
}

/// One entry of the listed directory.
#[derive(Clone, Debug)]
pub struct SysfsEntry {
    /// The entry's file name, or `None` when it does not decode as text.
    pub name: Option<String>,
    /// What reading the counter files below the entry gave.
    pub statistics: StatisticsFiles,
}

impl SysfsEntry {
    /// The interface that the entry names, if its name decodes.
    pub open spec fn interface_name(self) -> Option<Seq<char>> {
        match self.name {
            None => None,
            Some(name) => Some(name@),
        }
    }
}

} // verus!
