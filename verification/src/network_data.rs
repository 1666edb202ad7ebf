//! The counters of one interface, each with its value before the last
//! refresh.

use crate::sysfs::{CounterReadings, StatisticsFiles};
use vstd::prelude::*;

verus! {

/// A cumulative counter as last read, with the value it had before that.
#[derive(Clone, Copy, Debug)]
pub struct Counter {
    /// The value last read.
    pub current: u64,
    /// The value that `current` replaced.
    pub previous: u64,
}

impl Counter {
    /// A counter seen for the first time: nothing has accumulated yet.
    pub open spec fn fresh(value: u64) -> Counter {
        Counter { current: value, previous: value }
    }

    /// The counter after `value` was read: what was current is now previous.
    pub open spec fn rotated(self, value: u64) -> Counter {
        Counter { current: value, previous: self.current }
    }

    /// What accumulated between the last two reads. A counter that went
    /// down, as after a device reset, gives zero.
    pub open spec fn spec_delta(&self) -> u64 {
        if self.current >= self.previous {
            (self.current - self.previous) as u64
        } else {
            0
        }
    }

    /// Starts a counter at `value`.
    pub fn new(value: u64) -> (counter: Counter)
        ensures
            counter == Counter::fresh(value),
    {
        Counter { current: value, previous: value }
    }

    /// Stores a newly read value and keeps the one it replaces.
    pub fn rotate(&mut self, value: u64)
        ensures
            *final(self) == old(self).rotated(value),
    {
        self.previous = self.current;
        self.current = value;
    }

    /// The value last read.
    pub fn total(&self) -> (total: u64)
        ensures
            total == self.current,
    {
        self.current
    }

    /// What accumulated between the last two reads: the current value less
    /// the previous one, and zero where that would be negative.
    #[verifier::when_used_as_spec(spec_delta)]
    pub fn delta(&self) -> (delta: u64)
        ensures
            delta == self.spec_delta(),
    {
        self.current.saturating_sub(self.previous)
    }
}

/// What a [`NetworkData`] holds: its six counters.
pub struct NetworkDataView {
    /// Bytes received.
    pub rx_bytes: Counter,
    /// Bytes transmitted.
    pub tx_bytes: Counter,
    /// Packets received.
    pub rx_packets: Counter,
    /// Packets transmitted.
    pub tx_packets: Counter,
    /// Packets received with an error.
    pub rx_errors: Counter,
    /// Packets whose transmission failed.
    pub tx_errors: Counter,
}

impl NetworkDataView {
    /// The counters of an interface seen for the first time.
    pub open spec fn fresh(readings: CounterReadings) -> NetworkDataView {
        NetworkDataView {
            rx_bytes: Counter::fresh(readings.rx_bytes),
            tx_bytes: Counter::fresh(readings.tx_bytes),
            rx_packets: Counter::fresh(readings.rx_packets),
            tx_packets: Counter::fresh(readings.tx_packets),
            rx_errors: Counter::fresh(readings.rx_errors),
            tx_errors: Counter::fresh(readings.tx_errors),
        }
    }

    /// The counters after `readings` were taken.
    pub open spec fn rotated(self, readings: CounterReadings) -> NetworkDataView {
        NetworkDataView {
            rx_bytes: self.rx_bytes.rotated(readings.rx_bytes),
            tx_bytes: self.tx_bytes.rotated(readings.tx_bytes),
            rx_packets: self.rx_packets.rotated(readings.rx_packets),
            tx_packets: self.tx_packets.rotated(readings.tx_packets),
            rx_errors: self.rx_errors.rotated(readings.rx_errors),
            tx_errors: self.tx_errors.rotated(readings.tx_errors),
        }
    }

    /// The six values last read.
    pub open spec fn totals(self) -> CounterReadings {
        CounterReadings {
            rx_bytes: self.rx_bytes.current,
            tx_bytes: self.tx_bytes.current,
            rx_packets: self.rx_packets.current,
            tx_packets: self.tx_packets.current,
            rx_errors: self.rx_errors.current,
            tx_errors: self.tx_errors.current,
        }
    }

    /// Whether nothing accumulated between the last two reads.
    pub open spec fn idle(self) -> bool {
        &&& self.rx_bytes.delta() == 0
        &&& self.tx_bytes.delta() == 0
        &&& self.rx_packets.delta() == 0
        &&& self.tx_packets.delta() == 0
        &&& self.rx_errors.delta() == 0
        &&& self.tx_errors.delta() == 0
    }
}

/// Contains network information: the traffic counters of one interface.
#[derive(Clone, Copy, Debug)]
pub struct NetworkData {
    rx_bytes: Counter,
    tx_bytes: Counter,
    rx_packets: Counter,
    tx_packets: Counter,
    rx_errors: Counter,
    tx_errors: Counter,
    /// Whether the interface was seen in the scan of the interface list that
    /// is under way. It has no meaning between scans.
    updated: bool,
}

impl View for NetworkData {
    type V = NetworkDataView;

    closed spec fn view(&self) -> NetworkDataView {
        NetworkDataView {
            rx_bytes: self.rx_bytes,
            tx_bytes: self.tx_bytes,
            rx_packets: self.rx_packets,
            tx_packets: self.tx_packets,
            rx_errors: self.rx_errors,
            tx_errors: self.tx_errors,
        }
    }
}

impl NetworkData {
    /// Whether the record is marked as seen in the scan of the interface list
    /// that is under way. Only the registry reads and sets the mark; it is no
    /// part of what the record holds.
    pub closed spec fn is_updated(&self) -> bool {
        self.updated
    }

    /// Reads the mark.
    pub(crate) fn updated(&self) -> (updated: bool)
        ensures
            updated == self.is_updated(),
    {
        self.updated
    }

    /// Sets the mark and leaves the counters alone.
    pub(crate) fn set_updated(&mut self, updated: bool)
        ensures
            final(self)@ == old(self)@,
            final(self).is_updated() == updated,
    {
        self.updated = updated;
    }

    /// The record of an interface seen for the first time. Each counter
    /// starts with its previous value equal to the one just read, so that
    /// nothing counts as accumulated.
    pub fn new(statistics: &StatisticsFiles) -> (data: NetworkData)
        ensures
            data@ == NetworkDataView::fresh(statistics.readings()),
            data@.idle(),
            data.is_updated(),
    {
        let readings = statistics.parse();
        NetworkData {
            rx_bytes: Counter::new(readings.rx_bytes),
            tx_bytes: Counter::new(readings.tx_bytes),
            rx_packets: Counter::new(readings.rx_packets),
            tx_packets: Counter::new(readings.tx_packets),
            rx_errors: Counter::new(readings.rx_errors),
            tx_errors: Counter::new(readings.tx_errors),
            updated: true,
        }
    }

    /// Takes in a new reading of the six counter files: each counter's
    /// current value becomes its previous one, and the value read becomes
    /// current.
    pub fn update(&mut self, statistics: &StatisticsFiles)
        ensures
            final(self)@ == old(self)@.rotated(statistics.readings()),
            final(self).is_updated() == old(self).is_updated(),
    {
        let readings = statistics.parse();
        self.rx_bytes.rotate(readings.rx_bytes);
        self.tx_bytes.rotate(readings.tx_bytes);
        self.rx_packets.rotate(readings.rx_packets);
        self.tx_packets.rotate(readings.tx_packets);
        self.rx_errors.rotate(readings.rx_errors);
        self.tx_errors.rotate(readings.tx_errors);
    }

    /// Bytes received since the previous refresh.
    pub fn get_received(&self) -> (n: u64)
        ensures
            n == self@.rx_bytes.delta(),
    {
        self.rx_bytes.delta()
    }

    /// Bytes received in total.
    pub fn get_total_received(&self) -> (n: u64)
        ensures
            n == self@.rx_bytes.current,
    {
        self.rx_bytes.total()
    }

    /// Bytes transmitted since the previous refresh.
    pub fn get_transmitted(&self) -> (n: u64)
        ensures
            n == self@.tx_bytes.delta(),
    {
        self.tx_bytes.delta()
    }

    /// Bytes transmitted in total.
    pub fn get_total_transmitted(&self) -> (n: u64)
        ensures
            n == self@.tx_bytes.current,
    {
        self.tx_bytes.total()
    }

    /// Packets received since the previous refresh.
    pub fn get_packets_received(&self) -> (n: u64)
        ensures
            n == self@.rx_packets.delta(),
    {
        self.rx_packets.delta()
    }

    /// Packets received in total.
    pub fn get_total_packets_received(&self) -> (n: u64)
        ensures
            n == self@.rx_packets.current,
    {
        self.rx_packets.total()
    }

    /// Packets transmitted since the previous refresh.
    pub fn get_packets_transmitted(&self) -> (n: u64)
        ensures
            n == self@.tx_packets.delta(),
    {
        self.tx_packets.delta()
    }

    /// Packets transmitted in total.
    pub fn get_total_packets_transmitted(&self) -> (n: u64)
        ensures
            n == self@.tx_packets.current,
    {
        self.tx_packets.total()
    }

    /// Receive errors since the previous refresh.
    pub fn get_errors_on_received(&self) -> (n: u64)
        ensures
            n == self@.rx_errors.delta(),
    {
        self.rx_errors.delta()
    }

    /// Receive errors in total.
    pub fn get_total_errors_on_received(&self) -> (n: u64)
        ensures
            n == self@.rx_errors.current,
    {
        self.rx_errors.total()
    }

    /// Transmit errors since the previous refresh.
    pub fn get_errors_on_transmitted(&self) -> (n: u64)
        ensures
            n == self@.tx_errors.delta(),
    {
        self.tx_errors.delta()
    }

    /// Transmit errors in total.
    pub fn get_total_errors_on_transmitted(&self) -> (n: u64)
        ensures
            n == self@.tx_errors.current,
    {
        self.tx_errors.total()
    }
}

} // verus!
