//! The two refreshes as functions on maps, and what follows from them.
//!
//! The registry is modelled as a map from an interface's name to its
//! counters. A refresh of the interface list and a refresh of the counters
//! are each a function from the map before to the map after; the executable
//! code is proved to compute them. The lemmas below are stated of these
//! functions alone.

use crate::network_data::NetworkDataView;
use crate::sysfs::{CounterReadings, SysfsEntry};
use vstd::prelude::*;

verus! {

/// What reading the interface directory gave, if it could be listed.
pub open spec fn listing_read(sysfs_net: Option<Vec<SysfsEntry>>) -> Option<Seq<SysfsEntry>> {
    match sysfs_net {
        None => None,
        Some(entries) => Some(entries@),
    }
}

/// The interfaces that a listing names: the names of its entries, as far as
/// they decode.
pub open spec fn listed_interfaces(entries: Seq<SysfsEntry>) -> Set<Seq<char>> {
    Set::new(
        |name: Seq<char>|
            exists|i: int|
                0 <= i < entries.len() && (#[trigger] entries[i]).interface_name() == Some(name),
    )
}

/// The known interfaces after one entry of a listing was taken in. An entry
/// whose name does not decode changes nothing. A known interface gets the
/// entry's readings as its current values, and its current values become the
/// previous ones. A new interface starts with both equal to the readings.
pub open spec fn scan_entry(
    known: Map<Seq<char>, NetworkDataView>,
    entry: SysfsEntry,
) -> Map<Seq<char>, NetworkDataView> {
    match entry.interface_name() {
        None => known,
        Some(name) => {
            let readings = entry.statistics.readings();
            if known.contains_key(name) {
                known.insert(name, known[name].rotated(readings))
            } else {
                known.insert(name, NetworkDataView::fresh(readings))
            }
        },
    }
}

/// The known interfaces after the entries of a listing were taken in, one
/// after the other.
pub open spec fn scan_entries(
    known: Map<Seq<char>, NetworkDataView>,
    entries: Seq<SysfsEntry>,
) -> Map<Seq<char>, NetworkDataView>
    decreases entries.len(),
{
    if entries.len() == 0 {
        known
    } else {
        scan_entry(scan_entries(known, entries.drop_last()), entries.last())
    }
}

/// The registry after a refresh of the interface list. Without a listing
/// nothing changes. With one, every entry is taken in, and then the
/// interfaces that the listing does not name are dropped.
pub open spec fn refreshed_list(
    known: Map<Seq<char>, NetworkDataView>,
    listing: Option<Seq<SysfsEntry>>,
) -> Map<Seq<char>, NetworkDataView> {
    match listing {
        None => known,
        Some(entries) => scan_entries(known, entries).restrict(listed_interfaces(entries)),
    }
}

/// The readings that `entries` hold for the interface `name`: those of the
/// first entry of that name, and all zero when there is none, as when none
/// of its files can be read.
pub open spec fn readings_for(entries: Seq<SysfsEntry>, name: Seq<char>) -> CounterReadings
    decreases entries.len(),
{
    if entries.len() == 0 {
        CounterReadings::zero()
    } else if entries[0].interface_name() == Some(name) {
        entries[0].statistics.readings()
    } else {
        readings_for(entries.drop_first(), name)
    }
}

/// The registry after a refresh of the counters: the same interfaces, each
/// with the readings that `entries` hold for it taken in.
pub open spec fn refreshed_counters(
    known: Map<Seq<char>, NetworkDataView>,
    entries: Seq<SysfsEntry>,
) -> Map<Seq<char>, NetworkDataView> {
    Map::new(
        |name: Seq<char>| known.contains_key(name),
        |name: Seq<char>| known[name].rotated(readings_for(entries, name)),
    )
}

/// Whether the interface `name` is named by the entry at `i` and by no other
/// entry, as in a directory, where no two entries share a name.
pub open spec fn listed_once_at(entries: Seq<SysfsEntry>, name: Seq<char>, i: int) -> bool {
    &&& 0 <= i < entries.len()
    &&& entries[i].interface_name() == Some(name)
    &&& forall|j: int|
        0 <= j < entries.len() && j != i ==> (#[trigger] entries[j]).interface_name() != Some(name)
}

/// Whether no two entries name the same interface.
pub open spec fn names_once(entries: Seq<SysfsEntry>) -> bool {
    forall|i: int, j: int|
        0 <= i < j < entries.len() && (#[trigger] entries[i]).interface_name() is Some
            ==> entries[i].interface_name() != (#[trigger] entries[j]).interface_name()
}

/// One more entry adds its interface, if it names one, to those listed.
pub proof fn lemma_listed_interfaces_step(entries: Seq<SysfsEntry>, k: int)
    requires
        0 <= k < entries.len(),
    ensures
        listed_interfaces(entries.take(k + 1)) == match entries[k].interface_name() {
            None => listed_interfaces(entries.take(k)),
            Some(name) => listed_interfaces(entries.take(k)).insert(name),
        },
{
    let before = entries.take(k);
    let after = entries.take(k + 1);
    let expected = match entries[k].interface_name() {
        None => listed_interfaces(before),
        Some(name) => listed_interfaces(before).insert(name),
    };
    assert forall|name: Seq<char>| listed_interfaces(after).contains(name)
        implies expected.contains(
        name,
    ) by {
        let i = choose|i: int|
            0 <= i < after.len() && (#[trigger] after[i]).interface_name() == Some(name);
        if i < k {
            assert(before[i].interface_name() == Some(name));
        }
    }
    assert forall|name: Seq<char>| expected.contains(name)
        implies listed_interfaces(after).contains(
        name,
    ) by {
        if listed_interfaces(before).contains(name) {
            let i = choose|i: int|
                0 <= i < before.len() && (#[trigger] before[i]).interface_name() == Some(name);
            assert(after[i].interface_name() == Some(name));
        } else {
            assert(after[k].interface_name() == Some(name));
        }
    }
    assert(listed_interfaces(after) =~= expected);
}

/// The readings for `name` are those of the entry at `k` when no entry
/// before it has that name and it has, and zero when no entry has it.
pub proof fn lemma_readings_for(entries: Seq<SysfsEntry>, name: Seq<char>, k: int)
    requires
        0 <= k <= entries.len(),
        forall|j: int| 0 <= j < k ==> (#[trigger] entries[j]).interface_name() != Some(name),
        k < entries.len() ==> entries[k].interface_name() == Some(name),
    ensures
        readings_for(entries, name) == if k < entries.len() {
            entries[k].statistics.readings()
        } else {
            CounterReadings::zero()
        },
    decreases entries.len(),
{
    if k > 0 {
        let rest = entries.drop_first();
        assert(entries[0].interface_name() != Some(name));
        assert forall|j: int| 0 <= j < k - 1 implies (#[trigger] rest[j]).interface_name() != Some(
            name,
        ) by {
            assert(rest[j] == entries[j + 1]);
        }
        lemma_readings_for(rest, name, k - 1);
    }
}

/// A listing names what its entries but the last name, and what the last
/// entry names.
proof fn lemma_listed_in_front(entries: Seq<SysfsEntry>, name: Seq<char>)
    requires
        entries.len() > 0,
    ensures
        listed_interfaces(entries).contains(name) <==> listed_interfaces(
            entries.drop_last(),
        ).contains(name) || entries.last().interface_name() == Some(name),
{
    let front = entries.drop_last();
    if listed_interfaces(entries).contains(name) {
        let i = choose|i: int|
            0 <= i < entries.len() && (#[trigger] entries[i]).interface_name() == Some(name);
        if i < front.len() {
            assert(front[i].interface_name() == Some(name));
        }
    }
    if listed_interfaces(front).contains(name) {
        let i = choose|i: int|
            0 <= i < front.len() && (#[trigger] front[i]).interface_name() == Some(name);
        assert(entries[i].interface_name() == Some(name));
    }
    if entries.last().interface_name() == Some(name) {
        assert(entries[entries.len() - 1].interface_name() == Some(name));
    }
}

/// Taking a listing in forgets no interface, and adds exactly those that
/// the listing names.
pub proof fn lemma_scan_entries_dom(
    known: Map<Seq<char>, NetworkDataView>,
    entries: Seq<SysfsEntry>,
)
    ensures
        scan_entries(known, entries).dom() == known.dom().union(listed_interfaces(entries)),
    decreases entries.len(),
{
    let scanned = scan_entries(known, entries);
    let expected = known.dom().union(listed_interfaces(entries));
    if entries.len() == 0 {
        assert(scanned.dom() =~= expected);
    } else {
        let front = entries.drop_last();
        lemma_scan_entries_dom(known, front);
        assert forall|name: Seq<char>|
            scanned.dom().contains(name) <==> expected.contains(name) by {
            lemma_listed_in_front(entries, name);
        }
        assert(scanned.dom() =~= expected);
    }
}

/// After a refresh of the interface list from a directory that could be
/// listed, the registry knows exactly the interfaces that the listing names:
/// new ones are in, and vanished ones are out.
pub proof fn lemma_refreshed_list_dom(
    known: Map<Seq<char>, NetworkDataView>,
    entries: Seq<SysfsEntry>,
)
    ensures
        refreshed_list(known, Some(entries)).dom() == listed_interfaces(entries),
{
    lemma_scan_entries_dom(known, entries);
    assert(refreshed_list(known, Some(entries)).dom() =~= listed_interfaces(entries));
}

/// Taking a listing in leaves an interface that it does not name as it was.
pub proof fn lemma_scan_entries_elsewhere(
    known: Map<Seq<char>, NetworkDataView>,
    entries: Seq<SysfsEntry>,
    name: Seq<char>,
)
    requires
        !listed_interfaces(entries).contains(name),
    ensures
        scan_entries(known, entries).contains_key(name) == known.contains_key(name),
        scan_entries(known, entries)[name] == known[name],
    decreases entries.len(),
{
    if entries.len() > 0 {
        lemma_listed_in_front(entries, name);
        lemma_scan_entries_elsewhere(known, entries.drop_last(), name);
    }
}

/// What a listing does to an interface that it names once: a known one
/// takes the entry's readings in, a new one starts from them.
pub proof fn lemma_scan_entries_listed_once(
    known: Map<Seq<char>, NetworkDataView>,
    entries: Seq<SysfsEntry>,
    name: Seq<char>,
    i: int,
)
    requires
        listed_once_at(entries, name, i),
    ensures
        scan_entries(known, entries).contains_key(name),
        scan_entries(known, entries)[name] == if known.contains_key(name) {
            known[name].rotated(entries[i].statistics.readings())
        } else {
            NetworkDataView::fresh(entries[i].statistics.readings())
        },
    decreases entries.len(),
{
    let front = entries.drop_last();
    if i == entries.len() - 1 {
        assert(!listed_interfaces(front).contains(name)) by {
            if listed_interfaces(front).contains(name) {
                let j = choose|j: int|
                    0 <= j < front.len() && (#[trigger] front[j]).interface_name() == Some(name);
                assert(entries[j].interface_name() == Some(name));
            }
        }
        lemma_scan_entries_elsewhere(known, front, name);
    } else {
        assert(entries[entries.len() - 1].interface_name() != Some(name));
        assert(listed_once_at(front, name, i)) by {
            assert(front[i] == entries[i]);
            assert forall|j: int| 0 <= j < front.len() && j != i implies
                (#[trigger] front[j]).interface_name() != Some(name) by {
                assert(front[j] == entries[j]);
            }
        }
        lemma_scan_entries_listed_once(known, front, name, i);
    }
}

/// The values that a listed interface has as current after the listing was
/// taken in are those of the listing: they do not depend on what was known
/// before.
pub proof fn lemma_scan_entries_totals(
    known: Map<Seq<char>, NetworkDataView>,
    other: Map<Seq<char>, NetworkDataView>,
    entries: Seq<SysfsEntry>,
    name: Seq<char>,
)
    requires
        listed_interfaces(entries).contains(name),
    ensures
        scan_entries(known, entries).contains_key(name),
        scan_entries(other, entries).contains_key(name),
        scan_entries(known, entries)[name].totals() == scan_entries(other, entries)[name].totals(),
    decreases entries.len(),
{
    if entries.len() > 0 {
        lemma_listed_in_front(entries, name);
        if entries.last().interface_name() != Some(name) {
            lemma_scan_entries_totals(known, other, entries.drop_last(), name);
        }
    }
}

/// What a refresh of the interface list does to an interface that the
/// listing names once: it is known afterwards; if it was known before, it
/// has taken the entry's readings in, and if not, it starts from them.
pub proof fn lemma_refreshed_list_listed_once(
    known: Map<Seq<char>, NetworkDataView>,
    entries: Seq<SysfsEntry>,
    name: Seq<char>,
    i: int,
)
    requires
        listed_once_at(entries, name, i),
    ensures
        refreshed_list(known, Some(entries)).contains_key(name),
        refreshed_list(known, Some(entries))[name] == if known.contains_key(name) {
            known[name].rotated(entries[i].statistics.readings())
        } else {
            NetworkDataView::fresh(entries[i].statistics.readings())
        },
{
    lemma_scan_entries_listed_once(known, entries, name, i);
    assert(listed_interfaces(entries).contains(name));
}

/// An interface that a refresh of the interface list discovers has nothing
/// accumulated: each of its six counters has its previous value equal to the
/// current one, whatever the files hold.
pub proof fn lemma_discovered_interface_is_idle(
    known: Map<Seq<char>, NetworkDataView>,
    entries: Seq<SysfsEntry>,
    name: Seq<char>,
    i: int,
)
    requires
        !known.contains_key(name),
        listed_once_at(entries, name, i),
    ensures
        refreshed_list(known, Some(entries)).contains_key(name),
        refreshed_list(known, Some(entries))[name] == NetworkDataView::fresh(
            entries[i].statistics.readings(),
        ),
        refreshed_list(known, Some(entries))[name].idle(),
{
    lemma_refreshed_list_listed_once(known, entries, name, i);
}

/// Refreshing the interface list a second time from the same listing keeps
/// the set of known interfaces and the current value of every counter.
/// Where the directory could be listed and no two entries share a name, the
/// second refresh also leaves every counter with its previous value equal to
/// the current one.
pub proof fn lemma_refreshed_list_twice(
    known: Map<Seq<char>, NetworkDataView>,
    listing: Option<Seq<SysfsEntry>>,
)
    ensures
        ({
            let once = refreshed_list(known, listing);
            let twice = refreshed_list(once, listing);
            &&& twice.dom() == once.dom()
            &&& forall|name: Seq<char>| #[trigger]
                once.contains_key(name) ==> twice[name].totals() == once[name].totals()
            &&& listing matches Some(entries) ==> (names_once(entries) ==> forall|name: Seq<char>|
                #[trigger] once.contains_key(name) ==> twice[name] == once[name].rotated(
                    once[name].totals(),
                ) && twice[name].idle())
        }),
{
    if let Some(entries) = listing {
        let once = refreshed_list(known, listing);
        let twice = refreshed_list(once, listing);
        lemma_refreshed_list_dom(known, entries);
        lemma_refreshed_list_dom(once, entries);
        assert forall|name: Seq<char>| #[trigger] once.contains_key(name)
            implies twice[name].totals()
            == once[name].totals() by {
            lemma_scan_entries_totals(known, once, entries, name);
        }
        if names_once(entries) {
            assert forall|name: Seq<char>| #[trigger] once.contains_key(name) implies twice[name]
                == once[name].rotated(once[name].totals()) && twice[name].idle() by {
                let i = choose|i: int|
                    0 <= i < entries.len() && (#[trigger] entries[i]).interface_name() == Some(
                        name,
                    );
                assert(listed_once_at(entries, name, i)) by {
                    assert forall|j: int| 0 <= j < entries.len() && j != i implies
                        (#[trigger] entries[j]).interface_name() != Some(name) by {
                        if j < i {
                            assert(entries[j].interface_name() is Some
                                ==> entries[j].interface_name() != entries[i].interface_name());
                        } else {
                            assert(entries[i].interface_name() != entries[j].interface_name());
                        }
                    }
                }
                lemma_refreshed_list_listed_once(known, entries, name, i);
                lemma_refreshed_list_listed_once(once, entries, name, i);
            }
        }
    }
}

/// A refresh of the counters adds no interface and removes none, and gives
/// each known interface the readings held for it.
pub proof fn lemma_refreshed_counters(
    known: Map<Seq<char>, NetworkDataView>,
    entries: Seq<SysfsEntry>,
)
    ensures
        refreshed_counters(known, entries).dom() == known.dom(),
        forall|name: Seq<char>| #[trigger]
            known.contains_key(name) ==> refreshed_counters(known, entries)[name].totals()
                == readings_for(entries, name),
{
    assert(refreshed_counters(known, entries).dom() =~= known.dom());
}

} // verus!
