//! The registry of known interfaces and its two refreshes.

use crate::interface_list::{
    first_named, lemma_model_len, lemma_model_represents, lemma_represents_push,
    lemma_represents_refreshed, lemma_represents_same, lemma_represents_swept,
    lemma_represents_unique, lemma_represents_update, model, names_distinct, position, represents,
    sweep, unmark_all, Interface,
};
use crate::model::{
    lemma_listed_interfaces_step, lemma_readings_for, lemma_refreshed_list_dom, listed_interfaces,
    listing_read, readings_for, refreshed_counters, refreshed_list, scan_entries, scan_entry,
};
use crate::network_data::{NetworkData, NetworkDataView};
use crate::sysfs::{StatisticsFiles, SysfsEntry};
use vstd::prelude::*;

verus! {

/// Network interfaces: the counters of each known interface, by its name.
///
/// Its view is the map from the names of the known interfaces to their
/// counters.
pub struct Networks {
    /// The known interfaces, in no particular order.
    interfaces: Vec<Interface>,
}

impl View for Networks {
    type V = Map<Seq<char>, NetworkDataView>;

    closed spec fn view(&self) -> Map<Seq<char>, NetworkDataView> {
        model(self.interfaces@)
    }
}

impl Networks {
    /// No interface is held twice.
    #[verifier::type_invariant]
    spec fn well_formed(self) -> bool {
        names_distinct(self.interfaces@)
    }

    /// A registry that knows no interface yet.
    pub fn new() -> (networks: Networks)
        ensures
            networks@ == Map::<Seq<char>, NetworkDataView>::empty(),
    {
        let networks = Networks { interfaces: Vec::new() };
        assert(networks@ =~= Map::<Seq<char>, NetworkDataView>::empty());
        networks
    }

    /// The known interfaces, each with a copy of its counters, in no
    /// particular order. Every known interface occurs exactly once.
    pub fn iter(&self) -> (pairs: Vec<(String, NetworkData)>)
        ensures
            self@.dom().finite(),
            pairs.len() == self@.len(),
            forall|i: int|
                0 <= i < pairs.len() ==> self@.contains_key((#[trigger] pairs[i]).0@)
                    && self@[pairs[i].0@] == pairs[i].1@,
            forall|name: Seq<char>| #[trigger]
                self@.contains_key(name) ==> exists|i: int|
                    0 <= i < pairs.len() && (#[trigger] pairs[i]).0@ == name,
            forall|i: int, j: int|
                0 <= i < j < pairs.len() ==> (#[trigger] pairs[i]).0@ != (#[trigger] pairs[j]).0@,
    {
        proof {
            use_type_invariant(self);
            lemma_model_represents(self.interfaces@);
            lemma_model_len(self.interfaces@);
        }
        let mut pairs: Vec<(String, NetworkData)> = Vec::new();
        let mut k: usize = 0;
        while k < self.interfaces.len()
            invariant
                k <= self.interfaces.len(),
                pairs.len() == k,
                forall|i: int|
                    0 <= i < k ==> (#[trigger] pairs[i]).0@ == self.interfaces[i].name@
                        && pairs[i].1@ == self.interfaces[i].data@,
            decreases self.interfaces.len() - k,
        {
            let name = self.interfaces[k].name.clone();
            let data = self.interfaces[k].data;
            pairs.push((name, data));
            k += 1;
        }
        proof {
            let interfaces = self.interfaces@;
            assert forall|name: Seq<char>| #[trigger] self@.contains_key(name) implies exists|
                i: int,
            |
                0 <= i < pairs.len() && (#[trigger] pairs[i]).0@ == name by {
                let i = choose|i: int|
                    0 <= i < interfaces.len() && (#[trigger] interfaces[i]).name@ == name;
                assert(pairs[i].0@ == name);
            }
            assert forall|i: int, j: int| 0 <= i < j < pairs.len() implies (#[trigger] pairs[i]).0@
                != (#[trigger] pairs[j]).0@ by {
                assert(interfaces[i].name@ != interfaces[j].name@);
            }
            assert forall|i: int| 0 <= i < pairs.len() implies self@.contains_key(
                (#[trigger] pairs[i]).0@,
            ) && self@[pairs[i].0@] == pairs[i].1@ by {
                assert(self@.contains_key(interfaces[i].name@));
            }
        }
        pairs
    }

    /// Refreshes the counters of every known interface from what reading
    /// its counter files gave.
    ///
    /// `entries` holds, for each interface whose files were read, an entry
    /// with its name and the outcome. For each known interface the counters
    /// are parsed from the first entry of its name; an interface without an
    /// entry is treated as one none of whose files could be read, so that it
    /// reads zero. Every known interface takes its new values in and keeps
    /// its former ones as the previous ones. No interface is added and none
    /// is removed: entries of unknown names are not looked at.
    pub fn refresh(&mut self, entries: &Vec<SysfsEntry>)
        ensures
            final(self)@ == refreshed_counters(old(self)@, entries@),
            final(self)@.dom() == old(self)@.dom(),
    {
        let ghost known = self@;
        proof {
            use_type_invariant(&*self);
            lemma_model_represents(self.interfaces@);
        }
        let mut interfaces: Vec<Interface> = Vec::new();
        std::mem::swap(&mut self.interfaces, &mut interfaces);
        let ghost start = interfaces@;
        let mut i: usize = 0;
        while i < interfaces.len()
            invariant
                i <= interfaces.len(),
                interfaces.len() == start.len(),
                forall|j: int|
                    0 <= j < interfaces.len() ==>
                        (#[trigger] interfaces[j]).name@ == start[j].name@,
                forall|j: int|
                    0 <= j < i ==> (#[trigger] interfaces[j]).data@ == start[j].data@.rotated(
                        readings_for(entries@, start[j].name@),
                    ),
                forall|j: int|
                    i <= j < interfaces.len() ==> (#[trigger] interfaces[j]).data@
                        == start[j].data@,
            decreases interfaces.len() - i,
        {
            match first_named(entries, &interfaces[i].name) {
                Some(k) => {
                    proof {
                        lemma_readings_for(entries@, interfaces[i as int].name@, k as int);
                    }
                    interfaces[i].data.update(&entries[k].statistics);
                },
                None => {
                    proof {
                        lemma_readings_for(
                            entries@,
                            interfaces[i as int].name@,
                            entries.len() as int,
                        );
                    }
                    interfaces[i].data.update(&StatisticsFiles::unreadable());
                },
            }
            i += 1;
        }
        proof {
            lemma_represents_refreshed(start, interfaces@, known, entries@);
            lemma_model_represents(interfaces@);
            lemma_represents_unique(
                interfaces@,
                model(interfaces@),
                refreshed_counters(known, entries@),
            );
            assert(refreshed_counters(known, entries@).dom() =~= known.dom());
        }
        self.interfaces = interfaces;
    }

    /// Refreshes the interface list, as [`refresh_networks_list_from_sysfs`]
    /// does.
    pub fn refresh_networks_list(&mut self, sysfs_net: &Option<Vec<SysfsEntry>>)
        ensures
            final(self)@ == refreshed_list(old(self)@, listing_read(*sysfs_net)),
            *sysfs_net matches Some(dir) ==> final(self)@.dom() == listed_interfaces(dir@),
    {
        refresh_networks_list_from_sysfs(self, sysfs_net);
    }
}

/// Refreshes the interface list from what reading the interface directory
/// gave.
///
/// `sysfs_net` is `None` when the directory could not be listed; the
/// registry then stays as it is. Otherwise it holds one entry for each entry
/// of the directory. An entry whose name does not decode is passed over. For
/// each of the others the six counters are parsed from what its files gave
/// (a file that could not be read counts as zero). An interface that is
/// already known takes the new values in and keeps its former ones as the
/// previous ones. A new interface is added, with its previous values equal
/// to the new ones. At the end every interface that the directory no longer
/// lists is removed, so that the registry knows exactly the listed ones.
pub fn refresh_networks_list_from_sysfs(
    interfaces: &mut Networks,
    sysfs_net: &Option<Vec<SysfsEntry>>,
)
    ensures
        final(interfaces)@ == refreshed_list(old(interfaces)@, listing_read(*sysfs_net)),
        *sysfs_net matches Some(dir) ==> final(interfaces)@.dom() == listed_interfaces(dir@),
{
    if let Some(dir) = sysfs_net {
        let ghost known = interfaces@;
        proof {
            use_type_invariant(&*interfaces);
            lemma_model_represents(interfaces.interfaces@);
        }
        let mut held: Vec<Interface> = Vec::new();
        std::mem::swap(&mut interfaces.interfaces, &mut held);

        let ghost start = held@;
        unmark_all(&mut held);
        proof {
            lemma_represents_same(start, held@, known);
            assert(dir@.take(0) =~= Seq::<SysfsEntry>::empty());
        }

        let mut k: usize = 0;
        while k < dir.len()
            invariant
                k <= dir.len(),
                names_distinct(held@),
                represents(held@, scan_entries(known, dir@.take(k as int))),
                forall|i: int|
                    0 <= i < held.len() ==> ((#[trigger] held[i]).data.is_updated()
                        <==> listed_interfaces(dir@.take(k as int)).contains(held[i].name@)),
            decreases dir.len() - k,
        {
            let entry = &dir[k];
            let ghost before = held@;
            let ghost scanned = scan_entries(known, dir@.take(k as int));
            proof {
                lemma_listed_interfaces_step(dir@, k as int);
                assert(dir@.take(k + 1).drop_last() =~= dir@.take(k as int));
                assert(scan_entries(known, dir@.take(k + 1)) == scan_entry(scanned, *entry));
            }
            if let Some(name) = &entry.name {
                match position(&held, name) {
                    Some(p) => {
                        held[p].data.update(&entry.statistics);
                        held[p].data.set_updated(true);
                        proof {
                            assert(scanned.contains_key(before[p as int].name@));
                            lemma_represents_update(before, held@, scanned, p as int);
                        }
                    },
                    None => {
                        let added = Interface {
                            name: name.clone(),
                            data: NetworkData::new(&entry.statistics),
                        };
                        proof {
                            lemma_represents_push(before, scanned, added);
                        }
                        held.push(added);
                    },
                }
            }
            k += 1;
        }

        let ghost marked = held@;
        sweep(&mut held);
        proof {
            assert(dir@.take(k as int) =~= dir@);
            let scanned = scan_entries(known, dir@);
            lemma_represents_swept(marked, held@, scanned, listed_interfaces(dir@));
            lemma_model_represents(held@);
            lemma_represents_unique(
                held@,
                model(held@),
                scanned.restrict(listed_interfaces(dir@)),
            );
            lemma_refreshed_list_dom(known, dir@);
        }
        interfaces.interfaces = held;
    }
}

} // verus!
