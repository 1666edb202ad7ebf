//! How the registry is held: a list of interfaces in which no name occurs
//! twice, and the map that such a list stands for.

use crate::model::{listed_interfaces, readings_for, refreshed_counters};
use crate::network_data::{NetworkData, NetworkDataView};
use crate::sysfs::SysfsEntry;
use vstd::prelude::*;

verus! {

/// One known interface.
pub(crate) struct Interface {
    pub(crate) name: String,
    pub(crate) data: NetworkData,
}

/// No two interfaces have the same name.
pub(crate) open spec fn names_distinct(interfaces: Seq<Interface>) -> bool {
    forall|i: int, j: int|
        0 <= i < j < interfaces.len() ==> (#[trigger] interfaces[i]).name@
            != (#[trigger] interfaces[j]).name@
}

/// Some interface has the name `name`.
pub(crate) open spec fn has_name(interfaces: Seq<Interface>, name: Seq<char>) -> bool {
    exists|i: int| 0 <= i < interfaces.len() && (#[trigger] interfaces[i]).name@ == name
}

/// `known` maps exactly the names in `interfaces`, each to the counters that
/// stand beside it.
pub(crate) open spec fn represents(
    interfaces: Seq<Interface>,
    known: Map<Seq<char>, NetworkDataView>,
) -> bool {
    &&& forall|i: int|
        0 <= i < interfaces.len() ==> known.contains_key((#[trigger] interfaces[i]).name@)
            && known[interfaces[i].name@] == interfaces[i].data@
    &&& forall|name: Seq<char>| #[trigger] known.contains_key(name) ==> has_name(interfaces, name)
}

/// The map that `interfaces` stands for.
pub(crate) open spec fn model(interfaces: Seq<Interface>) -> Map<Seq<char>, NetworkDataView> {
    Map::new(
        |name: Seq<char>| has_name(interfaces, name),
        |name: Seq<char>|
            interfaces[choose|i: int|
                0 <= i < interfaces.len() && (#[trigger] interfaces[i]).name@ == name].data@,
    )
}

/// A list without repeated names is represented by its map.
pub(crate) proof fn lemma_model_represents(interfaces: Seq<Interface>)
    requires
        names_distinct(interfaces),
    ensures
        represents(interfaces, model(interfaces)),
{
    assert forall|i: int| 0 <= i < interfaces.len() implies model(interfaces).contains_key(
        (#[trigger] interfaces[i]).name@,
    ) && model(interfaces)[interfaces[i].name@] == interfaces[i].data@ by {
        let name = interfaces[i].name@;
        let k = choose|k: int|
            0 <= k < interfaces.len() && (#[trigger] interfaces[k]).name@ == name;
        assert(k == i);
    }
}

/// A list is represented by one map only.
pub(crate) proof fn lemma_represents_unique(
    interfaces: Seq<Interface>,
    a: Map<Seq<char>, NetworkDataView>,
    b: Map<Seq<char>, NetworkDataView>,
)
    requires
        represents(interfaces, a),
        represents(interfaces, b),
    ensures
        a == b,
{
    assert forall|name: Seq<char>| a.contains_key(name) implies b.contains_key(name) && a[name]
        == b[name] by {
        let i = choose|i: int|
            0 <= i < interfaces.len() && (#[trigger] interfaces[i]).name@ == name;
        assert(b.contains_key(interfaces[i].name@));
    }
    assert forall|name: Seq<char>| b.contains_key(name) implies a.contains_key(name) by {
        let i = choose|i: int|
            0 <= i < interfaces.len() && (#[trigger] interfaces[i]).name@ == name;
        assert(a.contains_key(interfaces[i].name@));
    }
    assert(a =~= b);
}

/// A list without repeated names is as long as its map has keys.
pub(crate) proof fn lemma_model_len(interfaces: Seq<Interface>)
    requires
        names_distinct(interfaces),
    ensures
        model(interfaces).dom().finite(),
        model(interfaces).dom().len() == interfaces.len(),
    decreases interfaces.len(),
{
    if interfaces.len() == 0 {
        assert(model(interfaces).dom() =~= Set::<Seq<char>>::empty());
    } else {
        let front = interfaces.drop_last();
        let name = interfaces.last().name@;
        assert(names_distinct(front)) by {
            assert forall|i: int, j: int| 0 <= i < j < front.len() implies
                (#[trigger] front[i]).name@ != (#[trigger] front[j]).name@ by {
                assert(front[i] == interfaces[i]);
                assert(front[j] == interfaces[j]);
            }
        }
        lemma_model_len(front);
        assert(!model(front).dom().contains(name)) by {
            if has_name(front, name) {
                let i = choose|i: int| 0 <= i < front.len() && (#[trigger] front[i]).name@ == name;
                assert(front[i] == interfaces[i]);
                assert(interfaces[i].name@ != interfaces[interfaces.len() - 1].name@);
            }
        }
        assert(model(interfaces).dom() =~= model(front).dom().insert(name)) by {
            assert forall|n: Seq<char>| has_name(interfaces, n) implies n == name || has_name(
                front,
                n,
            ) by {
                let i = choose|i: int|
                    0 <= i < interfaces.len() && (#[trigger] interfaces[i]).name@ == n;
                if i < front.len() {
                    assert(front[i].name@ == n);
                }
            }
            assert forall|n: Seq<char>| n == name || has_name(front, n) implies has_name(
                interfaces,
                n,
            ) by {
                if n == name {
                    assert(interfaces[interfaces.len() - 1].name@ == n);
                } else {
                    let i = choose|i: int| 0 <= i < front.len() && (#[trigger] front[i]).name@ == n;
                    assert(interfaces[i].name@ == n);
                }
            }
        }
    }
}

/// Lists that agree in names and counters are represented by the same map.
pub(crate) proof fn lemma_represents_same(
    before: Seq<Interface>,
    after: Seq<Interface>,
    known: Map<Seq<char>, NetworkDataView>,
)
    requires
        names_distinct(before),
        represents(before, known),
        after.len() == before.len(),
        forall|i: int|
            0 <= i < before.len() ==> (#[trigger] after[i]).name@ == before[i].name@
                && after[i].data@ == before[i].data@,
    ensures
        names_distinct(after),
        represents(after, known),
{
    assert forall|i: int, j: int| 0 <= i < j < after.len() implies (#[trigger] after[i]).name@
        != (#[trigger] after[j]).name@ by {
        assert(before[i].name@ != before[j].name@);
    }
    assert forall|i: int| 0 <= i < after.len() implies known.contains_key(
        (#[trigger] after[i]).name@,
    ) && known[after[i].name@] == after[i].data@ by {
        assert(known.contains_key(before[i].name@));
    }
    assert forall|name: Seq<char>| #[trigger] known.contains_key(name) implies has_name(
        after,
        name,
    ) by {
        let i = choose|i: int| 0 <= i < before.len() && (#[trigger] before[i]).name@ == name;
        assert(after[i].name@ == name);
    }
}

/// Replacing the counters of one interface changes the map at its name
/// only.
pub(crate) proof fn lemma_represents_update(
    before: Seq<Interface>,
    after: Seq<Interface>,
    known: Map<Seq<char>, NetworkDataView>,
    p: int,
)
    requires
        names_distinct(before),
        represents(before, known),
        0 <= p < before.len(),
        after.len() == before.len(),
        after[p].name@ == before[p].name@,
        forall|i: int| 0 <= i < before.len() && i != p ==> #[trigger] after[i] == before[i],
    ensures
        names_distinct(after),
        represents(after, known.insert(before[p].name@, after[p].data@)),
{
    let name = before[p].name@;
    let grown = known.insert(name, after[p].data@);
    assert forall|i: int, j: int| 0 <= i < j < after.len() implies (#[trigger] after[i]).name@
        != (#[trigger] after[j]).name@ by {
        assert(before[i].name@ != before[j].name@);
    }
    assert forall|i: int| 0 <= i < after.len() implies grown.contains_key(
        (#[trigger] after[i]).name@,
    ) && grown[after[i].name@] == after[i].data@ by {
        assert(known.contains_key(before[i].name@));
        if i < p {
            assert(before[i].name@ != before[p].name@);
        } else if p < i {
            assert(before[p].name@ != before[i].name@);
        }
    }
    assert forall|n: Seq<char>| #[trigger] grown.contains_key(n) implies has_name(after, n) by {
        if n == name {
            assert(after[p].name@ == n);
        } else {
            let i = choose|i: int| 0 <= i < before.len() && (#[trigger] before[i]).name@ == n;
            assert(after[i].name@ == n);
        }
    }
}

/// Appending an interface with a new name adds it to the map.
pub(crate) proof fn lemma_represents_push(
    interfaces: Seq<Interface>,
    known: Map<Seq<char>, NetworkDataView>,
    added: Interface,
)
    requires
        names_distinct(interfaces),
        represents(interfaces, known),
        !has_name(interfaces, added.name@),
    ensures
        names_distinct(interfaces.push(added)),
        represents(interfaces.push(added), known.insert(added.name@, added.data@)),
{
    let after = interfaces.push(added);
    let grown = known.insert(added.name@, added.data@);
    assert forall|i: int, j: int| 0 <= i < j < after.len() implies (#[trigger] after[i]).name@
        != (#[trigger] after[j]).name@ by {
        assert(after[i] == interfaces[i]);
        if j < interfaces.len() {
            assert(after[j] == interfaces[j]);
        }
    }
    assert forall|i: int| 0 <= i < after.len() implies grown.contains_key(
        (#[trigger] after[i]).name@,
    ) && grown[after[i].name@] == after[i].data@ by {
        if i < interfaces.len() {
            assert(after[i] == interfaces[i]);
        }
    }
    assert forall|n: Seq<char>| #[trigger] grown.contains_key(n) implies has_name(after, n) by {
        if n == added.name@ {
            assert(after[interfaces.len() as int].name@ == n);
        } else {
            let i = choose|i: int|
                0 <= i < interfaces.len() && (#[trigger] interfaces[i]).name@ == n;
            assert(after[i].name@ == n);
        }
    }
}

/// Keeping exactly the marked interfaces restricts the map to their names.
pub(crate) proof fn lemma_represents_swept(
    marked: Seq<Interface>,
    kept: Seq<Interface>,
    known: Map<Seq<char>, NetworkDataView>,
    listed: Set<Seq<char>>,
)
    requires
        names_distinct(marked),
        represents(marked, known),
        forall|i: int|
            0 <= i < marked.len() ==>
                ((#[trigger] marked[i]).data.is_updated() <==> listed.contains(
                marked[i].name@,
            )),
        forall|j: int|
            0 <= j < kept.len() ==> (#[trigger] kept[j]).data.is_updated() && marked.contains(
                kept[j],
            ),
        forall|i: int|
            0 <= i < marked.len() && (#[trigger] marked[i]).data.is_updated() ==> kept.contains(
                marked[i],
            ),
    ensures
        represents(kept, known.restrict(listed)),
{
    let expected = known.restrict(listed);
    assert forall|j: int| 0 <= j < kept.len() implies expected.contains_key(
        (#[trigger] kept[j]).name@,
    ) && expected[kept[j].name@] == kept[j].data@ by {
        let q = choose|q: int| 0 <= q < marked.len() && marked[q] == kept[j];
        assert(marked[q].data.is_updated());
        assert(known.contains_key(marked[q].name@));
    }
    assert forall|name: Seq<char>| #[trigger] expected.contains_key(name) implies has_name(
        kept,
        name,
    ) by {
        let q = choose|q: int| 0 <= q < marked.len() && (#[trigger] marked[q]).name@ == name;
        assert(marked[q].data.is_updated());
        let j = choose|j: int| 0 <= j < kept.len() && kept[j] == marked[q];
        assert(kept[j].name@ == name);
    }
}

/// Giving every interface the readings held for it gives the map after a
/// refresh of the counters.
pub(crate) proof fn lemma_represents_refreshed(
    before: Seq<Interface>,
    after: Seq<Interface>,
    known: Map<Seq<char>, NetworkDataView>,
    dir: Seq<SysfsEntry>,
)
    requires
        names_distinct(before),
        represents(before, known),
        after.len() == before.len(),
        forall|i: int|
            0 <= i < before.len() ==> (#[trigger] after[i]).name@ == before[i].name@
                && after[i].data@ == before[i].data@.rotated(readings_for(dir, before[i].name@)),
    ensures
        names_distinct(after),
        represents(after, refreshed_counters(known, dir)),
{
    let expected = refreshed_counters(known, dir);
    assert forall|i: int, j: int| 0 <= i < j < after.len() implies (#[trigger] after[i]).name@
        != (#[trigger] after[j]).name@ by {
        assert(before[i].name@ != before[j].name@);
    }
    assert forall|i: int| 0 <= i < after.len() implies expected.contains_key(
        (#[trigger] after[i]).name@,
    ) && expected[after[i].name@] == after[i].data@ by {
        assert(known.contains_key(before[i].name@));
    }
    assert forall|name: Seq<char>| #[trigger] expected.contains_key(name) implies has_name(
        after,
        name,
    ) by {
        let i = choose|i: int| 0 <= i < before.len() && (#[trigger] before[i]).name@ == name;
        assert(after[i].name@ == name);
    }
}

/// Where the interface `name` stands in `interfaces`, if it is there.
pub(crate) fn position(interfaces: &Vec<Interface>, name: &String) -> (found: Option<usize>)
    ensures
        match found {
            Some(p) => p < interfaces.len() && interfaces[p as int].name@ == name@,
            None => !has_name(interfaces@, name@),
        },
{
    let mut i: usize = 0;
    while i < interfaces.len()
        invariant
            i <= interfaces.len(),
            forall|j: int| 0 <= j < i ==> (#[trigger] interfaces[j]).name@ != name@,
        decreases interfaces.len() - i,
    {
        if interfaces[i].name == *name {
            return Some(i);
        }
        i += 1;
    }
    None
}

/// Where the first entry of `dir` that names the interface `name` stands,
/// if there is one.
pub(crate) fn first_named(dir: &Vec<SysfsEntry>, name: &String) -> (found: Option<usize>)
    ensures
        match found {
            Some(k) => {
                &&& k < dir.len()
                &&& dir[k as int].interface_name() == Some(name@)
                &&& forall|j: int|
                    0 <= j < k ==> (#[trigger] dir[j]).interface_name() != Some(name@)
            },
            None => forall|j: int|
                0 <= j < dir.len() ==> (#[trigger] dir[j]).interface_name() != Some(name@),
        },
{
    let mut k: usize = 0;
    while k < dir.len()
        invariant
            k <= dir.len(),
            forall|j: int| 0 <= j < k ==> (#[trigger] dir[j]).interface_name() != Some(name@),
        decreases dir.len() - k,
    {
        match &dir[k].name {
            Some(listed) => {
                if *listed == *name {
                    return Some(k);
                }
            },
            None => {},
        }
        k += 1;
    }
    None
}

/// Clears the mark of every interface.
pub(crate) fn unmark_all(interfaces: &mut Vec<Interface>)
    ensures
        final(interfaces).len() == old(interfaces).len(),
        forall|i: int|
            0 <= i < old(interfaces).len() ==> {
                &&& (#[trigger] final(interfaces)[i]).name@ == old(interfaces)[i].name@
                &&& final(interfaces)[i].data@ == old(interfaces)[i].data@
                &&& !final(interfaces)[i].data.is_updated()
            },
{
    let mut i: usize = 0;
    while i < interfaces.len()
        invariant
            interfaces.len() == old(interfaces).len(),
            i <= interfaces.len(),
            forall|j: int|
                0 <= j < interfaces.len() ==> {
                    &&& (#[trigger] interfaces[j]).name@ == old(interfaces)[j].name@
                    &&& interfaces[j].data@ == old(interfaces)[j].data@
                },
            forall|j: int| 0 <= j < i ==> !(#[trigger] interfaces[j]).data.is_updated(),
        decreases interfaces.len() - i,
    {
        interfaces[i].data.set_updated(false);
        i += 1;
    }
}

/// Removes every interface that is not marked, and keeps the others.
pub(crate) fn sweep(interfaces: &mut Vec<Interface>)
    requires
        names_distinct(old(interfaces)@),
    ensures
        names_distinct(final(interfaces)@),
        forall|j: int|
            0 <= j < final(interfaces).len() ==> (#[trigger] final(interfaces)[j]).data.is_updated()
                && old(interfaces)@.contains(final(interfaces)[j]),
        forall|i: int|
            0 <= i < old(interfaces).len() && (#[trigger] old(interfaces)[i]).data.is_updated()
                ==> final(interfaces)@.contains(old(interfaces)[i]),
{
    let mut i: usize = 0;
    while i < interfaces.len()
        invariant
            i <= interfaces.len(),
            names_distinct(interfaces@),
            forall|j: int| 0 <= j < i ==> (#[trigger] interfaces[j]).data.is_updated(),
            forall|j: int|
                0 <= j < interfaces.len() ==> old(interfaces)@.contains(#[trigger] interfaces[j]),
            forall|j: int|
                0 <= j < old(interfaces).len() && (#[trigger] old(interfaces)[j]).data.is_updated()
                    ==> interfaces@.contains(old(interfaces)[j]),
        decreases interfaces.len() - i,
    {
        if interfaces[i].data.updated() {
            i += 1;
        } else {
            let ghost before = interfaces@;
            interfaces.swap_remove(i);
            proof {
                // What stood last now stands at `i`; all else stands where it stood.
                let after = interfaces@;
                let last = before.len() - 1;
                assert forall|a: int, b: int| 0 <= a < b < after.len() implies
                    (#[trigger] after[a]).name@ != (#[trigger] after[b]).name@ by {
                    let a0 = if a == i { last } else { a };
                    let b0 = if b == i { last } else { b };
                    assert(after[a] == before[a0]);
                    assert(after[b] == before[b0]);
                    if a0 < b0 {
                        assert(before[a0].name@ != before[b0].name@);
                    } else {
                        assert(before[b0].name@ != before[a0].name@);
                    }
                }
                assert forall|j: int| 0 <= j < after.len() implies old(interfaces)@.contains(
                    #[trigger] after[j],
                ) by {
                    let j0 = if j == i { last } else { j };
                    assert(after[j] == before[j0]);
                }
                assert forall|j: int|
                    0 <= j < old(interfaces).len() && (#[trigger] old(
                        interfaces,
                    )[j]).data.is_updated() implies after.contains(old(interfaces)[j]) by {
                    let kept = old(interfaces)[j];
                    let q = choose|q: int| 0 <= q < before.len() && before[q] == kept;
                    assert(q != i);
                    if q == last {
                        assert(after[i as int] == kept);
                    } else {
                        assert(after[q] == kept);
                    }
                }
                assert forall|j: int| 0 <= j < i
                    implies (#[trigger] after[j]).data.is_updated() by {
                    assert(after[j] == before[j]);
                }
            }
        }
    }
}

} // verus!
