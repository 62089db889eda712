//! Units keyed by id: look-up, replacement, removal and listing in id order.

use crate::game_state::{Unit, UnitId};
use std::collections::BTreeMap;
use vstd::prelude::*;

verus! {

/// `s` lists the ids of `units`, lowest first.
pub open spec fn lists_ids(s: Seq<UnitId>, units: Map<UnitId, Unit>) -> bool {
    &&& forall|i: int, j: int| 0 <= i < j < s.len() ==> s[i] < s[j]
    &&& s.to_set() == units.dom()
}

/// The ids of `units`, lowest first.
pub open spec fn id_order(units: Map<UnitId, Unit>) -> Seq<UnitId> {
    choose|s: Seq<UnitId>| lists_ids(s, units)
}

/// At most one ascending listing of a set exists.
pub proof fn lemma_id_order_unique(s: Seq<UnitId>, units: Map<UnitId, Unit>)
    requires
        lists_ids(s, units),
    ensures
        id_order(units) == s,
{
    let t = id_order(units);
    assert(lists_ids(t, units));
    assert forall|x: UnitId| s.contains(x) <==> t.contains(x) by {
        assert(s.to_set().contains(x) <==> units.dom().contains(x));
        assert(t.to_set().contains(x) <==> units.dom().contains(x));
    }
    lemma_ascending_unique(s, t);
}

proof fn lemma_ascending_unique(s: Seq<UnitId>, t: Seq<UnitId>)
    requires
        forall|i: int, j: int| 0 <= i < j < s.len() ==> s[i] < s[j],
        forall|i: int, j: int| 0 <= i < j < t.len() ==> t[i] < t[j],
        forall|x: UnitId| s.contains(x) <==> t.contains(x),
    ensures
        s == t,
    decreases s.len(),
{
    if s.len() == 0 {
        if t.len() > 0 {
            assert(t.contains(t[0]));
        }
    } else {
        assert(s.contains(s.last()));
        assert(t.contains(s.last()));
        assert(t.contains(t.last()));
        assert(s.contains(t.last()));
        let s1 = s.drop_last();
        let t1 = t.drop_last();
        assert forall|x: UnitId| s1.contains(x) <==> t1.contains(x) by {
            assert(s.contains(x) <==> t.contains(x));
            if s1.contains(x) {
                let i = choose|i: int| 0 <= i < s1.len() && s1[i] == x;
                assert(s[i] == x);
                let j = choose|j: int| 0 <= j < t.len() && t[j] == x;
                assert(j < t.len() - 1);
                assert(t1[j] == x);
            }
            if t1.contains(x) {
                let i = choose|i: int| 0 <= i < t1.len() && t1[i] == x;
                assert(t[i] == x);
                let j = choose|j: int| 0 <= j < s.len() && s[j] == x;
                assert(j < s.len() - 1);
                assert(s1[j] == x);
            }
        }
        lemma_ascending_unique(s1, t1);
        assert(s =~= s1.push(s.last()));
        assert(t =~= t1.push(t.last()));
    }
}

/// The ids below `n`, lowest first.
spec fn ids_below(units: Map<UnitId, Unit>, n: int) -> Seq<UnitId>
    decreases n,
{
    if n <= 0 {
        Seq::empty()
    } else if units.dom().contains((n - 1) as UnitId) {
        ids_below(units, n - 1).push((n - 1) as UnitId)
    } else {
        ids_below(units, n - 1)
    }
}

proof fn lemma_ids_below(units: Map<UnitId, Unit>, n: int)
    requires
        0 <= n <= UnitId::MAX + 1,
    ensures
        forall|i: int, j: int|
            0 <= i < j < ids_below(units, n).len() ==> ids_below(units, n)[i] < ids_below(
                units,
                n,
            )[j],
        forall|i: int| 0 <= i < ids_below(units, n).len() ==> #[trigger] ids_below(units, n)[i] < n,
        forall|id: UnitId| #[trigger]
            ids_below(units, n).contains(id) <==> units.dom().contains(id) && id < n,
    decreases n,
{
    if n > 0 {
        lemma_ids_below(units, n - 1);
        let top = (n - 1) as UnitId;
        let rest = ids_below(units, n - 1);
        let all = ids_below(units, n);
        assert forall|id: UnitId| #[trigger] all.contains(id) <==> units.dom().contains(id) && id
            < n by {
            assert(rest.contains(id) <==> units.dom().contains(id) && id < n - 1);
            if rest.contains(id) {
                let i = choose|i: int| 0 <= i < rest.len() && rest[i] == id;
                assert(all[i] == id);
            }
            if units.dom().contains(top) {
                assert(all[all.len() - 1] == top);
            }
        }
    }
}

/// Every roster has an ascending listing.
pub proof fn lemma_id_order(units: Map<UnitId, Unit>)
    ensures
        lists_ids(id_order(units), units),
{
    let n = UnitId::MAX + 1;
    lemma_ids_below(units, n);
    let s = ids_below(units, n);
    assert(s.to_set() =~= units.dom()) by {
        assert forall|id: UnitId| s.to_set().contains(id) <==> units.dom().contains(id) by {
            assert(s.contains(id) <==> units.dom().contains(id) && id < n);
        }
    }
    assert(lists_ids(s, units));
}

/// The ids of `units`, lowest first.
pub fn unit_ids(units: &BTreeMap<UnitId, Unit>) -> (r: Vec<UnitId>)
    ensures
        r@ == id_order(units@),
        lists_ids(r@, units@),
{
    broadcast use vstd::laws_cmp::group_laws_cmp;
    let mut r: Vec<UnitId> = Vec::new();
    let ghost listed = vstd::std_specs::iter::IteratorSpec::remaining(
        &vstd::std_specs::btree::spec_keys_iter(units),
    );
    for k in it: units.keys()
        invariant
            r@ == it.seq().unref().take(it.index()),
            it.seq() == listed,
    {
        r.push(*k);
    }
    proof {
        assert(vstd::laws_cmp::obeys_cmp::<UnitId>());
        assert(vstd::laws_cmp::obeys_cmp::<&UnitId>());
        assert(r@ == listed.unref());
        assert forall|i: int, j: int| 0 <= i < j < r@.len() implies r@[i] < r@[j] by {
            assert(vstd::std_specs::cmp::OrdSpec::cmp_spec(&listed[i], &listed[j]) is Less);
        }
        lemma_id_order_unique(r@, units@);
    }
    r
}

/// The unit with this id.
pub fn find_unit(units: &BTreeMap<UnitId, Unit>, id: UnitId) -> (r: Option<Unit>)
    ensures
        r == (if units@.dom().contains(id) {
            Some(units@[id])
        } else {
            None
        }),
{
    broadcast use vstd::laws_cmp::group_laws_cmp;

    match units.get(&id) {
        Some(u) => Some(*u),
        None => None,
    }
}

/// Stores a unit under an id, in place of the one that had it.
pub fn put_unit(units: &mut BTreeMap<UnitId, Unit>, id: UnitId, unit: Unit)
    ensures
        final(units)@ == old(units)@.insert(id, unit),
{
    broadcast use vstd::laws_cmp::group_laws_cmp;

    let _ = units.insert(id, unit);
}

/// Removes the unit with this id and hands it back.
pub fn take_unit(units: &mut BTreeMap<UnitId, Unit>, id: UnitId) -> (r: Option<Unit>)
    ensures
        final(units)@ == old(units)@.remove(id),
        r == (if old(units)@.dom().contains(id) {
            Some(old(units)@[id])
        } else {
            None
        }),
{
    broadcast use vstd::laws_cmp::group_laws_cmp;

    units.remove(&id)
}

/// Whether a list has this id.
pub fn has_id(ids: &Vec<UnitId>, id: UnitId) -> (r: bool)
    ensures
        r == ids@.contains(id),
{
    for i in 0..ids.len()
        invariant
            forall|j: int| 0 <= j < i ==> ids@[j] != id,
    {
        if ids[i] == id {
            return true;
        }
    }
    false
}

} // verus!
