//! The virtual devices of a Configuration device plugin: which ids it offers
//! kubelet, given the state of every slot of its Instances on this node.
use vstd::prelude::*;
use crate::device_plugin::{DeviceUsageStatus, UsageStatusView};
use crate::text::{contains_string, decimal, lemma_decimal_injective, str_eq, strings_view, u128_to_string};

verus! {

/// The slots of one Instance: slot name and state.
pub open spec fn slots_view(v: Seq<(String, DeviceUsageStatus)>) -> Seq<(Seq<char>, UsageStatusView)> {
    v.map_values(|p: (String, DeviceUsageStatus)| (p.0@, p.1@))
}

/// The slots of each Instance.
pub open spec fn instances_view(v: Seq<Vec<(String, DeviceUsageStatus)>>) -> Seq<Seq<(Seq<char>, UsageStatusView)>> {
    v.map_values(|x: Vec<(String, DeviceUsageStatus)>| slots_view(x@))
}

/// Some slot is reserved by the Configuration device plugin on this node under `vdev`.
pub open spec fn reserved_in_slots(slots: Seq<(Seq<char>, UsageStatusView)>, vdev: Seq<char>) -> bool
    decreases slots.len(),
{
    slots.len() > 0 && (slots.last().1 == UsageStatusView::ReservedByConfiguration(vdev) || reserved_in_slots(slots.drop_last(), vdev))
}

/// Some slot of some Instance is reserved under `vdev`.
pub open spec fn reserved_in(states: Seq<Seq<(Seq<char>, UsageStatusView)>>, vdev: Seq<char>) -> bool
    decreases states.len(),
{
    states.len() > 0 && (reserved_in_slots(states.last(), vdev) || reserved_in(states.drop_last(), vdev))
}

/// Some slot is free.
pub open spec fn has_free_slot(slots: Seq<(Seq<char>, UsageStatusView)>) -> bool
    decreases slots.len(),
{
    slots.len() > 0 && (slots.last().1 is Free || has_free_slot(slots.drop_last()))
}

/// How many Instances have a free slot.
pub open spec fn instances_with_free_slot(states: Seq<Seq<(Seq<char>, UsageStatusView)>>) -> nat
    decreases states.len(),
{
    if states.len() == 0 {
        0
    } else {
        instances_with_free_slot(states.drop_last()) + if has_free_slot(states.last()) { 1nat } else { 0nat }
    }
}

/// The virtual device ids already reserved on this node.
pub open spec fn reserved_vdev_ids(states: Seq<Seq<(Seq<char>, UsageStatusView)>>) -> Set<Seq<char>> {
    Set::new(|v: Seq<char>| reserved_in(states, v))
}

/// The numbers below `bound` whose decimal rendering is not among `reserved`.
pub open spec fn fresh_below(reserved: Set<Seq<char>>, bound: nat) -> Set<nat> {
    Set::new(|m: nat| m < bound && !reserved.contains(decimal(m)))
}

/// The ids offered: the reserved ones, and the decimal renderings of the fresh numbers below `bound`.
pub open spec fn offered_ids(reserved: Set<Seq<char>>, bound: nat) -> Set<Seq<char>> {
    reserved.union(fresh_below(reserved, bound).map(|m: nat| decimal(m)))
}

fn collect_reserved(states: &Vec<Vec<(String, DeviceUsageStatus)>>) -> (r: (Vec<String>, usize))
    ensures
        strings_view(r.0@).no_duplicates(),
        forall|v: Seq<char>| #[trigger] strings_view(r.0@).contains(v) <==> reserved_in(instances_view(states@), v),
        r.1 == instances_with_free_slot(instances_view(states@)),
        r.1 <= states@.len(),
{
    let ghost sv = instances_view(states@);
    let mut reserved: Vec<String> = Vec::new();
    let mut free_count: usize = 0;
    let mut i: usize = 0;
    while i < states.len()
        invariant
            sv == instances_view(states@),
            i <= states@.len(),
            strings_view(reserved@).no_duplicates(),
            forall|v: Seq<char>| #[trigger] strings_view(reserved@).contains(v) <==> reserved_in(sv.take(i as int), v),
            free_count == instances_with_free_slot(sv.take(i as int)),
            free_count <= i,
        decreases states.len() - i,
    {
        let slots = &states[i];
        let ghost sl = slots_view(slots@);
        assert(sl == sv[i as int]);
        let mut has_free = false;
        let mut j: usize = 0;
        while j < slots.len()
            invariant
                sv == instances_view(states@),
                i < states@.len(),
                sl == slots_view(slots@),
                j <= slots@.len(),
                strings_view(reserved@).no_duplicates(),
                forall|v: Seq<char>| #[trigger] strings_view(reserved@).contains(v)
                    <==> (reserved_in(sv.take(i as int), v) || reserved_in_slots(sl.take(j as int), v)),
                has_free == has_free_slot(sl.take(j as int)),
            decreases slots.len() - j,
        {
            assert(sl.take(j + 1).drop_last() =~= sl.take(j as int));
            assert(sl.take(j + 1).last() == sl[j as int]);
            match &slots[j].1 {
                DeviceUsageStatus::Free => {
                    has_free = true;
                },
                DeviceUsageStatus::ReservedByConfiguration(v) => {
                    if !contains_string(&reserved, v.as_str()) {
                        let ghost before = strings_view(reserved@);
                        reserved.push(v.clone());
                        proof {
                            assert(strings_view(reserved@) =~= before.push(v@));
                            assert forall|w: Seq<char>| #[trigger] strings_view(reserved@).contains(w) <==> (before.contains(w) || w == v@) by {
                                vstd::seq_lib::lemma_seq_contains_after_push(before, v@, w);
                            }
                            assert forall|a: int, b: int| 0 <= a < strings_view(reserved@).len() && 0 <= b < strings_view(reserved@).len() && a != b
                                implies strings_view(reserved@)[a] != strings_view(reserved@)[b] by {
                                if a == before.len() {
                                    assert(before.contains(strings_view(reserved@)[b]));
                                } else if b == before.len() {
                                    assert(before.contains(strings_view(reserved@)[a]));
                                }
                            }
                        }
                    }
                },
                _ => {},
            }
            j = j + 1;
        }
        assert(sl.take(slots@.len() as int) =~= sl);
        assert(sv.take(i + 1).drop_last() =~= sv.take(i as int));
        assert(sv.take(i + 1).last() == sv[i as int]);
        if has_free {
            free_count = free_count + 1;
        }
        i = i + 1;
    }
    assert(sv.take(states@.len() as int) =~= sv);
    (reserved, free_count)
}

/// The virtual device ids a Configuration device plugin offers on this node,
/// each once: those already reserved on this node, and one more per Instance
/// with a free slot, the smallest numbers whose decimal rendering is not taken.
pub fn available_virtual_devices(states: &Vec<Vec<(String, DeviceUsageStatus)>>) -> (ids: Vec<String>)
    ensures
        strings_view(ids@).no_duplicates(),
        exists|bound: nat| {
            &&& #[trigger] fresh_below(reserved_vdev_ids(instances_view(states@)), bound).len()
                == instances_with_free_slot(instances_view(states@))
            &&& fresh_below(reserved_vdev_ids(instances_view(states@)), bound).finite()
            &&& strings_view(ids@).to_set() == offered_ids(reserved_vdev_ids(instances_view(states@)), bound)
        },
{
    let ghost rset = reserved_vdev_ids(instances_view(states@));
    let (mut ids, free_count) = collect_reserved(states);
    let ghost rv = strings_view(ids@);
    proof {
        assert(rv.to_set() =~= rset);
        rv.unique_seq_to_set();
    }
    let limit: u128 = ids.len() as u128 + free_count as u128;
    let mut assigned: usize = 0;
    let mut id: u128 = 0;
    let ghost mut skipped: Set<nat> = Set::empty();
    let ghost mut fresh: Set<nat> = Set::empty();
    while assigned < free_count
        invariant
            rset.finite(),
            rset.len() == rv.len(),
            rv.to_set() == rset,
            limit == rv.len() + free_count,
            assigned <= free_count,
            forall|m: nat| #[trigger] skipped.contains(m) <==> m < id && rset.contains(decimal(m)),
            forall|m: nat| #[trigger] fresh.contains(m) <==> m < id && !rset.contains(decimal(m)),
            skipped.finite(),
            fresh.finite(),
            skipped.len() + fresh.len() == id,
            fresh.len() == assigned,
            skipped.len() <= rset.len(),
            strings_view(ids@).no_duplicates(),
            strings_view(ids@).to_set() == rset.union(fresh.map(|m: nat| decimal(m))),
        decreases limit - id,
    {
        let s = u128_to_string(id);
        let taken = contains_string(&ids, s.as_str());
        proof {
            assert(strings_view(ids@).contains(s@) <==> strings_view(ids@).to_set().contains(s@));
            if !rset.contains(decimal(id as nat)) && strings_view(ids@).contains(s@) {
                assert(fresh.map(|m: nat| decimal(m)).contains(s@));
                let m = choose|m: nat| fresh.contains(m) && decimal(m) == s@;
                lemma_decimal_injective(m, id as nat);
            }
        }
        if taken {
            proof {
                let s2 = skipped.insert(id as nat);
                assert forall|m: nat| #[trigger] s2.contains(m) <==> m < id + 1 && rset.contains(decimal(m)) by {}
                assert forall|m: nat| #[trigger] fresh.contains(m) <==> m < id + 1 && !rset.contains(decimal(m)) by {}
                assert(!skipped.contains(id as nat));
                assert(s2.map(|m: nat| decimal(m)).subset_of(rset));
                assert(vstd::relations::injective_on(|m: nat| decimal(m), s2)) by {
                    assert forall|a: nat, b: nat| s2.contains(a) && s2.contains(b) && #[trigger] decimal(a) == #[trigger] decimal(b) implies a == b by {
                        lemma_decimal_injective(a, b);
                    }
                }
                vstd::set_lib::lemma_map_size(s2, s2.map(|m: nat| decimal(m)), |m: nat| decimal(m));
                vstd::set_lib::lemma_len_subset(s2.map(|m: nat| decimal(m)), rset);
                skipped = s2;
            }
        } else {
            let ghost before = strings_view(ids@);
            ids.push(s);
            proof {
                let f2 = fresh.insert(id as nat);
                assert(!fresh.contains(id as nat));
                assert forall|m: nat| #[trigger] f2.contains(m) <==> m < id + 1 && !rset.contains(decimal(m)) by {}
                assert forall|m: nat| #[trigger] skipped.contains(m) <==> m < id + 1 && rset.contains(decimal(m)) by {}
                assert(strings_view(ids@) =~= before.push(decimal(id as nat)));
                assert forall|a: int, b: int| 0 <= a < strings_view(ids@).len() && 0 <= b < strings_view(ids@).len() && a != b
                    implies strings_view(ids@)[a] != strings_view(ids@)[b] by {
                    if a == before.len() {
                        assert(before.contains(strings_view(ids@)[b]));
                    } else if b == before.len() {
                        assert(before.contains(strings_view(ids@)[a]));
                    }
                }
                fresh.lemma_set_map_insert_commute(id as nat, |m: nat| decimal(m));
                assert(f2.map(|m: nat| decimal(m)) == fresh.map(|m: nat| decimal(m)).insert(decimal(id as nat)));
                assert forall|w: Seq<char>| #[trigger] strings_view(ids@).to_set().contains(w) <==> rset.union(f2.map(|m: nat| decimal(m))).contains(w) by {
                    vstd::seq_lib::lemma_seq_contains_after_push(before, decimal(id as nat), w);
                    assert(strings_view(ids@).to_set().contains(w) <==> strings_view(ids@).contains(w));
                    assert(before.to_set().contains(w) <==> before.contains(w));
                }
                assert(strings_view(ids@).to_set() =~= rset.union(f2.map(|m: nat| decimal(m))));
                fresh = f2;
            }
            assigned = assigned + 1;
        }
        id = id + 1;
    }
    proof {
        assert(fresh =~= fresh_below(rset, id as nat));
    }
    ids
}

/// The first slot reserved on this node under `vdev`.
pub open spec fn first_reserved_slot(slots: Seq<(Seq<char>, UsageStatusView)>, vdev: Seq<char>) -> Option<Seq<char>>
    decreases slots.len(),
{
    if slots.len() == 0 {
        None
    } else {
        match first_reserved_slot(slots.drop_last(), vdev) {
            Some(s) => Some(s),
            None => if slots.last().1 == UsageStatusView::ReservedByConfiguration(vdev) {
                Some(slots.last().0)
            } else {
                None
            },
        }
    }
}

/// The first free slot.
pub open spec fn first_free_slot(slots: Seq<(Seq<char>, UsageStatusView)>) -> Option<Seq<char>>
    decreases slots.len(),
{
    if slots.len() == 0 {
        None
    } else {
        match first_free_slot(slots.drop_last()) {
            Some(s) => Some(s),
            None => if slots.last().1 is Free {
                Some(slots.last().0)
            } else {
                None
            },
        }
    }
}

/// How many slots are free.
pub open spec fn free_slot_count(slots: Seq<(Seq<char>, UsageStatusView)>) -> nat
    decreases slots.len(),
{
    if slots.len() == 0 {
        0
    } else {
        free_slot_count(slots.drop_last()) + if slots.last().1 is Free { 1nat } else { 0nat }
    }
}

/// Instances by name and slots.
pub type InstanceSlotsView = Seq<(Seq<char>, Seq<(Seq<char>, UsageStatusView)>)>;

/// The named Instances' slots.
pub open spec fn named_instances_view(v: Seq<(String, Vec<(String, DeviceUsageStatus)>)>) -> InstanceSlotsView {
    v.map_values(|x: (String, Vec<(String, DeviceUsageStatus)>)| (x.0@, slots_view(x.1@)))
}

/// Among the first `n` Instances not `used`, the first with a slot reserved under `vdev`.
pub open spec fn reserved_pick(states: InstanceSlotsView, used: Set<int>, vdev: Seq<char>, n: int) -> Option<int>
    decreases n,
{
    if n <= 0 {
        None
    } else {
        match reserved_pick(states, used, vdev, n - 1) {
            Some(i) => Some(i),
            None => if !used.contains(n - 1) && first_reserved_slot(states[n - 1].1, vdev) is Some {
                Some(n - 1)
            } else {
                None
            },
        }
    }
}

/// Among the first `n` Instances not `used`, the first of those with the most free slots, if any has one.
pub open spec fn free_pick(states: InstanceSlotsView, used: Set<int>, n: int) -> Option<int>
    decreases n,
{
    if n <= 0 {
        None
    } else {
        let best = free_pick(states, used, n - 1);
        let c = free_slot_count(states[n - 1].1);
        if !used.contains(n - 1) && c > 0 && (match best {
            Some(b) => c > free_slot_count(states[b].1),
            None => true,
        }) {
            Some(n - 1)
        } else {
            best
        }
    }
}

/// The (Instance, slot) that backs virtual device `vdev`: a slot already
/// reserved under `vdev` in an Instance not yet used, else a free slot of an
/// unused Instance with the most free slots; none when there is neither.
pub open spec fn pick_slot(states: InstanceSlotsView, used: Set<int>, vdev: Seq<char>) -> Option<(int, Seq<char>)> {
    match reserved_pick(states, used, vdev, states.len() as int) {
        Some(i) => Some((i, first_reserved_slot(states[i].1, vdev)->0)),
        None => match free_pick(states, used, states.len() as int) {
            Some(i) => Some((i, first_free_slot(states[i].1)->0)),
            None => None,
        },
    }
}

/// Allocation of the requested virtual devices in order, each Instance backing
/// at most one: the (Instance name, slot) of each, the Instances used, and
/// whether every requested device found one.
pub open spec fn allocation(states: InstanceSlotsView, requested: Seq<Seq<char>>) -> (Map<Seq<char>, (Seq<char>, Seq<char>)>, Set<int>, bool)
    decreases requested.len(),
{
    if requested.len() == 0 {
        (Map::empty(), Set::empty(), true)
    } else {
        let (m, used, ok) = allocation(states, requested.drop_last());
        match pick_slot(states, used, requested.last()) {
            Some((i, slot)) => (m.insert(requested.last(), (states[i].0, slot)), used.insert(i), ok),
            None => (m, used, false),
        }
    }
}

proof fn lemma_reserved_pick_range(states: InstanceSlotsView, used: Set<int>, vdev: Seq<char>, n: int)
    ensures
        reserved_pick(states, used, vdev, n) matches Some(i) ==> 0 <= i < n && !used.contains(i),
    decreases n,
{
    if n > 0 {
        lemma_reserved_pick_range(states, used, vdev, n - 1);
    }
}

/// Instance names are pairwise distinct.
pub open spec fn instance_names_distinct(states: InstanceSlotsView) -> bool {
    forall|i: int, j: int| 0 <= i < states.len() && 0 <= j < states.len() && i != j ==> states[i].0 != states[j].0
}

/// Each Instance backs at most one of the requested virtual devices: distinct
/// virtual devices get slots of distinct Instances, and every Instance used is
/// one of those given.
pub proof fn lemma_allocation_uses_each_instance_once(states: InstanceSlotsView, requested: Seq<Seq<char>>)
    requires
        instance_names_distinct(states),
    ensures
        ({
            let (m, used, _ok) = allocation(states, requested);
            &&& forall|k: Seq<char>| #[trigger] m.dom().contains(k) ==> exists|i: int| used.contains(i) && 0 <= i < states.len() && states[i].0 == m[k].0
            &&& forall|k1: Seq<char>, k2: Seq<char>| #[trigger] m.dom().contains(k1) && #[trigger] m.dom().contains(k2) && k1 != k2 ==> m[k1].0 != m[k2].0
        }),
    decreases requested.len(),
{
    if requested.len() > 0 {
        let d = requested.drop_last();
        lemma_allocation_uses_each_instance_once(states, d);
        let (m0, used0, _ok0) = allocation(states, d);
        let v = requested.last();
        lemma_reserved_pick_range(states, used0, v, states.len() as int);
        lemma_free_pick_range(states, used0, states.len() as int);
        match pick_slot(states, used0, v) {
            Some((i, slot)) => {
                let m1 = m0.insert(v, (states[i].0, slot));
                let used1 = used0.insert(i);
                assert(allocation(states, requested) == (m1, used1, _ok0));
                assert(0 <= i < states.len() && !used0.contains(i));
                assert forall|k: Seq<char>| #[trigger] m0.dom().contains(k) implies m0[k].0 != states[i].0 by {
                    let j = choose|j: int| used0.contains(j) && 0 <= j < states.len() && states[j].0 == m0[k].0;
                    assert(j != i);
                }
                assert forall|k: Seq<char>| #[trigger] m1.dom().contains(k) implies exists|j: int| used1.contains(j) && 0 <= j < states.len() && states[j].0 == m1[k].0 by {
                    if k == v {
                        assert(used1.contains(i));
                    } else {
                        let j = choose|j: int| used0.contains(j) && 0 <= j < states.len() && states[j].0 == m0[k].0;
                        assert(used1.contains(j));
                    }
                }
                assert forall|k1: Seq<char>, k2: Seq<char>| #[trigger] m1.dom().contains(k1) && #[trigger] m1.dom().contains(k2) && k1 != k2 implies m1[k1].0 != m1[k2].0 by {
                    if k1 == v {
                        assert(m0.dom().contains(k2));
                    } else if k2 == v {
                        assert(m0.dom().contains(k1));
                    } else {
                        assert(m0.dom().contains(k1) && m0.dom().contains(k2));
                    }
                }
                assert(allocation(states, requested).0 == m1);
                assert(allocation(states, requested).1 == used1);
            },
            None => {
                assert(allocation(states, requested) == (m0, used0, false));
                assert(allocation(states, requested).0 == m0);
                assert(allocation(states, requested).1 == used0);
            },
        }
    } else {
        assert(allocation(states, requested).0 =~= Map::<Seq<char>, (Seq<char>, Seq<char>)>::empty());
    }
}

/// Why virtual devices could not be allocated.
#[derive(PartialEq, Eq, Structural, Clone, Copy, Debug)]
pub enum AllocationError {
    /// Not enough Instances can back the requested virtual devices.
    InsufficientInstances,
}

fn first_reserved_slot_of(slots: &Vec<(String, DeviceUsageStatus)>, vdev: &str) -> (r: Option<String>)
    ensures
        match r {
            Some(s) => first_reserved_slot(slots_view(slots@), vdev@) == Some(s@),
            None => first_reserved_slot(slots_view(slots@), vdev@) is None,
        },
{
    let ghost sl = slots_view(slots@);
    let mut j: usize = 0;
    while j < slots.len()
        invariant
            sl == slots_view(slots@),
            j <= slots@.len(),
            first_reserved_slot(sl.take(j as int), vdev@) is None,
        decreases slots.len() - j,
    {
        assert(sl.take(j + 1).drop_last() =~= sl.take(j as int));
        assert(sl.take(j + 1).last() == sl[j as int]);
        match &slots[j].1 {
            DeviceUsageStatus::ReservedByConfiguration(v) => {
                if str_eq(v.as_str(), vdev) {
                    let r = slots[j].0.clone();
                    proof {
                        lemma_first_reserved_prefix(sl, j as int + 1, vdev@);
                    }
                    return Some(r);
                }
            },
            _ => {},
        }
        j = j + 1;
    }
    assert(sl.take(slots@.len() as int) =~= sl);
    None
}

proof fn lemma_first_reserved_prefix(sl: Seq<(Seq<char>, UsageStatusView)>, n: int, vdev: Seq<char>)
    requires
        0 <= n <= sl.len(),
        first_reserved_slot(sl.take(n), vdev) is Some,
    ensures
        first_reserved_slot(sl, vdev) == first_reserved_slot(sl.take(n), vdev),
    decreases sl.len() - n,
{
    if n == sl.len() {
        assert(sl.take(n) =~= sl);
    } else {
        assert(sl.take(n + 1).drop_last() =~= sl.take(n));
        lemma_first_reserved_prefix(sl, n + 1, vdev);
    }
}

proof fn lemma_first_free_prefix(sl: Seq<(Seq<char>, UsageStatusView)>, n: int)
    requires
        0 <= n <= sl.len(),
        first_free_slot(sl.take(n)) is Some,
    ensures
        first_free_slot(sl) == first_free_slot(sl.take(n)),
    decreases sl.len() - n,
{
    if n == sl.len() {
        assert(sl.take(n) =~= sl);
    } else {
        assert(sl.take(n + 1).drop_last() =~= sl.take(n));
        lemma_first_free_prefix(sl, n + 1);
    }
}

proof fn lemma_reserved_pick_stable(states: InstanceSlotsView, used: Set<int>, vdev: Seq<char>, i: int, n: int)
    requires
        0 <= i <= n,
        reserved_pick(states, used, vdev, i) is Some,
    ensures
        reserved_pick(states, used, vdev, n) == reserved_pick(states, used, vdev, i),
    decreases n - i,
{
    if i < n {
        lemma_reserved_pick_stable(states, used, vdev, i, n - 1);
    }
}

proof fn lemma_free_pick_range(states: InstanceSlotsView, used: Set<int>, n: int)
    ensures
        free_pick(states, used, n) matches Some(b) ==> 0 <= b < n && !used.contains(b) && free_slot_count(states[b].1) > 0,
    decreases n,
{
    if n > 0 {
        lemma_free_pick_range(states, used, n - 1);
    }
}

proof fn lemma_free_count_first(slots: Seq<(Seq<char>, UsageStatusView)>)
    ensures
        free_slot_count(slots) > 0 ==> first_free_slot(slots) is Some,
    decreases slots.len(),
{
    if slots.len() > 0 {
        lemma_free_count_first(slots.drop_last());
    }
}

proof fn lemma_first_reserved_slot_found(slots: Seq<(Seq<char>, UsageStatusView)>, vdev: Seq<char>)
    ensures
        first_reserved_slot(slots, vdev) matches Some(name) ==> exists|k: int| 0 <= k < slots.len()
            && slots[k].0 == name && slots[k].1 == UsageStatusView::ReservedByConfiguration(vdev),
        first_reserved_slot(slots, vdev) is None ==> forall|k: int| 0 <= k < slots.len()
            ==> slots[k].1 != UsageStatusView::ReservedByConfiguration(vdev),
    decreases slots.len(),
{
    if slots.len() > 0 {
        let d = slots.drop_last();
        lemma_first_reserved_slot_found(d, vdev);
        if first_reserved_slot(d, vdev) is Some {
            let name = first_reserved_slot(d, vdev)->0;
            let k = choose|k: int| 0 <= k < d.len() && d[k].0 == name && d[k].1 == UsageStatusView::ReservedByConfiguration(vdev);
            assert(slots[k] == d[k]);
        } else {
            assert forall|k: int| 0 <= k < d.len() implies slots[k] == d[k] by {}
        }
    }
}

proof fn lemma_first_free_slot_found(slots: Seq<(Seq<char>, UsageStatusView)>)
    ensures
        first_free_slot(slots) matches Some(name) ==> exists|k: int| 0 <= k < slots.len()
            && slots[k].0 == name && slots[k].1 is Free,
    decreases slots.len(),
{
    if slots.len() > 0 {
        let d = slots.drop_last();
        lemma_first_free_slot_found(d);
        if first_free_slot(d) is Some {
            let name = first_free_slot(d)->0;
            let k = choose|k: int| 0 <= k < d.len() && d[k].0 == name && d[k].1 is Free;
            assert(slots[k] == d[k]);
        }
    }
}

/// The slot chosen to back a virtual device belongs to an Instance not yet
/// used for this request, and is either free or already reserved on this node
/// by the Configuration device plugin under that same virtual device; a slot
/// held by an Instance device plugin, by another node, or under another virtual
/// device is never chosen.
pub proof fn lemma_picked_slot_usable(states: InstanceSlotsView, used: Set<int>, vdev: Seq<char>)
    ensures
        pick_slot(states, used, vdev) matches Some((i, name)) ==> 0 <= i < states.len() && !used.contains(i)
            && exists|k: int| 0 <= k < states[i].1.len() && states[i].1[k].0 == name
                && (states[i].1[k].1 is Free || states[i].1[k].1 == UsageStatusView::ReservedByConfiguration(vdev)),
{
    lemma_reserved_pick_range(states, used, vdev, states.len() as int);
    lemma_free_pick_range(states, used, states.len() as int);
    match reserved_pick(states, used, vdev, states.len() as int) {
        Some(i) => {
            lemma_reserved_pick_some(states, used, vdev, states.len() as int);
            lemma_first_reserved_slot_found(states[i].1, vdev);
        },
        None => match free_pick(states, used, states.len() as int) {
            Some(i) => {
                lemma_free_count_first(states[i].1);
                lemma_first_free_slot_found(states[i].1);
            },
            None => {},
        },
    }
}

proof fn lemma_reserved_pick_some(states: InstanceSlotsView, used: Set<int>, vdev: Seq<char>, n: int)
    ensures
        reserved_pick(states, used, vdev, n) matches Some(i) ==> first_reserved_slot(states[i].1, vdev) is Some,
    decreases n,
{
    if n > 0 {
        lemma_reserved_pick_some(states, used, vdev, n - 1);
    }
}

/// The first free slot and the number of free slots.
fn free_slots_of(slots: &Vec<(String, DeviceUsageStatus)>) -> (r: (Option<String>, usize))
    ensures
        match r.0 {
            Some(s) => first_free_slot(slots_view(slots@)) == Some(s@),
            None => first_free_slot(slots_view(slots@)) is None,
        },
        r.1 == free_slot_count(slots_view(slots@)),
{
    let ghost sl = slots_view(slots@);
    let mut first: Option<String> = None;
    let mut count: usize = 0;
    let mut j: usize = 0;
    while j < slots.len()
        invariant
            sl == slots_view(slots@),
            j <= slots@.len(),
            count == free_slot_count(sl.take(j as int)),
            count <= j,
            match first {
                Some(s) => first_free_slot(sl.take(j as int)) == Some(s@),
                None => first_free_slot(sl.take(j as int)) is None,
            },
        decreases slots.len() - j,
    {
        assert(sl.take(j + 1).drop_last() =~= sl.take(j as int));
        assert(sl.take(j + 1).last() == sl[j as int]);
        match &slots[j].1 {
            DeviceUsageStatus::Free => {
                if first.is_none() {
                    first = Some(slots[j].0.clone());
                }
                count = count + 1;
            },
            _ => {},
        }
        j = j + 1;
    }
    assert(sl.take(slots@.len() as int) =~= sl);
    (first, count)
}

/// The slot of an Instance that backs each requested virtual device, keyed by
/// virtual device id, with the Instance's name: see `allocation`. Fails when
/// some requested device finds no slot.
pub fn get_virtual_device_resources(requested_vdev_ids: &Vec<String>, states: &Vec<(String, Vec<(String, DeviceUsageStatus)>)>)
    -> (r: Result<Vec<(String, (String, String))>, AllocationError>)
    ensures
        ({
            let (m, _used, ok) = allocation(named_instances_view(states@), strings_view(requested_vdev_ids@));
            &&& r is Ok <==> ok
            &&& r matches Ok(v) ==> {
                &&& forall|a: int, b: int| 0 <= a < v@.len() && 0 <= b < v@.len() && a != b ==> (#[trigger] v@[a]).0@ != (#[trigger] v@[b]).0@
                &&& forall|k: Seq<char>| m.dom().contains(k) <==> exists|a: int| 0 <= a < v@.len() && (#[trigger] v@[a]).0@ == k
                &&& forall|a: int| 0 <= a < v@.len() ==> m[(#[trigger] v@[a]).0@] == (v@[a].1.0@, v@[a].1.1@)
            }
        }),
{
    let ghost sv = named_instances_view(states@);
    let ghost rq = strings_view(requested_vdev_ids@);
    let n = states.len();
    let mut free_counts: Vec<usize> = Vec::new();
    let mut k: usize = 0;
    while k < n
        invariant
            n == states@.len(),
            sv == named_instances_view(states@),
            k <= n,
            free_counts@.len() == k,
            forall|t: int| 0 <= t < k ==> free_counts@[t] == free_slot_count(#[trigger] sv[t].1),
        decreases n - k,
    {
        let (_, c) = free_slots_of(&states[k].1);
        free_counts.push(c);
        k = k + 1;
    }
    let mut used: Vec<bool> = Vec::new();
    let mut k2: usize = 0;
    while k2 < n
        invariant
            k2 <= n,
            used@.len() == k2,
            forall|t: int| 0 <= t < k2 ==> !used@[t],
        decreases n - k2,
    {
        used.push(false);
        k2 = k2 + 1;
    }
    let ghost mut used_set: Set<int> = Set::empty();
    let mut result: Vec<(String, (String, String))> = Vec::new();
    let mut ok = true;
    let mut q: usize = 0;
    while q < requested_vdev_ids.len()
        invariant
            n == states@.len(),
            sv == named_instances_view(states@),
            rq == strings_view(requested_vdev_ids@),
            q <= rq.len(),
            free_counts@.len() == n,
            forall|t: int| 0 <= t < n ==> free_counts@[t] == free_slot_count(#[trigger] sv[t].1),
            used@.len() == n,
            forall|t: int| 0 <= t < n ==> (used@[t] <==> #[trigger] used_set.contains(t)),
            ({
                let (m, us, okk) = allocation(sv, rq.take(q as int));
                &&& us == used_set
                &&& okk == ok
                &&& forall|a: int, b: int| 0 <= a < result@.len() && 0 <= b < result@.len() && a != b ==> (#[trigger] result@[a]).0@ != (#[trigger] result@[b]).0@
                &&& forall|key: Seq<char>| m.dom().contains(key) <==> exists|a: int| 0 <= a < result@.len() && (#[trigger] result@[a]).0@ == key
                &&& forall|a: int| 0 <= a < result@.len() ==> m[(#[trigger] result@[a]).0@] == (result@[a].1.0@, result@[a].1.1@)
            }),
        decreases rq.len() - q,
    {
        assert(rq.take(q + 1).drop_last() =~= rq.take(q as int));
        assert(rq.take(q + 1).last() == rq[q as int]);
        let vdev = requested_vdev_ids[q].as_str();
        let ghost used_before = used_set;
        // Look for a slot already reserved under this id.
        let mut found: Option<(usize, String)> = None;
        let mut i: usize = 0;
        while i < n && found.is_none()
            invariant
                n == states@.len(),
                sv == named_instances_view(states@),
                i <= n,
                used@.len() == n,
                forall|t: int| 0 <= t < n ==> (used@[t] <==> #[trigger] used_set.contains(t)),
                match found {
                    Some((idx, slot)) => reserved_pick(sv, used_set, vdev@, i as int) == Some(idx as int)
                        && idx < n && first_reserved_slot(sv[idx as int].1, vdev@) == Some(slot@),
                    None => reserved_pick(sv, used_set, vdev@, i as int) is None,
                },
            decreases n - i,
        {
            if !used[i] {
                match first_reserved_slot_of(&states[i].1, vdev) {
                    Some(slot) => {
                        assert(sv[i as int].1 == slots_view(states@[i as int].1@));
                        found = Some((i, slot));
                    },
                    None => {},
                }
            }
            i = i + 1;
        }
        proof {
            if found is Some {
                lemma_reserved_pick_stable(sv, used_set, vdev@, i as int, n as int);
            }
        }
        if found.is_none() {
            // Otherwise take a free slot of an unused Instance with the most free slots.
            let mut best: Option<usize> = None;
            let mut i2: usize = 0;
            while i2 < n
                invariant
                    n == states@.len(),
                    sv == named_instances_view(states@),
                    i2 <= n,
                    used@.len() == n,
                    free_counts@.len() == n,
                    forall|t: int| 0 <= t < n ==> free_counts@[t] == free_slot_count(#[trigger] sv[t].1),
                    forall|t: int| 0 <= t < n ==> (used@[t] <==> #[trigger] used_set.contains(t)),
                    match best {
                        Some(b) => free_pick(sv, used_set, i2 as int) == Some(b as int) && b < n,
                        None => free_pick(sv, used_set, i2 as int) is None,
                    },
                decreases n - i2,
            {
                let c = free_counts[i2];
                let better = match best {
                    Some(b) => c > free_counts[b],
                    None => true,
                };
                if !used[i2] && c > 0 && better {
                    best = Some(i2);
                }
                i2 = i2 + 1;
            }
            match best {
                Some(b) => {
                    let (slot, _) = free_slots_of(&states[b].1);
                    proof {
                        lemma_free_pick_range(sv, used_set, n as int);
                        assert(sv[b as int].1 == slots_view(states@[b as int].1@));
                        lemma_free_count_first(sv[b as int].1);
                    }
                    match slot {
                        Some(s) => {
                            found = Some((b, s));
                        },
                        None => {},
                    }
                },
                None => {},
            }
        }
        match found {
            Some((idx, slot)) => {
                let ghost slot_v = slot@;
                proof {
                    assert(pick_slot(sv, used_set, rq[q as int]) == Some((idx as int, slot_v)));
                }
                let key = requested_vdev_ids[q].clone();
                let ghost old_result = result@;
                let mut pos: usize = 0;
                let mut existing: Option<usize> = None;
                while pos < result.len() && existing.is_none()
                    invariant
                        pos <= result@.len(),
                        match existing {
                            Some(e) => e < result@.len() && result@[e as int].0@ == key@,
                            None => forall|a: int| 0 <= a < pos ==> (#[trigger] result@[a]).0@ != key@,
                        },
                    decreases result.len() - pos,
                {
                    if str_eq(result[pos].0.as_str(), key.as_str()) {
                        existing = Some(pos);
                    }
                    pos = pos + 1;
                }
                let ghost pos_new: int = match existing {
                    Some(e) => e as int,
                    None => old_result.len() as int,
                };
                let entry = (key, (states[idx].0.clone(), slot));
                match existing {
                    Some(e) => {
                        result.set(e, entry);
                    },
                    None => {
                        result.push(entry);
                    },
                }
                used.set(idx, true);
                proof {
                    let (m0, _, _) = allocation(sv, rq.take(q as int));
                    let m1 = m0.insert(rq[q as int], (sv[idx as int].0, slot_v));
                    assert(0 <= pos_new < result@.len());
                    assert(result@[pos_new].0@ == rq[q as int]);
                    assert(result@[pos_new].1.0@ == sv[idx as int].0);
                    assert(result@[pos_new].1.1@ == slot_v);
                    assert forall|a: int| 0 <= a < result@.len() && a != pos_new implies #[trigger] result@[a] == old_result[a]
                        && old_result[a].0@ != rq[q as int] by {
                    }
                    assert forall|key2: Seq<char>| m1.dom().contains(key2) <==> exists|a: int| 0 <= a < result@.len() && (#[trigger] result@[a]).0@ == key2 by {
                        if m0.dom().contains(key2) && key2 != rq[q as int] {
                            let a = choose|a: int| 0 <= a < old_result.len() && (#[trigger] old_result[a]).0@ == key2;
                            assert(a != pos_new);
                            assert(result@[a] == old_result[a]);
                        }
                        if key2 == rq[q as int] {
                            assert(result@[pos_new].0@ == key2);
                        }
                        if exists|a: int| 0 <= a < result@.len() && (#[trigger] result@[a]).0@ == key2 {
                            let a = choose|a: int| 0 <= a < result@.len() && (#[trigger] result@[a]).0@ == key2;
                            if a != pos_new {
                                assert(old_result[a].0@ == key2);
                            }
                        }
                    }
                    assert forall|a: int| 0 <= a < result@.len() implies m1[(#[trigger] result@[a]).0@] == (result@[a].1.0@, result@[a].1.1@) by {
                        if a != pos_new {
                            assert(result@[a] == old_result[a]);
                        }
                    }
                    used_set = used_set.insert(idx as int);
                }
            },
            None => {
                ok = false;
                proof {
                    assert(pick_slot(sv, used_set, rq[q as int]) is None);
                }
            },
        }
        q = q + 1;
    }
    assert(rq.take(rq.len() as int) =~= rq);
    if ok {
        Ok(result)
    } else {
        Err(AllocationError::InsufficientInstances)
    }
}

} // verus!
