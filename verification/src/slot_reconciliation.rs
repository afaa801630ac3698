//! Keeps each Instance's `device_usage` in line with the slots that containers
//! on this node actually use.
//!
//! kubelet tells a device plugin when a slot is allocated but not when it is
//! released, and a slot can be in use while the Instance does not record it.
//! Periodically the agent lists the slot annotations of the containers on its
//! node; every slot in use is recorded for the container's usage, and a slot the
//! Instance records for this node that no container uses is freed once it has
//! stayed unused longer than a grace period.
use vstd::prelude::*;
use crate::keyed::KeyedMap;
use crate::node_usage::{format_usage, parse_usage, NodeUsage};
use crate::props::{entries_map, keys_distinct, lemma_entries_map_dom, lemma_entries_map_value, PropMap};
use crate::text::str_eq;

verus! {

/// A condition of a Pod's status.
pub struct PodCondition {
    /// `type`.
    pub type_: String,
    /// `status`.
    pub status: String,
    /// `reason`.
    pub reason: Option<String>,
}

/// A condition telling that a Pod's containers are not ready (and the Pod did not just complete).
pub open spec fn condition_unready(c: PodCondition) -> bool {
    &&& c.type_@ == "ContainersReady"@
    &&& c.status@ != "True"@
    &&& !(c.reason matches Some(r) && r@ == "PodCompleted"@)
}

/// Whether some Pod on the node has containers that are not ready; then slots
/// are not reconciled on this round.
pub fn any_unready_pods(pods: &Vec<Vec<PodCondition>>) -> (r: bool)
    ensures
        r == exists|i: int, j: int| 0 <= i < pods@.len() && 0 <= j < pods@[i]@.len() && condition_unready(#[trigger] pods@[i]@[j]),
{
    proof {
        reveal_strlit("ContainersReady");
        reveal_strlit("True");
        reveal_strlit("PodCompleted");
    }
    let mut i: usize = 0;
    while i < pods.len()
        invariant
            i <= pods@.len(),
            forall|a: int, b: int| 0 <= a < i && 0 <= b < pods@[a]@.len() ==> !condition_unready(#[trigger] pods@[a]@[b]),
        decreases pods.len() - i,
    {
        let conditions = &pods[i];
        let mut j: usize = 0;
        while j < conditions.len()
            invariant
                i < pods@.len(),
                conditions == pods@[i as int],
                j <= conditions@.len(),
                forall|b: int| 0 <= b < j ==> !condition_unready(#[trigger] conditions@[b]),
            decreases conditions.len() - j,
        {
            let c = &conditions[j];
            let completed = match &c.reason {
                Some(r) => str_eq(r.as_str(), "PodCompleted"),
                None => false,
            };
            if str_eq(c.type_.as_str(), "ContainersReady") && !str_eq(c.status.as_str(), "True") && !completed {
                assert(condition_unready(pods@[i as int]@[j as int]));
                return true;
            }
            j = j + 1;
        }
        i = i + 1;
    }
    false
}

/// Whether the usage string `v` records a slot held by `node`.
pub open spec fn held_by(v: Seq<char>, node: Seq<char>) -> bool {
    parse_usage(v) matches Some(u) && u.node == node
}

/// A slot that a container on this node uses but that the Instance does not record for this node.
pub open spec fn slot_missing(d: Map<Seq<char>, Seq<char>>, s: Map<Seq<char>, NodeUsage>, node: Seq<char>, k: Seq<char>) -> bool {
    d.dom().contains(k) && !held_by(d[k], node) && s.dom().contains(k)
}

/// A slot that the Instance records for this node but that no container on this node uses.
pub open spec fn slot_unused(d: Map<Seq<char>, Seq<char>>, s: Map<Seq<char>, NodeUsage>, node: Seq<char>, k: Seq<char>) -> bool {
    d.dom().contains(k) && held_by(d[k], node) && !s.dom().contains(k)
}

/// A slot first seen unused at time `r[k]` that has stayed unused longer than `grace`.
pub open spec fn slot_expired(r: Map<Seq<char>, u64>, k: Seq<char>, now: u64, grace: u64) -> bool {
    r.dom().contains(k) && r[k] <= now && now - r[k] > grace
}

/// A slot to free on this round.
pub open spec fn slot_to_clean(
    d: Map<Seq<char>, Seq<char>>,
    s: Map<Seq<char>, NodeUsage>,
    r: Map<Seq<char>, u64>,
    node: Seq<char>,
    k: Seq<char>,
    now: u64,
    grace: u64,
) -> bool {
    slot_unused(d, s, node, k) && slot_expired(r, k, now, grace)
}

/// The `device_usage` after reconciliation: missing slots get the container's
/// usage, slots to clean are freed, the rest are unchanged.
pub open spec fn reconciled_usage(
    d: Map<Seq<char>, Seq<char>>,
    s: Map<Seq<char>, NodeUsage>,
    r: Map<Seq<char>, u64>,
    node: Seq<char>,
    now: u64,
    grace: u64,
) -> Map<Seq<char>, Seq<char>> {
    Map::new(
        |k: Seq<char>| d.dom().contains(k),
        |k: Seq<char>|
            if slot_missing(d, s, node, k) {
                format_usage(s[k]@)
            } else if slot_to_clean(d, s, r, node, k, now, grace) {
                Seq::<char>::empty()
            } else {
                d[k]
            },
    )
}

/// Reconciliation never frees a slot that a container on this node uses: such a
/// slot keeps the Instance's record when it names this node, and gets the
/// container's usage otherwise; and a slot is freed only after staying unused
/// longer than the grace period.
pub proof fn lemma_used_slots_never_freed(
    d: Map<Seq<char>, Seq<char>>,
    s: Map<Seq<char>, NodeUsage>,
    r: Map<Seq<char>, u64>,
    node: Seq<char>,
    now: u64,
    grace: u64,
    k: Seq<char>,
)
    ensures
        d.dom().contains(k) && s.dom().contains(k) ==> reconciled_usage(d, s, r, node, now, grace)[k]
            == (if held_by(d[k], node) { d[k] } else { format_usage(s[k]@) }),
        slot_to_clean(d, s, r, node, k, now, grace) ==> r.dom().contains(k) && now - r[k] > grace && !s.dom().contains(k),
{
}

/// The record of when slots were first seen unused, after a round: every unused
/// slot not yet recorded is recorded at `now`.
pub open spec fn next_removal_map(
    d: Map<Seq<char>, Seq<char>>,
    s: Map<Seq<char>, NodeUsage>,
    r: Map<Seq<char>, u64>,
    node: Seq<char>,
    now: u64,
) -> Map<Seq<char>, u64> {
    Map::new(
        |k: Seq<char>| r.dom().contains(k) || slot_unused(d, s, node, k),
        |k: Seq<char>| if r.dom().contains(k) { r[k] } else { now },
    )
}

/// The record after the Instances of a round have been reconciled in turn,
/// starting from `r`: each step is an Instance's `device_usage`, whose unused
/// slots are recorded (`next_removal_map`), and the slots whose freeing was
/// then written for it, which are no longer tracked.
pub open spec fn round_removal_map(
    r: Map<Seq<char>, u64>,
    s: Map<Seq<char>, NodeUsage>,
    steps: Seq<(Map<Seq<char>, Seq<char>>, Set<Seq<char>>)>,
    node: Seq<char>,
    now: u64,
) -> Map<Seq<char>, u64>
    decreases steps.len(),
{
    if steps.len() == 0 {
        r
    } else {
        next_removal_map(steps.last().0, s, round_removal_map(r, s, steps.drop_last(), node, now), node, now)
            .remove_keys(steps.last().1)
    }
}

proof fn lemma_round_tracking(
    r: Map<Seq<char>, u64>,
    s: Map<Seq<char>, NodeUsage>,
    steps: Seq<(Map<Seq<char>, Seq<char>>, Set<Seq<char>>)>,
    node: Seq<char>,
    now: u64,
    k: Seq<char>,
)
    ensures
        !r.dom().contains(k) && s.dom().contains(k) ==> !round_removal_map(r, s, steps, node, now).dom().contains(k),
        !r.dom().contains(k) && round_removal_map(r, s, steps, node, now).dom().contains(k)
            ==> round_removal_map(r, s, steps, node, now)[k] == now,
    decreases steps.len(),
{
    if steps.len() > 0 {
        lemma_round_tracking(r, s, steps.drop_last(), node, now, k);
    }
}

/// Over a whole round of reconciliation (the slots in use `s` are first dropped
/// from the record `r0`, then each Instance of `steps` is reconciled in turn):
/// no slot in use is tracked as unused afterwards; each Instance's update keeps
/// every slot in use (the Instance's record when it names this node, else the
/// container's usage), never freeing it; and a slot that was not tracked when
/// the round began is not freed in this round: an unused one is recorded at
/// `now`, and only a later round, after the grace period, may free it.
pub proof fn lemma_round_never_frees_used_or_new_slots(
    r0: Map<Seq<char>, u64>,
    s: Map<Seq<char>, NodeUsage>,
    steps: Seq<(Map<Seq<char>, Seq<char>>, Set<Seq<char>>)>,
    node: Seq<char>,
    now: u64,
    grace: u64,
    i: int,
    k: Seq<char>,
)
    requires
        0 <= i < steps.len(),
    ensures
        ({
            let start = r0.remove_keys(s.dom());
            let before = round_removal_map(start, s, steps.take(i), node, now);
            let d = steps[i].0;
            &&& s.dom().contains(k) ==> !round_removal_map(start, s, steps, node, now).dom().contains(k)
            &&& d.dom().contains(k) && s.dom().contains(k) ==> reconciled_usage(d, s, before, node, now, grace)[k]
                == (if held_by(d[k], node) { d[k] } else { format_usage(s[k]@) })
            &&& !r0.dom().contains(k) ==> !slot_to_clean(d, s, before, node, k, now, grace)
            &&& !r0.dom().contains(k) && slot_unused(d, s, node, k) ==> next_removal_map(d, s, before, node, now).dom().contains(k)
                && next_removal_map(d, s, before, node, now)[k] == now
        }),
{
    let start = r0.remove_keys(s.dom());
    lemma_round_tracking(start, s, steps, node, now, k);
    lemma_round_tracking(start, s, steps.take(i), node, now, k);
}

/// Tracks, for each slot the node holds without using it, when it was first seen unused.
pub struct DevicePluginSlotReconciler {
    /// Slot name to the time (milliseconds of a monotonic clock) it was first seen unused.
    pub removal_slot_map: KeyedMap<u64>,
}

spec fn in_prefix<V>(es: Seq<(String, V)>, i: int, k: Seq<char>) -> bool {
    exists|j: int| 0 <= j < i && es[j].0@ == k
}

proof fn lemma_prefix_step<V>(es: Seq<(String, V)>, i: int, k: Seq<char>)
    requires
        0 <= i < es.len(),
    ensures
        in_prefix(es, i + 1, k) <==> (in_prefix(es, i, k) || k == es[i].0@),
{
    if in_prefix(es, i + 1, k) {
        let j = choose|j: int| 0 <= j < i + 1 && es[j].0@ == k;
        if j < i {
            assert(in_prefix(es, i, k));
        }
    }
    if in_prefix(es, i, k) {
        let j = choose|j: int| 0 <= j < i && es[j].0@ == k;
        assert(0 <= j < i + 1 && es[j].0@ == k);
    }
    if k == es[i].0@ {
        assert(0 <= i < i + 1 && es[i].0@ == k);
    }
}

spec fn listed(s: Seq<String>, i: int, k: Seq<char>) -> bool {
    exists|j: int| 0 <= j < i && s[j]@ == k
}

proof fn lemma_listed_step(s: Seq<String>, i: int, k: Seq<char>)
    requires
        0 <= i < s.len(),
    ensures
        listed(s, i + 1, k) <==> (listed(s, i, k) || k == s[i]@),
{
    if listed(s, i + 1, k) {
        let j = choose|j: int| 0 <= j < i + 1 && s[j]@ == k;
        if j < i {
            assert(listed(s, i, k));
        }
    }
    if listed(s, i, k) {
        let j = choose|j: int| 0 <= j < i && s[j]@ == k;
        assert(0 <= j < i + 1 && s[j]@ == k);
    }
    if k == s[i]@ {
        assert(0 <= i < i + 1 && s[i]@ == k);
    }
}

proof fn lemma_listed_push(s: Seq<String>, x: String, k: Seq<char>)
    ensures
        listed(s.push(x), s.len() as int + 1, k) <==> (listed(s, s.len() as int, k) || k == x@),
{
    let t = s.push(x);
    lemma_listed_step(t, s.len() as int, k);
    if listed(t, s.len() as int, k) {
        let j = choose|j: int| 0 <= j < s.len() && t[j]@ == k;
        assert(s[j] == t[j]);
    }
    if listed(s, s.len() as int, k) {
        let j = choose|j: int| 0 <= j < s.len() && s[j]@ == k;
        assert(s[j] == t[j]);
    }
}

impl DevicePluginSlotReconciler {
    /// No slot tracked.
    pub fn new() -> (r: DevicePluginSlotReconciler)
        ensures
            r.removal_slot_map@ == Map::<Seq<char>, u64>::empty(),
    {
        DevicePluginSlotReconciler { removal_slot_map: KeyedMap::new() }
    }

    /// Any slot found in use by a container is no longer tracked as unused.
    pub fn forget_used_slots(&mut self, node_slot_usage: &KeyedMap<NodeUsage>)
        ensures
            final(self).removal_slot_map@ == old(self).removal_slot_map@.remove_keys(node_slot_usage@.dom()),
    {
        let ghost start = self.removal_slot_map@;
        node_slot_usage.entries_denote_map();
        let n = node_slot_usage.len();
        let mut i: usize = 0;
        while i < n
            invariant
                n == node_slot_usage.entry_seq().len(),
                i <= n,
                node_slot_usage@ == crate::keyed::keyed_map(node_slot_usage.entry_seq()),
                forall|k: Seq<char>| #[trigger] self.removal_slot_map@.dom().contains(k) <==> (start.dom().contains(k)
                    && !in_prefix(node_slot_usage.entry_seq(), i as int, k)),
                forall|k: Seq<char>| #[trigger] self.removal_slot_map@.dom().contains(k) ==> self.removal_slot_map@[k] == start[k],
            decreases n - i,
        {
            let (slot, _) = node_slot_usage.entry(i);
            let ghost prev = self.removal_slot_map@;
            self.removal_slot_map.remove(slot.as_str());
            proof {
                assert forall|k: Seq<char>| #[trigger] self.removal_slot_map@.dom().contains(k) <==> (start.dom().contains(k)
                    && !in_prefix(node_slot_usage.entry_seq(), i + 1, k)) by {
                    lemma_prefix_step(node_slot_usage.entry_seq(), i as int, k);
                    assert(prev.dom().contains(k) <==> (start.dom().contains(k) && !in_prefix(node_slot_usage.entry_seq(), i as int, k)));
                }
                assert forall|k: Seq<char>| #[trigger] self.removal_slot_map@.dom().contains(k) implies self.removal_slot_map@[k] == start[k] by {
                    assert(prev.dom().contains(k));
                }
            }
            i = i + 1;
        }
        proof {
            assert forall|k: Seq<char>| node_slot_usage@.dom().contains(k) <==> in_prefix(node_slot_usage.entry_seq(), n as int, k) by {
                crate::keyed::lemma_keyed_dom(node_slot_usage.entry_seq(), k);
            }
            assert(self.removal_slot_map@ =~= start.remove_keys(node_slot_usage@.dom()));
        }
    }

    /// Slots freed by an Instance update that succeeded are no longer tracked.
    pub fn forget_cleaned_slots(&mut self, cleaned: &Vec<String>)
        ensures
            forall|k: Seq<char>| final(self).removal_slot_map@.dom().contains(k) <==> (old(self).removal_slot_map@.dom().contains(k)
                && !cleaned@.map_values(|c: String| c@).contains(k)),
            forall|k: Seq<char>| #[trigger] final(self).removal_slot_map@.dom().contains(k) ==> final(self).removal_slot_map@[k] == old(self).removal_slot_map@[k],
            final(self).removal_slot_map@ == old(self).removal_slot_map@.remove_keys(cleaned@.map_values(|c: String| c@).to_set()),
    {
        let ghost start = self.removal_slot_map@;
        let mut i: usize = 0;
        while i < cleaned.len()
            invariant
                i <= cleaned@.len(),
                forall|k: Seq<char>| #[trigger] self.removal_slot_map@.dom().contains(k) <==> (start.dom().contains(k)
                    && !listed(cleaned@, i as int, k)),
                forall|k: Seq<char>| #[trigger] self.removal_slot_map@.dom().contains(k) ==> self.removal_slot_map@[k] == start[k],
            decreases cleaned.len() - i,
        {
            let ghost prev = self.removal_slot_map@;
            self.removal_slot_map.remove(cleaned[i].as_str());
            proof {
                assert forall|k: Seq<char>| #[trigger] self.removal_slot_map@.dom().contains(k) <==> (start.dom().contains(k)
                    && !listed(cleaned@, i + 1, k)) by {
                    lemma_listed_step(cleaned@, i as int, k);
                    assert(prev.dom().contains(k) <==> (start.dom().contains(k) && !listed(cleaned@, i as int, k)));
                }
                assert forall|k: Seq<char>| #[trigger] self.removal_slot_map@.dom().contains(k) implies self.removal_slot_map@[k] == start[k] by {
                    assert(prev.dom().contains(k));
                }
            }
            i = i + 1;
        }
        proof {
            assert forall|k: Seq<char>| cleaned@.map_values(|c: String| c@).contains(k) <==> listed(cleaned@, cleaned@.len() as int, k) by {
                let mv = cleaned@.map_values(|c: String| c@);
                if mv.contains(k) {
                    let j = choose|j: int| 0 <= j < mv.len() && mv[j] == k;
                    assert(cleaned@[j]@ == k);
                }
                if listed(cleaned@, cleaned@.len() as int, k) {
                    let j = choose|j: int| 0 <= j < cleaned@.len() && cleaned@[j]@ == k;
                    assert(mv[j] == k);
                }
            }
            assert(self.removal_slot_map@ =~= start.remove_keys(cleaned@.map_values(|c: String| c@).to_set()));
        }
    }

    /// Reconciles one Instance whose `device_usage` is `device_usage`, given the
    /// slots used by containers on `node_name`, at time `now`.
    ///
    /// Every slot the Instance records for this node that no container uses is
    /// tracked from `now` on, if not tracked yet. When some slot is missing or
    /// must be cleaned, returns the new `device_usage` and the slots freed;
    /// otherwise returns `None` and the Instance stays as it is.
    pub fn reconcile_instance(
        &mut self,
        node_name: &str,
        device_usage: &PropMap,
        node_slot_usage: &KeyedMap<NodeUsage>,
        now: u64,
        grace: u64,
    ) -> (r: Option<(PropMap, Vec<String>)>)
        ensures
            final(self).removal_slot_map@ == next_removal_map(device_usage@, node_slot_usage@, old(self).removal_slot_map@, node_name@, now),
            r is None <==> forall|k: Seq<char>| !slot_missing(device_usage@, node_slot_usage@, node_name@, k)
                && !slot_to_clean(device_usage@, node_slot_usage@, old(self).removal_slot_map@, node_name@, k, now, grace),
            r matches Some((m, _)) ==> m@ == reconciled_usage(device_usage@, node_slot_usage@, old(self).removal_slot_map@, node_name@, now, grace),
            r matches Some((_, cleaned)) ==> forall|k: Seq<char>| cleaned@.map_values(|c: String| c@).contains(k)
                <==> slot_to_clean(device_usage@, node_slot_usage@, old(self).removal_slot_map@, node_name@, k, now, grace),
            r matches Some((_, cleaned)) ==> forall|a: int, b: int| 0 <= a < cleaned@.len() && 0 <= b < cleaned@.len() && a != b
                ==> cleaned@[a]@ != cleaned@[b]@,
    {
        let ghost d = device_usage@;
        let ghost s = node_slot_usage@;
        let ghost rm = self.removal_slot_map@;
        let ghost node = node_name@;
        device_usage.entries_denote_map();
        let ghost es = device_usage.entry_seq();
        let n = device_usage.len();
        let mut modified = PropMap::new();
        let mut cleaned: Vec<String> = Vec::new();
        let mut changed = false;
        let mut i: usize = 0;
        while i < n
            invariant
                n == es.len(),
                es == device_usage.entry_seq(),
                i <= n,
                keys_distinct(es),
                d == entries_map(es),
                d == device_usage@,
                s == node_slot_usage@,
                node == node_name@,
                forall|k: Seq<char>| #[trigger] modified@.dom().contains(k) <==> in_prefix(es, i as int, k),
                forall|k: Seq<char>| #[trigger] modified@.dom().contains(k) ==> modified@[k] == reconciled_usage(d, s, rm, node, now, grace)[k],
                forall|k: Seq<char>| #[trigger] self.removal_slot_map@.dom().contains(k) <==> (rm.dom().contains(k)
                    || (in_prefix(es, i as int, k) && slot_unused(d, s, node, k))),
                forall|k: Seq<char>| #[trigger] self.removal_slot_map@.dom().contains(k) ==>
                    self.removal_slot_map@[k] == (if rm.dom().contains(k) { rm[k] } else { now }),
                forall|k: Seq<char>| #[trigger] listed(cleaned@, cleaned@.len() as int, k)
                    <==> (in_prefix(es, i as int, k) && slot_to_clean(d, s, rm, node, k, now, grace)),
                forall|a: int| 0 <= a < cleaned@.len() ==> in_prefix(es, i as int, (#[trigger] cleaned@[a])@),
                forall|a: int, b: int| 0 <= a < cleaned@.len() && 0 <= b < cleaned@.len() && a != b ==> cleaned@[a]@ != cleaned@[b]@,
                changed <==> exists|k: Seq<char>| in_prefix(es, i as int, k) && (slot_missing(d, s, node, k) || slot_to_clean(d, s, rm, node, k, now, grace)),
            decreases n - i,
        {
            let (slot, usage) = device_usage.entry(i);
            let ghost k = slot@;
            proof {
                lemma_entries_map_value(es, i as int);
                assert(!in_prefix(es, i as int, k)) by {
                    if in_prefix(es, i as int, k) {
                        let j = choose|j: int| 0 <= j < i && es[j].0@ == k;
                        assert(es[j].0@ != es[i as int].0@);
                    }
                }
            }
            let held = match NodeUsage::parse(usage.as_str()) {
                Ok(u) => u.is_same_node(node_name),
                Err(_) => false,
            };
            assert(held == held_by(d[k], node));
            let in_use = node_slot_usage.get(slot.as_str());
            let ghost removal_before = self.removal_slot_map@;
            proof {
                assert(removal_before.dom().contains(k) <==> rm.dom().contains(k));
                if rm.dom().contains(k) {
                    assert(removal_before.dom().contains(k));
                    assert(removal_before[k] == rm[k]);
                }
            }
            let new_value: String;
            let mut is_cleaned = false;
            let mut is_missing = false;
            match in_use {
                Some(container_usage) => {
                    if !held {
                        new_value = container_usage.to_usage_string();
                        is_missing = true;
                    } else {
                        new_value = usage.clone();
                    }
                },
                None => {
                    if held {
                        let expired = match self.removal_slot_map.get(slot.as_str()) {
                            Some(t) => *t <= now && now - *t > grace,
                            None => {
                                self.removal_slot_map.insert(slot.clone(), now);
                                false
                            },
                        };
                        assert(expired == slot_expired(rm, k, now, grace));
                        if expired {
                            new_value = String::new();
                            is_cleaned = true;
                        } else {
                            new_value = usage.clone();
                        }
                    } else {
                        new_value = usage.clone();
                    }
                },
            }
            assert(is_missing == slot_missing(d, s, node, k));
            assert(is_cleaned == slot_to_clean(d, s, rm, node, k, now, grace));
            if is_missing || is_cleaned {
                changed = true;
            }
            proof {
                assert forall|kk: Seq<char>| #[trigger] self.removal_slot_map@.dom().contains(kk) <==> (rm.dom().contains(kk)
                    || (in_prefix(es, i as int + 1, kk) && slot_unused(d, s, node, kk))) by {
                    lemma_prefix_step(es, i as int, kk);
                    assert(removal_before.dom().contains(kk) <==> (rm.dom().contains(kk) || (in_prefix(es, i as int, kk) && slot_unused(d, s, node, kk))));
                }
                assert forall|kk: Seq<char>| #[trigger] self.removal_slot_map@.dom().contains(kk) implies
                    self.removal_slot_map@[kk] == (if rm.dom().contains(kk) { rm[kk] } else { now }) by {
                    if kk != k {
                        assert(removal_before.dom().contains(kk));
                    } else if removal_before.dom().contains(kk) {
                        assert(removal_before[kk] == (if rm.dom().contains(kk) { rm[kk] } else { now }));
                    }
                }
            }
            assert(new_value@ == reconciled_usage(d, s, rm, node, now, grace)[k]);
            modified.insert(slot.clone(), new_value);
            let ghost old_cleaned = cleaned@;
            if is_cleaned {
                cleaned.push(slot.clone());
            }
            proof {
                assert forall|kk: Seq<char>| in_prefix(es, i as int + 1, kk) <==> (in_prefix(es, i as int, kk) || kk == k) by {
                    lemma_prefix_step(es, i as int, kk);
                }
                if is_cleaned {
                    assert(cleaned@ == old_cleaned.push(cleaned@[cleaned@.len() - 1]));
                    assert forall|kk: Seq<char>| listed(cleaned@, cleaned@.len() as int, kk) <==> (listed(old_cleaned, old_cleaned.len() as int, kk) || kk == k) by {
                        lemma_listed_push(old_cleaned, cleaned@[cleaned@.len() - 1], kk);
                    }
                    assert forall|a: int, b: int| 0 <= a < cleaned@.len() && 0 <= b < cleaned@.len() && a != b implies cleaned@[a]@ != cleaned@[b]@ by {
                        if a == cleaned@.len() - 1 && b < a {
                            assert(cleaned@[b] == old_cleaned[b]);
                            assert(in_prefix(es, i as int, old_cleaned[b]@));
                        }
                        if b == cleaned@.len() - 1 && a < b {
                            assert(cleaned@[a] == old_cleaned[a]);
                            assert(in_prefix(es, i as int, old_cleaned[a]@));
                        }
                        if a < cleaned@.len() - 1 && b < cleaned@.len() - 1 {
                            assert(cleaned@[a] == old_cleaned[a]);
                            assert(cleaned@[b] == old_cleaned[b]);
                        }
                    }
                    assert forall|a: int| 0 <= a < cleaned@.len() implies in_prefix(es, i as int + 1, (#[trigger] cleaned@[a])@) by {
                        if a < cleaned@.len() - 1 {
                            assert(cleaned@[a] == old_cleaned[a]);
                            assert(in_prefix(es, i as int, old_cleaned[a]@));
                        }
                    }
                } else {
                    assert(cleaned@ == old_cleaned);
                }
                assert forall|kk: Seq<char>| #[trigger] listed(cleaned@, cleaned@.len() as int, kk)
                    <==> (in_prefix(es, i as int + 1, kk) && slot_to_clean(d, s, rm, node, kk, now, grace)) by {
                    lemma_prefix_step(es, i as int, kk);
                    assert(listed(old_cleaned, old_cleaned.len() as int, kk)
                        <==> (in_prefix(es, i as int, kk) && slot_to_clean(d, s, rm, node, kk, now, grace)));
                }
                if changed {
                    if is_missing || is_cleaned {
                        lemma_prefix_step(es, i as int, k);
                        assert(in_prefix(es, i as int + 1, k));
                    } else {
                        let kk = choose|kk: Seq<char>| in_prefix(es, i as int, kk) && (slot_missing(d, s, node, kk) || slot_to_clean(d, s, rm, node, kk, now, grace));
                        lemma_prefix_step(es, i as int, kk);
                        assert(in_prefix(es, i as int + 1, kk));
                    }
                } else {
                    assert forall|kk: Seq<char>| #[trigger] in_prefix(es, i as int + 1, kk) implies !(slot_missing(d, s, node, kk) || slot_to_clean(d, s, rm, node, kk, now, grace)) by {
                        lemma_prefix_step(es, i as int, kk);
                    }
                }
            }
            i = i + 1;
        }
        proof {
            assert forall|k: Seq<char>| d.dom().contains(k) <==> in_prefix(es, n as int, k) by {
                lemma_entries_map_dom(es, k);
            }
            assert(self.removal_slot_map@ =~= next_removal_map(d, s, rm, node, now));
            if changed {
                assert(modified@ =~= reconciled_usage(d, s, rm, node, now, grace));
                assert forall|k: Seq<char>| cleaned@.map_values(|c: String| c@).contains(k) <==> listed(cleaned@, cleaned@.len() as int, k) by {
                    let mv = cleaned@.map_values(|c: String| c@);
                    if mv.contains(k) {
                        let j = choose|j: int| 0 <= j < mv.len() && mv[j] == k;
                        assert(cleaned@[j]@ == k);
                    }
                    if listed(cleaned@, cleaned@.len() as int, k) {
                        let j = choose|j: int| 0 <= j < cleaned@.len() && cleaned@[j]@ == k;
                        assert(mv[j] == k);
                    }
                }
            }
        }
        if changed {
            proof {
                assert forall|k: Seq<char>| cleaned@.map_values(|c: String| c@).contains(k)
                    <==> slot_to_clean(d, s, rm, node, k, now, grace) by {
                    lemma_entries_map_dom(es, k);
                    assert(cleaned@.map_values(|c: String| c@).contains(k) <==> listed(cleaned@, cleaned@.len() as int, k));
                    assert(listed(cleaned@, cleaned@.len() as int, k)
                        <==> (in_prefix(es, i as int, k) && slot_to_clean(d, s, rm, node, k, now, grace)));
                }
            }
            Some((modified, cleaned))
        } else {
            proof {
                assert forall|k: Seq<char>| !slot_missing(d, s, node, k) && !slot_to_clean(d, s, rm, node, k, now, grace) by {
                    if slot_missing(d, s, node, k) || slot_to_clean(d, s, rm, node, k, now, grace) {
                        lemma_entries_map_dom(es, k);
                        assert(in_prefix(es, n as int, k));
                        assert(in_prefix(es, i as int, k) && (slot_missing(d, s, node, k) || slot_to_clean(d, s, rm, node, k, now, grace)));
                    }
                }
            }
            None
        }
    }
}

} // verus!
