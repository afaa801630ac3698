//! How the controller follows Nodes: when a Node that was Running disappears,
//! the Instances that reference it are cleaned of it once.
use vstd::prelude::*;
use crate::node_usage::{NodeUsage, parse_usage};
use crate::props::{PropMap, entries_map, keys_distinct};
use crate::text::str_eq;

verus! {

/// Finalizer the Node watcher puts on Nodes.
pub const NODE_FINALIZER: &'static str = "nodes.kube.rs";

/// What the controller last saw of a Node.
#[derive(PartialEq, Eq, Structural, Clone, Copy, Debug)]
pub enum NodeState {
    /// The Node has been seen, but not Running yet.
    Known,
    /// The Node has been seen Running.
    Running,
    /// A Node seen Running was then seen not Running, and the Instances were
    /// cleaned of references to it.
    InstancesCleaned,
}

/// One condition of a Node's status.
pub struct NodeCondition {
    pub condition_type: String,
    pub status: String,
}

/// A Node is ready when its last condition is `Ready` with status `True`.
pub open spec fn node_ready(conditions: Seq<NodeCondition>) -> bool {
    conditions.len() > 0 && conditions.last().condition_type@ == "Ready"@ && conditions.last().status@ == "True"@
}

/// Whether a Node is ready, from its status conditions.
pub fn is_node_ready(conditions: &Vec<NodeCondition>) -> (r: bool)
    ensures
        r == node_ready(conditions@),
{
    let n = conditions.len();
    if n == 0 {
        return false;
    }
    let last = &conditions[n - 1];
    str_eq(last.condition_type.as_str(), "Ready") && str_eq(last.status.as_str(), "True")
}

/// What happened to a Node.
#[derive(PartialEq, Eq, Structural, Clone, Copy, Debug)]
pub enum NodeEvent {
    /// The Node was added or changed; whether it is ready.
    Applied(bool),
    /// The Node is being deleted.
    Deleted,
}

/// What the Node watcher does for an event: whether the Instances must be
/// cleaned of the Node, and the Node's state afterwards (none: forgotten).
#[derive(PartialEq, Eq, Structural, Clone, Copy, Debug)]
pub struct NodeStep {
    pub clean_instances: bool,
    pub next: Option<NodeState>,
}

/// The step for an event on a Node last known in `known` (none: never seen).
///
/// A ready Node is Running. A Node seen for the first time not ready is Known.
/// A Node that disappears (seen again not ready, or deleted) has its Instances
/// cleaned when it was last Running, a deleted Node never seen counting as
/// Running; then a Node seen not ready is InstancesCleaned, and a deleted Node
/// is forgotten.
pub open spec fn node_step(known: Option<NodeState>, event: NodeEvent) -> NodeStep {
    match event {
        NodeEvent::Applied(true) => NodeStep { clean_instances: false, next: Some(NodeState::Running) },
        NodeEvent::Applied(false) => match known {
            None => NodeStep { clean_instances: false, next: Some(NodeState::Known) },
            Some(s) => if s == NodeState::Running {
                NodeStep { clean_instances: true, next: Some(NodeState::InstancesCleaned) }
            } else {
                NodeStep { clean_instances: false, next: Some(s) }
            },
        },
        NodeEvent::Deleted => NodeStep {
            clean_instances: known is None || known == Some(NodeState::Running),
            next: None,
        },
    }
}

/// What to do for an event on a Node last known in `known`.
pub fn next_node_step(known: Option<NodeState>, event: NodeEvent) -> (s: NodeStep)
    ensures
        s == node_step(known, event),
{
    match event {
        NodeEvent::Applied(true) => NodeStep { clean_instances: false, next: Some(NodeState::Running) },
        NodeEvent::Applied(false) => match known {
            None => NodeStep { clean_instances: false, next: Some(NodeState::Known) },
            Some(NodeState::Running) => NodeStep { clean_instances: true, next: Some(NodeState::InstancesCleaned) },
            Some(s) => NodeStep { clean_instances: false, next: Some(s) },
        },
        NodeEvent::Deleted => {
            let last = match known {
                Some(s) => s,
                None => NodeState::Running,
            };
            NodeStep { clean_instances: last == NodeState::Running, next: None }
        },
    }
}

/// Instances are cleaned of a Node once per time it is seen Running: after a
/// step that cleans, a Node seen again not ready is not cleaned again; and a
/// Node never seen Running is not cleaned when it is seen not ready.
pub proof fn lemma_node_cleaned_once(known: Option<NodeState>, event: NodeEvent)
    ensures
        node_step(known, event).clean_instances ==> (node_step(known, event).next matches Some(s)
            ==> !node_step(Some(s), NodeEvent::Applied(false)).clean_instances),
        known != Some(NodeState::Running) ==> !node_step(known, NodeEvent::Applied(false)).clean_instances,
{
}

/// The Node watcher's rules: a ready Node is Running and nothing is cleaned;
/// Instances are cleaned of a Node exactly when it is seen not ready after
/// being seen Running, or deleted when it was Running or never seen; a Node
/// first seen not ready is Known; a deleted Node is forgotten.
pub proof fn lemma_node_watch_rules(known: Option<NodeState>, ready: bool)
    ensures
        ready ==> node_step(known, NodeEvent::Applied(ready)) == (NodeStep { clean_instances: false, next: Some(NodeState::Running) }),
        !ready ==> (node_step(known, NodeEvent::Applied(ready)).clean_instances <==> known == Some(NodeState::Running)),
        !ready && known is None ==> node_step(known, NodeEvent::Applied(ready)).next == Some(NodeState::Known),
        !ready && known == Some(NodeState::Running) ==> node_step(known, NodeEvent::Applied(ready)).next == Some(NodeState::InstancesCleaned),
        node_step(known, NodeEvent::Deleted).clean_instances <==> (known is None || known == Some(NodeState::Running)),
        (node_step(known, NodeEvent::Deleted).next is None),
{
}

/// A Node is ready exactly when its last status condition says `Ready` is
/// `True`, whatever the conditions before it say; a Node without conditions is
/// not ready.
pub proof fn lemma_node_ready_rules(conditions: Seq<NodeCondition>, last: NodeCondition)
    ensures
        !node_ready(Seq::empty()),
        node_ready(conditions.push(last)) <==> (last.condition_type@ == "Ready"@ && last.status@ == "True"@),
{
    assert(conditions.push(last).last() == last);
}

/// The nodes of a list other than `vanished`, in order.
pub open spec fn without_node(nodes: Seq<Seq<char>>, vanished: Seq<char>) -> Seq<Seq<char>>
    decreases nodes.len(),
{
    if nodes.len() == 0 {
        Seq::empty()
    } else {
        let rest = without_node(nodes.drop_last(), vanished);
        if nodes.last() == vanished {
            rest
        } else {
            rest.push(nodes.last())
        }
    }
}

/// A slot usage with a vanished node's reservation freed: a usage that reads
/// as held by `vanished` becomes free (the empty string); any other, unreadable
/// ones included, is kept.
pub open spec fn cleared_usage(usage: Seq<char>, vanished: Seq<char>) -> Seq<char> {
    match parse_usage(usage) {
        Some(u) => if u.node == vanished { Seq::empty() } else { usage },
        None => usage,
    }
}

/// A device usage map with every reservation by `vanished` freed.
pub open spec fn clear_node_usages(m: Map<Seq<char>, Seq<char>>, vanished: Seq<char>) -> Map<Seq<char>, Seq<char>> {
    Map::new(|k: Seq<char>| m.dom().contains(k), |k: Seq<char>| cleared_usage(m[k], vanished))
}

/// An Instance's nodes and device usage with a vanished node removed: the node
/// leaves the list, and the slots it held become free.
pub fn remove_node_from_instance(nodes: &Vec<String>, device_usage: &PropMap, vanished_node_name: &str) -> (r: (Vec<String>, PropMap))
    ensures
        r.0@.map_values(|s: String| s@) == without_node(nodes@.map_values(|s: String| s@), vanished_node_name@),
        r.1@ == clear_node_usages(device_usage@, vanished_node_name@),
{
    let ghost nv = nodes@.map_values(|s: String| s@);
    let mut kept: Vec<String> = Vec::new();
    let mut i: usize = 0;
    while i < nodes.len()
        invariant
            nv == nodes@.map_values(|s: String| s@),
            i <= nodes@.len(),
            kept@.map_values(|s: String| s@) == without_node(nv.take(i as int), vanished_node_name@),
        decreases nodes.len() - i,
    {
        assert(nv.take(i + 1).drop_last() =~= nv.take(i as int));
        assert(nv.take(i + 1).last() == nodes@[i as int]@);
        if !str_eq(nodes[i].as_str(), vanished_node_name) {
            let ghost before = kept@;
            kept.push(nodes[i].clone());
            assert(kept@.map_values(|s: String| s@) =~= before.map_values(|s: String| s@).push(nodes@[i as int]@));
        }
        i = i + 1;
    }
    assert(nv.take(nodes@.len() as int) =~= nv);
    device_usage.entries_denote_map();
    let ghost es = device_usage.entry_seq();
    let mut usage = PropMap::new();
    let mut j: usize = 0;
    while j < device_usage.len()
        invariant
            es == device_usage.entry_seq(),
            keys_distinct(es),
            device_usage@ == entries_map(es),
            j <= es.len(),
            usage@ == clear_node_usages(entries_map(es.take(j as int)), vanished_node_name@),
        decreases es.len() - j,
    {
        let (slot, value) = device_usage.entry(j);
        assert(es.take(j + 1).drop_last() =~= es.take(j as int));
        assert(es.take(j + 1).last() == es[j as int]);
        let freed = match NodeUsage::parse(value.as_str()) {
            Ok(u) => u.is_same_node(vanished_node_name),
            Err(_) => false,
        };
        let ghost before = usage@;
        if freed {
            usage.insert(slot.clone(), String::new());
        } else {
            usage.insert(slot.clone(), value.clone());
        }
        assert(usage@ =~= clear_node_usages(entries_map(es.take(j + 1)), vanished_node_name@));
        j = j + 1;
    }
    assert(es.take(es.len() as int) =~= es);
    (kept, usage)
}

} // verus!
