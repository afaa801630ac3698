//! Decisions of the agent's device plugins: the state of each usage slot of an
//! Instance, which virtual devices to report to kubelet, and whether a slot can
//! be reserved for this node.
use vstd::prelude::*;
use crate::node_usage::{
    format_usage, parse_usage, usage_well_formed, DeviceUsageKind, NodeUsage, NodeUsageError, UsageKindView, UsageView,
};
use crate::props::PropMap;
use crate::text::{concat3, owned, dash_dots_and_slashes, dashed, decimal, u64_to_string};

verus! {

/// Health reported to kubelet for a usable virtual device.
pub const HEALTHY: &'static str = "Healthy";

/// Health reported to kubelet for a virtual device that cannot be used.
pub const UNHEALTHY: &'static str = "Unhealthy";

/// Prefix of the annotation key under which an allocated slot is recorded on a container.
pub const AKRI_SLOT_ANNOTATION_NAME_PREFIX: &'static str = "akri.agent.slot-";

/// Message sent to `list_and_watch`: what it should do upon being awoken.
#[derive(PartialEq, Eq, Structural, Clone, Copy, Debug)]
pub enum ListAndWatchMessageKind {
    /// Prematurely continue looping.
    Continue,
    /// Stop looping.
    End,
}

/// The state of one usage slot as seen from this node.
#[derive(PartialEq, Eq, Clone, Debug)]
pub enum DeviceUsageStatus {
    /// Free.
    Free,
    /// Reserved by the Configuration device plugin on this node, under a virtual device id.
    ReservedByConfiguration(String),
    /// Reserved by the Instance device plugin on this node.
    ReservedByInstance,
    /// Reserved by another node.
    ReservedByOtherNode,
    /// Not enough information to tell.
    Unknown,
}

/// Abstract value of a `DeviceUsageStatus`.
pub enum UsageStatusView {
    Free,
    ReservedByConfiguration(Seq<char>),
    ReservedByInstance,
    ReservedByOtherNode,
    Unknown,
}

impl View for DeviceUsageStatus {
    type V = UsageStatusView;

    open spec fn view(&self) -> UsageStatusView {
        match self {
            DeviceUsageStatus::Free => UsageStatusView::Free,
            DeviceUsageStatus::ReservedByConfiguration(v) => UsageStatusView::ReservedByConfiguration(v@),
            DeviceUsageStatus::ReservedByInstance => UsageStatusView::ReservedByInstance,
            DeviceUsageStatus::ReservedByOtherNode => UsageStatusView::ReservedByOtherNode,
            DeviceUsageStatus::Unknown => UsageStatusView::Unknown,
        }
    }
}

impl DeviceUsageStatus {
    /// A copy of the status.
    pub fn copy(&self) -> (s: DeviceUsageStatus)
        ensures
            s@ == self@,
    {
        match self {
            DeviceUsageStatus::Free => DeviceUsageStatus::Free,
            DeviceUsageStatus::ReservedByConfiguration(v) => DeviceUsageStatus::ReservedByConfiguration(v.clone()),
            DeviceUsageStatus::ReservedByInstance => DeviceUsageStatus::ReservedByInstance,
            DeviceUsageStatus::ReservedByOtherNode => DeviceUsageStatus::ReservedByOtherNode,
            DeviceUsageStatus::Unknown => DeviceUsageStatus::Unknown,
        }
    }
}

/// The state of a slot with usage `u`, as seen from `node`: free slots are
/// free, slots held by `node` keep their kind, slots held elsewhere are
/// reserved by another node.
pub open spec fn usage_state(u: UsageView, node: Seq<char>) -> UsageStatusView {
    match u.kind {
        UsageKindView::Free => UsageStatusView::Free,
        UsageKindView::Configuration(v) => if u.node == node {
            UsageStatusView::ReservedByConfiguration(v)
        } else {
            UsageStatusView::ReservedByOtherNode
        },
        UsageKindView::Instance => if u.node == node {
            UsageStatusView::ReservedByInstance
        } else {
            UsageStatusView::ReservedByOtherNode
        },
    }
}

/// The state of a slot whose usage string is `s`; unreadable strings give `Unknown`.
pub open spec fn usage_string_state(s: Seq<char>, node: Seq<char>) -> UsageStatusView {
    match parse_usage(s) {
        Some(u) => usage_state(u, node),
        None => UsageStatusView::Unknown,
    }
}

/// The state of the slot with usage `node_usage`, as seen from `node_name`.
pub fn get_device_usage_state(node_usage: &NodeUsage, node_name: &str) -> (s: DeviceUsageStatus)
    ensures
        s@ == usage_state(node_usage@, node_name@),
{
    let state = match node_usage.get_kind() {
        DeviceUsageKind::Free => DeviceUsageStatus::Free,
        DeviceUsageKind::Configuration(vdev_id) => DeviceUsageStatus::ReservedByConfiguration(vdev_id),
        DeviceUsageKind::Instance => DeviceUsageStatus::ReservedByInstance,
    };
    match state {
        DeviceUsageStatus::Free => state,
        _ => if !node_usage.is_same_node(node_name) {
            DeviceUsageStatus::ReservedByOtherNode
        } else {
            state
        },
    }
}

/// The state of the slot whose usage string is `usage`, as seen from `node_name`.
pub fn get_usage_string_state(usage: &str, node_name: &str) -> (s: DeviceUsageStatus)
    ensures
        s@ == usage_string_state(usage@, node_name@),
{
    match NodeUsage::parse(usage) {
        Ok(u) => get_device_usage_state(&u, node_name),
        Err(_) => DeviceUsageStatus::Unknown,
    }
}

/// Name of the slot with index `i` of Instance `instance_name`.
pub open spec fn slot_name(instance_name: Seq<char>, i: nat) -> Seq<char> {
    instance_name + seq!['-'] + decimal(i)
}

/// Distinct slots of an Instance have distinct names, each the Instance's name,
/// a dash and the slot's number in decimal.
pub proof fn lemma_slot_names_distinct(instance_name: Seq<char>, i: nat, j: nat)
    ensures
        slot_name(instance_name, i) == slot_name(instance_name, j) <==> i == j,
        slot_name(instance_name, i).subrange(0, instance_name.len() as int) == instance_name,
        slot_name(instance_name, i)[instance_name.len() as int] == '-',
{
    let a = slot_name(instance_name, i);
    let b = slot_name(instance_name, j);
    let n = instance_name.len() + 1;
    assert(a.subrange(0, instance_name.len() as int) =~= instance_name);
    if a == b {
        assert(a.subrange(n as int, a.len() as int) =~= decimal(i));
        assert(b.subrange(n as int, b.len() as int) =~= decimal(j));
        crate::text::lemma_decimal_injective(i, j);
    }
}

/// How a slot's usage string is seen from a node: an empty string is free; a
/// string a node wrote for its Instance device plugin, or for the Configuration
/// device plugin under a virtual device id, is seen as reserved that way by
/// that node and as reserved by another node from any other node.
pub proof fn lemma_usage_string_states(kind: UsageKindView, writer: Seq<char>, reader: Seq<char>)
    requires
        usage_well_formed(UsageView { kind, node: writer }),
    ensures
        usage_string_state(Seq::empty(), reader) == UsageStatusView::Free,
        kind is Instance ==> usage_string_state(format_usage(UsageView { kind, node: writer }), reader)
            == (if reader == writer { UsageStatusView::ReservedByInstance } else { UsageStatusView::ReservedByOtherNode }),
        kind matches UsageKindView::Configuration(v) ==> usage_string_state(format_usage(UsageView { kind, node: writer }), reader)
            == (if reader == writer { UsageStatusView::ReservedByConfiguration(v) } else { UsageStatusView::ReservedByOtherNode }),
{
    crate::node_usage::lemma_usage_round_trip(UsageView { kind, node: writer });
}

/// Builds the name of slot `i` of Instance `instance_name`.
pub fn make_slot_name(instance_name: &str, i: u64) -> (s: String)
    ensures
        s@ == slot_name(instance_name@, i as nat),
{
    let n = u64_to_string(i);
    let r = concat3(instance_name, "-", n.as_str());
    proof {
        reveal_strlit("-");
    }
    r
}

/// The state of every slot of an Instance as seen from `node_name`.
///
/// `device_usage` is the Instance's `device_usage` when the Instance was found;
/// then each of its slots comes with the state its usage string gives, in the
/// map's order. When the Instance was not found, each of its `capacity` slots
/// comes with the state `Unknown`.
pub fn get_instance_device_usage_states(
    node_name: &str,
    instance_name: &str,
    device_usage: Option<&PropMap>,
    capacity: i32,
) -> (states: Vec<(String, DeviceUsageStatus)>)
    ensures
        match device_usage {
            Some(m) => {
                &&& states@.len() == m.entry_seq().len()
                &&& forall|i: int| 0 <= i < states@.len() ==> {
                    &&& (#[trigger] states@[i]).0@ == m.entry_seq()[i].0@
                    &&& states@[i].1@ == usage_string_state(m.entry_seq()[i].1@, node_name@)
                }
            },
            None => {
                &&& states@.len() == (if capacity < 0 { 0 } else { capacity as int })
                &&& forall|i: int| 0 <= i < states@.len() ==> {
                    &&& (#[trigger] states@[i]).0@ == slot_name(instance_name@, i as nat)
                    &&& states@[i].1@ == UsageStatusView::Unknown
                }
            },
        },
{
    let mut states: Vec<(String, DeviceUsageStatus)> = Vec::new();
    match device_usage {
        Some(m) => {
            let n = m.len();
            let mut i: usize = 0;
            while i < n
                invariant
                    n == m.entry_seq().len(),
                    i <= n,
                    states@.len() == i,
                    forall|j: int| 0 <= j < i ==> {
                        &&& (#[trigger] states@[j]).0@ == m.entry_seq()[j].0@
                        &&& states@[j].1@ == usage_string_state(m.entry_seq()[j].1@, node_name@)
                    },
                decreases n - i,
            {
                let (k, v) = m.entry(i);
                let st = get_usage_string_state(v.as_str(), node_name);
                states.push((k.clone(), st));
                i = i + 1;
            }
        },
        None => {
            if capacity > 0 {
                let cap = capacity as u64;
                let mut x: u64 = 0;
                while x < cap
                    invariant
                        cap == capacity as int,
                        x <= cap,
                        states@.len() == x,
                        forall|j: int| 0 <= j < x ==> {
                            &&& (#[trigger] states@[j]).0@ == slot_name(instance_name@, j as nat)
                            &&& states@[j].1@ == UsageStatusView::Unknown
                        },
                    decreases cap - x,
                {
                    states.push((make_slot_name(instance_name, x), DeviceUsageStatus::Unknown));
                    x = x + 1;
                }
            }
        },
    }
    states
}

/// Health of a slot as reported by an Instance device plugin: usable when free
/// or already reserved by this Instance device plugin.
pub open spec fn instance_slot_healthy(s: UsageStatusView) -> bool {
    s is Free || s is ReservedByInstance
}

/// An Instance device plugin offers a slot only when it is free or held by
/// this node's Instance device plugin: a slot held by the Configuration device
/// plugin, by another node, or in an unknown state is not offered.
pub proof fn lemma_instance_plugin_offers_free_or_own_slots(s: UsageStatusView)
    ensures
        instance_slot_healthy(s) <==> !(s is ReservedByConfiguration || s is ReservedByOtherNode || s is Unknown),
        s is ReservedByConfiguration ==> !instance_slot_healthy(s),
{
}

/// Builds the virtual devices an Instance device plugin reports: one per slot,
/// with id the slot name and health `Healthy` or `Unhealthy`.
pub fn instance_virtual_devices(states: &Vec<(String, DeviceUsageStatus)>) -> (devices: Vec<(String, String)>)
    ensures
        devices@.len() == states@.len(),
        forall|i: int| 0 <= i < devices@.len() ==> {
            &&& (#[trigger] devices@[i]).0@ == states@[i].0@
            &&& devices@[i].1@ == (if instance_slot_healthy(states@[i].1@) { HEALTHY@ } else { UNHEALTHY@ })
        },
        forall|i: int| 0 <= i < devices@.len() ==> ((#[trigger] devices@[i]).1@ == "Healthy"@
            <==> (states@[i].1 is Free || states@[i].1 is ReservedByInstance)),
        forall|i: int| 0 <= i < devices@.len() && (states@[i].1 is ReservedByConfiguration
            || states@[i].1 is ReservedByOtherNode || states@[i].1 is Unknown) ==> (#[trigger] devices@[i]).1@ == "Unhealthy"@,
{
    proof {
        reveal_strlit("Healthy");
        reveal_strlit("Unhealthy");
    }
    let mut devices: Vec<(String, String)> = Vec::new();
    let mut i: usize = 0;
    while i < states.len()
        invariant
            i <= states@.len(),
            devices@.len() == i,
            forall|j: int| 0 <= j < i ==> {
                &&& (#[trigger] devices@[j]).0@ == states@[j].0@
                &&& devices@[j].1@ == (if instance_slot_healthy(states@[j].1@) { HEALTHY@ } else { UNHEALTHY@ })
            },
        decreases states.len() - i,
    {
        let health = match &states[i].1 {
            DeviceUsageStatus::Free | DeviceUsageStatus::ReservedByInstance => owned(HEALTHY),
            _ => owned(UNHEALTHY),
        };
        devices.push((states[i].0.clone(), health));
        i = i + 1;
    }
    devices
}

/// Whether the virtual device with id `id` and health `health` is in `list`.
pub open spec fn device_listed(id: Seq<char>, health: Seq<char>, list: Seq<(String, String)>) -> bool {
    exists|j: int| 0 <= j < list.len() && list[j].0@ == id && list[j].1@ == health
}

/// A list of virtual devices differs from the one last sent unless every
/// previous device is still listed and both lists have the same length.
pub open spec fn devices_differ(prev: Seq<(String, String)>, current: Seq<(String, String)>) -> bool {
    !(prev.len() == current.len() && forall|i: int| 0 <= i < prev.len() ==>
        device_listed((#[trigger] prev[i]).0@, prev[i].1@, current))
}

/// A list of virtual devices that was sent is not sent again while it stays the same.
pub proof fn lemma_unchanged_devices_not_resent(devices: Seq<(String, String)>)
    ensures
        !devices_differ(devices, devices),
{
    assert forall|i: int| 0 <= i < devices.len() implies device_listed((#[trigger] devices[i]).0@, devices[i].1@, devices) by {
        assert(devices[i].0@ == devices[i].0@ && devices[i].1@ == devices[i].1@);
    }
}

/// Whether a newly computed list of virtual devices differs from the one last sent.
pub fn virtual_devices_changed(prev: &Vec<(String, String)>, current: &Vec<(String, String)>) -> (changed: bool)
    ensures
        changed == devices_differ(prev@, current@),
{
    if prev.len() != current.len() {
        return true;
    }
    let mut i: usize = 0;
    while i < prev.len()
        invariant
            i <= prev@.len(),
            prev@.len() == current@.len(),
            forall|a: int| 0 <= a < i ==> device_listed((#[trigger] prev@[a]).0@, prev@[a].1@, current@),
        decreases prev.len() - i,
    {
        let mut j: usize = 0;
        let mut found = false;
        while j < current.len() && !found
            invariant
                i < prev@.len(),
                j <= current@.len(),
                found ==> 0 < j && prev@[i as int].0@ == current@[j - 1].0@ && prev@[i as int].1@ == current@[j - 1].1@,
                !found ==> forall|b: int| 0 <= b < j ==> !(prev@[i as int].0@ == current@[b].0@ && prev@[i as int].1@ == current@[b].1@),
            decreases current.len() - j,
        {
            if prev[i].0 == current[j].0 && prev[i].1 == current[j].1 {
                found = true;
            }
            j = j + 1;
        }
        if !found {
            proof {
                assert(!device_listed(prev@[i as int].0@, prev@[i as int].1@, current@));
            }
            return true;
        }
        proof {
            assert(device_listed(prev@[i as int].0@, prev@[i as int].1@, current@));
        }
        i = i + 1;
    }
    false
}

/// The devices sent to kubelet when `list_and_watch` is told to end: every
/// previously reported device, now `Unhealthy`.
pub fn unhealthy_devices(prev: &Vec<(String, String)>) -> (devices: Vec<(String, String)>)
    ensures
        devices@.len() == prev@.len(),
        forall|i: int| 0 <= i < devices@.len() ==> {
            &&& (#[trigger] devices@[i]).0@ == prev@[i].0@
            &&& devices@[i].1@ == UNHEALTHY@
        },
{
    let mut devices: Vec<(String, String)> = Vec::new();
    let mut i: usize = 0;
    while i < prev.len()
        invariant
            i <= prev@.len(),
            devices@.len() == i,
            forall|j: int| 0 <= j < i ==> {
                &&& (#[trigger] devices@[j]).0@ == prev@[j].0@
                &&& devices@[j].1@ == UNHEALTHY@
            },
        decreases prev.len() - i,
    {
        devices.push((prev[i].0.clone(), owned(UNHEALTHY)));
        i = i + 1;
    }
    devices
}

/// The unique name of a Configuration device plugin: the Configuration's name with
/// '.' and '/' replaced by '-'.
pub fn get_device_configuration_name(config_name: &str) -> (name: String)
    ensures
        name@ == dashed(config_name@),
{
    dash_dots_and_slashes(config_name)
}

/// The unique name of an Instance: `<config_name>-<id>` with '.' and '/' replaced by '-'.
pub fn get_device_instance_name(id: &str, config_name: &str) -> (name: String)
    ensures
        name@ == dashed(config_name@ + seq!['-'] + id@),
{
    let joined = concat3(config_name, "-", id);
    proof {
        reveal_strlit("-");
    }
    dash_dots_and_slashes(joined.as_str())
}

/// The properties of an Instance and the environment of its brokers: the
/// Configuration's broker properties overridden by the device's properties.
pub fn get_all_broker_properties(configuration_properties: &PropMap, device_properties: &PropMap) -> (all: PropMap)
    ensures
        all@ == configuration_properties@.union_prefer_right(device_properties@),
{
    let mut all = configuration_properties.clone_map();
    all.extend(device_properties);
    all
}

/// The specification of an Instance.
pub struct InstanceSpec {
    /// Name of the Instance's Configuration.
    pub configuration_name: String,
    /// Whether the device can be seen by several nodes.
    pub shared: bool,
    /// The nodes that can see the device.
    pub nodes: Vec<String>,
    /// The usage of each slot.
    pub device_usage: PropMap,
    /// The properties handed to brokers.
    pub broker_properties: PropMap,
}

/// The specification of an Instance created by the device plugin of `instance_name`
/// on `node_name`: this node alone, every slot free, and the Configuration's
/// broker properties overridden by the device's properties.
pub fn new_instance_spec(
    configuration_name: &str,
    shared: bool,
    node_name: &str,
    instance_name: &str,
    capacity: i32,
    configuration_properties: &PropMap,
    device_properties: &PropMap,
) -> (spec: InstanceSpec)
    ensures
        spec.configuration_name@ == configuration_name@,
        spec.shared == shared,
        spec.nodes@.map_values(|s: String| s@) == seq![node_name@],
        forall|k: Seq<char>| spec.device_usage@.dom().contains(k) <==> exists|i: nat| i < capacity && k == slot_name(instance_name@, i),
        forall|k: Seq<char>| #[trigger] spec.device_usage@.dom().contains(k) ==> spec.device_usage@[k] == Seq::<char>::empty(),
        spec.broker_properties@ == configuration_properties@.union_prefer_right(device_properties@),
{
    let mut nodes: Vec<String> = Vec::new();
    nodes.push(owned(node_name));
    assert(nodes@.map_values(|s: String| s@) =~= seq![node_name@]);
    InstanceSpec {
        configuration_name: owned(configuration_name),
        shared,
        nodes,
        device_usage: initial_device_usage(instance_name, capacity),
        broker_properties: get_all_broker_properties(configuration_properties, device_properties),
    }
}

/// The nodes of an existing Instance once this node joins: unchanged (none to
/// write) when the node is already listed, else the node appended.
pub fn nodes_including(nodes: &Vec<String>, node_name: &str) -> (r: Option<Vec<String>>)
    ensures
        r is None <==> nodes@.map_values(|s: String| s@).contains(node_name@),
        r matches Some(v) ==> v@.map_values(|s: String| s@) == nodes@.map_values(|s: String| s@).push(node_name@),
{
    if crate::text::contains_string(nodes, node_name) {
        assert(crate::text::strings_view(nodes@) == nodes@.map_values(|s: String| s@));
        return None;
    }
    assert(crate::text::strings_view(nodes@) == nodes@.map_values(|s: String| s@));
    let mut v: Vec<String> = Vec::new();
    let mut i: usize = 0;
    while i < nodes.len()
        invariant
            i <= nodes@.len(),
            v@.map_values(|s: String| s@) == nodes@.map_values(|s: String| s@).take(i as int),
        decreases nodes.len() - i,
    {
        let ghost before = v@;
        v.push(nodes[i].clone());
        assert(v@.map_values(|s: String| s@) =~= before.map_values(|s: String| s@).push(nodes@[i as int]@));
        assert(nodes@.map_values(|s: String| s@).take(i + 1) =~= nodes@.map_values(|s: String| s@).take(i as int).push(nodes@[i as int]@));
        i = i + 1;
    }
    let ghost before = v@;
    v.push(owned(node_name));
    assert(nodes@.map_values(|s: String| s@).take(nodes@.len() as int) =~= nodes@.map_values(|s: String| s@));
    assert(v@.map_values(|s: String| s@) =~= before.map_values(|s: String| s@).push(node_name@));
    Some(v)
}

/// The `device_usage` of a newly created Instance: each of its `capacity` slots, free.
pub fn initial_device_usage(instance_name: &str, capacity: i32) -> (usage: PropMap)
    ensures
        forall|k: Seq<char>| usage@.dom().contains(k) <==> exists|i: nat| i < capacity && k == slot_name(instance_name@, i),
        forall|k: Seq<char>| #[trigger] usage@.dom().contains(k) ==> usage@[k] == Seq::<char>::empty(),
{
    let mut usage = PropMap::new();
    if capacity > 0 {
        let cap = capacity as u64;
        let mut x: u64 = 0;
        while x < cap
            invariant
                cap == capacity as int,
                x <= cap,
                forall|k: Seq<char>| usage@.dom().contains(k) <==> exists|i: nat| i < x && k == slot_name(instance_name@, i),
                forall|k: Seq<char>| #[trigger] usage@.dom().contains(k) ==> usage@[k] == Seq::<char>::empty(),
            decreases cap - x,
        {
            let name = make_slot_name(instance_name, x);
            usage.insert(name, String::new());
            proof {
                assert forall|k: Seq<char>| usage@.dom().contains(k) <==> exists|i: nat| i < x + 1 && k == slot_name(instance_name@, i) by {
                    if k == slot_name(instance_name@, x as nat) {
                        assert(x < x + 1);
                    }
                    if exists|i: nat| i < x + 1 && k == slot_name(instance_name@, i) {
                        let i = choose|i: nat| i < x + 1 && k == slot_name(instance_name@, i);
                        if i < x {
                        }
                    }
                }
            }
            x = x + 1;
        }
    }
    usage
}

/// What to do with a slot that this node wants to reserve.
#[derive(PartialEq, Eq, Clone, Debug)]
pub enum SlotReservation {
    /// The slot is free: write this usage string into the Instance.
    Reserve(String),
    /// The slot is already reserved by this node for the requested kind.
    AlreadyReserved,
}

/// Why a slot cannot be reserved.
#[derive(PartialEq, Eq, Clone, Debug)]
pub enum SlotReservationError {
    /// The Instance has no slot with the requested id.
    SlotNotFound,
    /// The slot's usage string cannot be read.
    Unparsable,
    /// The new usage could not be made.
    CreateFailed(NodeUsageError),
    /// The slot is reserved by the Configuration device plugin on this node.
    InUseByConfiguration,
    /// The slot is reserved by an Instance device plugin on this node.
    InUseByInstance,
    /// The slot is reserved by another node.
    InUseByOtherNode,
}

/// Abstract outcome of a reservation decision.
pub enum ReservationView {
    Reserve(Seq<char>),
    AlreadyReserved,
    SlotNotFound,
    Unparsable,
    CreateFailed,
    InUseByConfiguration,
    InUseByInstance,
    InUseByOtherNode,
}

/// The outcome of this node (`node`) asking to reserve, with kind `desired`, a
/// slot whose current usage string is `current` (`None` when there is no such slot).
pub open spec fn reservation_outcome(current: Option<Seq<char>>, node: Seq<char>, desired: UsageKindView) -> ReservationView {
    match current {
        None => ReservationView::SlotNotFound,
        Some(s) => match parse_usage(s) {
            None => ReservationView::Unparsable,
            Some(u) => match usage_state(u, node) {
                UsageStatusView::Free => if (desired is Free && node.len() > 0) || (!(desired is Free) && node.len() == 0) {
                    ReservationView::CreateFailed
                } else {
                    ReservationView::Reserve(format_usage(UsageView { kind: desired, node }))
                },
                UsageStatusView::ReservedByConfiguration(_) => if desired is Configuration {
                    ReservationView::AlreadyReserved
                } else {
                    ReservationView::InUseByConfiguration
                },
                UsageStatusView::ReservedByInstance => if desired is Instance {
                    ReservationView::AlreadyReserved
                } else {
                    ReservationView::InUseByInstance
                },
                _ => ReservationView::InUseByOtherNode,
            },
        },
    }
}

/// Abstract value of a reservation decision.
pub open spec fn reservation_view(r: Result<SlotReservation, SlotReservationError>) -> ReservationView {
    match r {
        Ok(SlotReservation::Reserve(s)) => ReservationView::Reserve(s@),
        Ok(SlotReservation::AlreadyReserved) => ReservationView::AlreadyReserved,
        Err(SlotReservationError::SlotNotFound) => ReservationView::SlotNotFound,
        Err(SlotReservationError::Unparsable) => ReservationView::Unparsable,
        Err(SlotReservationError::CreateFailed(_)) => ReservationView::CreateFailed,
        Err(SlotReservationError::InUseByConfiguration) => ReservationView::InUseByConfiguration,
        Err(SlotReservationError::InUseByInstance) => ReservationView::InUseByInstance,
        Err(SlotReservationError::InUseByOtherNode) => ReservationView::InUseByOtherNode,
    }
}

/// A slot whose usage reads as free is reserved for any node and kind that
/// make a usage which reads back: the usage written reads as held by this node
/// with the requested kind.
pub proof fn lemma_free_slot_reserved(current: Seq<char>, node: Seq<char>, desired: UsageKindView)
    requires
        parse_usage(current) matches Some(u) && u.kind is Free,
        !(desired is Free),
        usage_well_formed(UsageView { kind: desired, node }),
    ensures
        reservation_outcome(Some(current), node, desired) matches ReservationView::Reserve(w)
            && parse_usage(w) == Some(UsageView { kind: desired, node }),
{
    crate::node_usage::lemma_usage_round_trip(UsageView { kind: desired, node });
}

/// A slot whose usage reads as held by another node is never reserved, for
/// any kind requested: the request is refused as in use by other nodes.
pub proof fn lemma_other_nodes_slot_refused(current: Seq<char>, node: Seq<char>, desired: UsageKindView)
    requires
        parse_usage(current) matches Some(u) && !(u.kind is Free) && u.node != node,
    ensures
        reservation_outcome(Some(current), node, desired) is InUseByOtherNode,
{
}

/// Decides whether node `node_name` can reserve, with kind `desired`, the slot
/// whose current usage string is `current`. A free slot is reserved; a slot this
/// node already holds is fine when the kind matches; anything else is refused.
pub fn decide_slot_reservation(current: Option<&String>, node_name: &str, desired: &DeviceUsageKind) -> (r: Result<SlotReservation, SlotReservationError>)
    ensures
        reservation_view(r) == reservation_outcome(
            match current { Some(s) => Some(s@), None => None },
            node_name@,
            desired@,
        ),
        current matches Some(s) && (parse_usage(s@) matches Some(u) && !(u.kind is Free) && u.node != node_name@)
            ==> r == Err::<SlotReservation, SlotReservationError>(SlotReservationError::InUseByOtherNode),
{
    let current = match current {
        None => return Err(SlotReservationError::SlotNotFound),
        Some(s) => s,
    };
    let usage = match NodeUsage::parse(current.as_str()) {
        Ok(u) => u,
        Err(_) => return Err(SlotReservationError::Unparsable),
    };
    match get_device_usage_state(&usage, node_name) {
        DeviceUsageStatus::Free => match NodeUsage::create(desired, node_name) {
            Ok(new_usage) => {
                assert(new_usage@ == UsageView { kind: desired@, node: node_name@ });
                Ok(SlotReservation::Reserve(new_usage.to_usage_string()))
            },
            Err(e) => Err(SlotReservationError::CreateFailed(e)),
        },
        DeviceUsageStatus::ReservedByConfiguration(_) => match desired {
            DeviceUsageKind::Configuration(_) => Ok(SlotReservation::AlreadyReserved),
            _ => Err(SlotReservationError::InUseByConfiguration),
        },
        DeviceUsageStatus::ReservedByInstance => match desired {
            DeviceUsageKind::Instance => Ok(SlotReservation::AlreadyReserved),
            _ => Err(SlotReservationError::InUseByInstance),
        },
        _ => Err(SlotReservationError::InUseByOtherNode),
    }
}

/// Reserving a free slot writes a usage that this node then sees as reserved by
/// itself with the requested kind, and asking again for the same slot, node and
/// kind finds it already reserved.
pub proof fn lemma_reservation_is_stable(current: Seq<char>, node: Seq<char>, desired: UsageKindView)
    requires
        reservation_outcome(Some(current), node, desired) is Reserve,
        !(desired is Free),
        match desired {
            UsageKindView::Configuration(v) => !v.contains(':'),
            UsageKindView::Instance => !crate::node_usage::has_config_shape(node),
            UsageKindView::Free => true,
        },
    ensures
        ({
            let written = reservation_outcome(Some(current), node, desired)->Reserve_0;
            &&& usage_string_state(written, node) == (match desired {
                UsageKindView::Configuration(v) => UsageStatusView::ReservedByConfiguration(v),
                _ => UsageStatusView::ReservedByInstance,
            })
            &&& reservation_outcome(Some(written), node, desired) is AlreadyReserved
        }),
{
    let u = UsageView { kind: desired, node };
    crate::node_usage::lemma_usage_round_trip(u);
}

/// A slot that this node already holds, recorded with a usage of kind `held`
/// that reads back, is granted again to a request of the same kind (Instance
/// for Instance, Configuration for Configuration, whatever the virtual device)
/// and refused to one of another kind; in neither case is anything written.
pub proof fn lemma_held_slot_outcome(node: Seq<char>, held: UsageKindView, desired: UsageKindView)
    requires
        usage_well_formed(UsageView { kind: held, node }),
        !(held is Free),
    ensures
        reservation_outcome(Some(format_usage(UsageView { kind: held, node })), node, desired) == (match held {
            UsageKindView::Configuration(_) => if desired is Configuration {
                ReservationView::AlreadyReserved
            } else {
                ReservationView::InUseByConfiguration
            },
            _ => if desired is Instance {
                ReservationView::AlreadyReserved
            } else {
                ReservationView::InUseByInstance
            },
        }),
{
    crate::node_usage::lemma_usage_round_trip(UsageView { kind: held, node });
}

/// The virtual devices a Configuration device plugin currently offers, all `Healthy`.
pub fn healthy_devices(ids: &Vec<String>) -> (devices: PropMap)
    ensures
        forall|k: Seq<char>| devices@.dom().contains(k) <==> exists|i: int| 0 <= i < ids@.len() && ids@[i]@ == k,
        forall|k: Seq<char>| #[trigger] devices@.dom().contains(k) ==> devices@[k] == HEALTHY@,
{
    let mut devices = PropMap::new();
    let mut i: usize = 0;
    while i < ids.len()
        invariant
            i <= ids@.len(),
            forall|k: Seq<char>| devices@.dom().contains(k) <==> exists|j: int| 0 <= j < i && ids@[j]@ == k,
            forall|k: Seq<char>| #[trigger] devices@.dom().contains(k) ==> devices@[k] == HEALTHY@,
        decreases ids.len() - i,
    {
        devices.insert(ids[i].clone(), owned(HEALTHY));
        proof {
            assert forall|k: Seq<char>| devices@.dom().contains(k) <==> exists|j: int| 0 <= j < i + 1 && ids@[j]@ == k by {
                if k == ids@[i as int]@ {
                    assert(0 <= i < i + 1);
                }
            }
        }
        i = i + 1;
    }
    devices
}

/// The devices previously reported that are no longer offered, marked `Unhealthy`.
pub open spec fn gone_devices(prev: Map<Seq<char>, Seq<char>>, current: Map<Seq<char>, Seq<char>>) -> Map<Seq<char>, Seq<char>> {
    Map::new(|k: Seq<char>| prev.dom().contains(k) && !current.dom().contains(k), |k: Seq<char>| UNHEALTHY@)
}

/// What a Configuration device plugin sends kubelet when its devices change:
/// the devices that are gone, `Unhealthy`, and the current ones.
pub fn configuration_devices_to_report(prev: &PropMap, current: &PropMap) -> (report: PropMap)
    ensures
        report@ == gone_devices(prev@, current@).union_prefer_right(current@),
{
    let mut report = PropMap::new();
    let n = prev.len();
    let mut i: usize = 0;
    prev.entries_denote_map();
    while i < n
        invariant
            n == prev.entry_seq().len(),
            i <= n,
            crate::props::keys_distinct(prev.entry_seq()),
            prev@ == crate::props::entries_map(prev.entry_seq()),
            forall|k: Seq<char>| report@.dom().contains(k) <==> (!current@.dom().contains(k) && exists|j: int| 0 <= j < i && prev.entry_seq()[j].0@ == k),
            forall|k: Seq<char>| #[trigger] report@.dom().contains(k) ==> report@[k] == UNHEALTHY@,
        decreases n - i,
    {
        let (k, _) = prev.entry(i);
        if !current.contains_key(k.as_str()) {
            report.insert(k.clone(), owned(UNHEALTHY));
        }
        proof {
            assert forall|key: Seq<char>| report@.dom().contains(key) <==> (!current@.dom().contains(key) && exists|j: int| 0 <= j < i + 1 && prev.entry_seq()[j].0@ == key) by {
                if key == prev.entry_seq()[i as int].0@ {
                    assert(0 <= i < i + 1);
                }
            }
        }
        i = i + 1;
    }
    proof {
        assert forall|k: Seq<char>| prev@.dom().contains(k) <==> exists|j: int| 0 <= j < n && prev.entry_seq()[j].0@ == k by {
            crate::props::lemma_entries_map_dom(prev.entry_seq(), k);
        }
        assert(report@ =~= gone_devices(prev@, current@));
    }
    report.extend(current);
    report
}

/// Whether two maps hold the same keys with the same values.
pub fn prop_maps_equal(a: &PropMap, b: &PropMap) -> (r: bool)
    ensures
        r == (a@ == b@),
{
    a.entries_denote_map();
    b.entries_denote_map();
    if a.len() != b.len() {
        return false;
    }
    let n = a.len();
    let mut i: usize = 0;
    while i < n
        invariant
            n == a.entry_seq().len(),
            n == a@.dom().len(),
            n == b@.dom().len(),
            i <= n,
            a@ == crate::props::entries_map(a.entry_seq()),
            a@.dom().finite(),
            b@.dom().finite(),
            forall|j: int| 0 <= j < i ==> b@.dom().contains(#[trigger] a.entry_seq()[j].0@) && b@[a.entry_seq()[j].0@] == a@[a.entry_seq()[j].0@],
        decreases n - i,
    {
        let (k, v) = a.entry(i);
        match b.get(k.as_str()) {
            Some(w) => {
                if !(*w == *v) {
                    return false;
                }
            },
            None => {
                return false;
            },
        }
        i = i + 1;
    }
    proof {
        assert forall|k: Seq<char>| #[trigger] a@.dom().contains(k) implies b@.dom().contains(k) && b@[k] == a@[k] by {
            crate::props::lemma_entries_map_dom(a.entry_seq(), k);
            let j = choose|j: int| 0 <= j < a.entry_seq().len() && a.entry_seq()[j].0@ == k;
            assert(b@.dom().contains(a.entry_seq()[j].0@));
        }
        assert(a@.dom().subset_of(b@.dom()));
        vstd::set_lib::lemma_subset_equality(a@.dom(), b@.dom());
        assert(a@ =~= b@);
    }
    true
}

} // verus!
