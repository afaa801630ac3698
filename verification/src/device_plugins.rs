//! The two kinds of device plugin the agent serves: one per Instance, whose
//! virtual devices are the Instance's slots, and one per Configuration, whose
//! virtual devices stand for a slot of any of its Instances.
use vstd::prelude::*;
use crate::allocate::{
    ContainerAllocateResponse, InstanceDevice, configuration_container_response, distinct_instances,
    instance_container_response, instances_mounts, instances_specs, property_suffix, resource_annotations,
    resource_properties, resources_view, slot_annotations, suffix_keys,
};
use crate::device::{Device, device_specs_view, mounts_view};
use crate::device_plugin::{
    DeviceUsageStatus, HEALTHY, UNHEALTHY, devices_differ, gone_devices, healthy_devices, instance_slot_healthy,
    instance_virtual_devices, configuration_devices_to_report, prop_maps_equal, virtual_devices_changed,
};
use crate::keyed::KeyedMap;
use crate::node_usage::{UsageKindView, UsageView, format_usage};
use crate::props::PropMap;
use crate::text::{concat3, contains_string, decimal, push_str, string_from_chars, strings_view, u64_to_string};
use crate::virtual_devices::{available_virtual_devices, fresh_below, instances_view, instances_with_free_slot, offered_ids, reserved_vdev_ids};

verus! {

/// Prefix of the resource names Akri advertises to kubelet.
pub const AKRI_PREFIX: &'static str = "akri.sh";

/// The resource name kubelet knows an Instance's device plugin by: `akri.sh/<instance>`.
pub fn capability_id(instance_name: &str) -> (r: String)
    ensures
        r@ == AKRI_PREFIX@ + seq!['/'] + instance_name@,
{
    let r = concat3(AKRI_PREFIX, "/", instance_name);
    proof {
        reveal_strlit("/");
    }
    r
}

/// The socket name of a device plugin started at `unique_secs` (seconds since
/// the Unix epoch): `<instance>-<secs>.sock`.
pub fn device_endpoint(instance_name: &str, unique_secs: u64) -> (r: String)
    ensures
        r@ == instance_name@ + seq!['-'] + decimal(unique_secs as nat) + ".sock"@,
{
    let secs = u64_to_string(unique_secs);
    let mut v: Vec<char> = Vec::new();
    push_str(&mut v, instance_name);
    v.push('-');
    push_str(&mut v, secs.as_str());
    push_str(&mut v, ".sock");
    assert(v@ =~= instance_name@ + seq!['-'] + decimal(unique_secs as nat) + ".sock"@);
    string_from_chars(&v)
}

/// The device plugin of one Instance.
pub struct InstanceDevicePlugin {
    /// The Instance's id.
    pub instance_id: String,
    /// Whether the Instance's device can be seen by several nodes.
    pub shared: bool,
    /// The Instance's device.
    pub device: Device,
}

impl InstanceDevicePlugin {
    /// One round of `list_and_watch`: the virtual devices for the Instance's
    /// slots (healthy when free or held by this plugin), and whether they
    /// differ from those last sent, in which case they are sent.
    pub fn list_and_watch_step(&self, prev: &Vec<(String, String)>, states: &Vec<(String, DeviceUsageStatus)>) -> (r: (Vec<(String, String)>, bool))
        ensures
            r.0@.len() == states@.len(),
            forall|i: int| 0 <= i < r.0@.len() ==> {
                &&& (#[trigger] r.0@[i]).0@ == states@[i].0@
                &&& r.0@[i].1@ == (if instance_slot_healthy(states@[i].1@) { HEALTHY@ } else { UNHEALTHY@ })
            },
            r.1 == devices_differ(prev@, r.0@),
            forall|i: int| 0 <= i < r.0@.len() ==> ((#[trigger] r.0@[i]).1@ == "Healthy"@
                <==> (states@[i].1 is Free || states@[i].1 is ReservedByInstance)),
    {
        let current = instance_virtual_devices(states);
        let changed = virtual_devices_changed(prev, &current);
        (current, changed)
    }

    /// The answer for a container given the slots `slot_ids` of the Instance
    /// `instance_name` on `node_name`, once they are reserved.
    pub fn allocate_container(&self, slot_ids: &Vec<String>, node_name: &str, configuration_properties: &PropMap) -> (r: ContainerAllocateResponse)
        requires
            node_name@.len() > 0,
        ensures
            r.annotations@ == slot_annotations(
                strings_view(slot_ids@),
                format_usage(UsageView { kind: UsageKindView::Instance, node: node_name@ }),
            ),
            r.envs@ == (if slot_ids@.len() == 0 {
                configuration_properties@
            } else {
                configuration_properties@.union_prefer_right(suffix_keys(self.device.properties@, property_suffix(self.instance_id@)))
            }),
            mounts_view(r.mounts@) == (if slot_ids@.len() == 0 { Seq::empty() } else { mounts_view(self.device.mounts@) }),
            device_specs_view(r.devices@) == (if slot_ids@.len() == 0 { Seq::empty() } else { device_specs_view(self.device.device_specs@) }),
    {
        let r = instance_container_response(slot_ids, node_name, &self.device, self.instance_id.as_str(), configuration_properties);
        assert(strings_view(slot_ids@) == slot_ids@.map_values(|s: String| s@));
        r
    }
}

/// What a device plugin's `list_and_watch` hears while it waits between rounds.
#[derive(PartialEq, Eq, Structural, Clone, Copy, Debug)]
pub enum WatchMessage {
    /// Look at the devices again now.
    Continue,
    /// Stop serving.
    End,
    /// Nothing came within the polling interval.
    Timeout,
}

/// What `list_and_watch` does after waiting.
#[derive(PartialEq, Eq, Clone, Debug)]
pub enum WatchNext {
    /// Go on with the next round.
    Loop,
    /// Send kubelet these devices, if any, and end the service.
    End(Option<Vec<(String, String)>>),
}

/// What follows sending kubelet a device list.
#[derive(PartialEq, Eq, Structural, Clone, Copy, Debug)]
pub struct SendFollowUp {
    /// kubelet no longer listens: end this device plugin's service.
    pub end_service: bool,
    /// Forget the Instance, so that discovery starts a new device plugin for it.
    pub forget_instance: bool,
    /// Tell the Configuration device plugin that slot usage may have changed.
    pub notify_configuration_plugin: bool,
}

impl InstanceDevicePlugin {
    /// What `list_and_watch` does on `msg`, having last sent `prev`: on `End`,
    /// every device sent before is reported `Unhealthy` (nothing is sent when
    /// none was) and the service ends; otherwise the next round follows.
    pub fn on_watch_message(msg: WatchMessage, prev: &Vec<(String, String)>) -> (r: WatchNext)
        ensures
            msg != WatchMessage::End ==> r == WatchNext::Loop,
            msg == WatchMessage::End && prev@.len() == 0 ==> r == WatchNext::End(None),
            msg == WatchMessage::End && prev@.len() > 0 ==> (r matches WatchNext::End(Some(devices)) && {
                &&& devices@.len() == prev@.len()
                &&& forall|i: int| 0 <= i < devices@.len() ==> {
                    &&& (#[trigger] devices@[i]).0@ == prev@[i].0@
                    &&& devices@[i].1@ == UNHEALTHY@
                }
            }),
    {
        match msg {
            WatchMessage::End => if prev.len() == 0 {
                WatchNext::End(None)
            } else {
                WatchNext::End(Some(crate::device_plugin::unhealthy_devices(prev)))
            },
            _ => WatchNext::Loop,
        }
    }

    /// What follows sending kubelet the Instance's devices: when kubelet no
    /// longer listens, the Instance is forgotten and the service ends; otherwise
    /// the Configuration device plugin, if there is one, is told.
    pub fn after_kubelet_send(sent: bool, has_configuration_plugin: bool) -> (r: SendFollowUp)
        ensures
            r.end_service == !sent,
            r.forget_instance == !sent,
            r.notify_configuration_plugin == (sent && has_configuration_plugin),
    {
        SendFollowUp { end_service: !sent, forget_instance: !sent, notify_configuration_plugin: sent && has_configuration_plugin }
    }
}

impl ConfigurationDevicePlugin {
    /// What `list_and_watch` does on `msg`, having last offered `prev`: on `End`,
    /// every device offered before is reported `Unhealthy` (nothing is sent when
    /// none was) and the service ends; otherwise the next round follows.
    pub fn on_watch_message(&self, msg: WatchMessage, prev: &PropMap) -> (r: WatchNext)
        ensures
            msg != WatchMessage::End ==> r == WatchNext::Loop,
            msg == WatchMessage::End && prev@.dom().len() == 0 ==> r == WatchNext::End(None),
            msg == WatchMessage::End && prev@.dom().len() > 0 ==> r matches WatchNext::End(Some(_)),
            r matches WatchNext::End(Some(devices)) ==> forall|k: Seq<char>| #[trigger] prev@.dom().contains(k)
                <==> exists|i: int| 0 <= i < devices@.len() && (#[trigger] devices@[i]).0@ == k,
            r matches WatchNext::End(Some(devices)) ==> forall|i: int| 0 <= i < devices@.len() ==> (#[trigger] devices@[i]).1@ == UNHEALTHY@,
            r matches WatchNext::End(Some(devices)) ==> forall|a: int, b: int| 0 <= a < devices@.len() && 0 <= b < devices@.len() && a != b
                ==> #[trigger] devices@[a].0@ != #[trigger] devices@[b].0@,
    {
        if msg != WatchMessage::End {
            return WatchNext::Loop;
        }
        let n = prev.len();
        if n == 0 {
            return WatchNext::End(None);
        }
        prev.entries_denote_map();
        let ghost es = prev.entry_seq();
        let mut devices: Vec<(String, String)> = Vec::new();
        let mut i: usize = 0;
        while i < n
            invariant
                n == es.len(),
                es == prev.entry_seq(),
                crate::props::keys_distinct(es),
                i <= n,
                devices@.len() == i,
                forall|j: int| 0 <= j < i ==> (#[trigger] devices@[j]).0@ == es[j].0@ && devices@[j].1@ == UNHEALTHY@,
            decreases n - i,
        {
            let (k, _) = prev.entry(i);
            devices.push((k.clone(), crate::text::owned(UNHEALTHY)));
            i = i + 1;
        }
        proof {
            assert forall|k: Seq<char>| #[trigger] prev@.dom().contains(k) <==> exists|j: int| 0 <= j < devices@.len() && (#[trigger] devices@[j]).0@ == k by {
                crate::props::lemma_entries_map_dom(es, k);
                if prev@.dom().contains(k) {
                    let j = choose|j: int| 0 <= j < es.len() && es[j].0@ == k;
                    assert(devices@[j].0@ == k);
                }
            }
            assert forall|a: int, b: int| 0 <= a < devices@.len() && 0 <= b < devices@.len() && a != b
                implies #[trigger] devices@[a].0@ != #[trigger] devices@[b].0@ by {
                assert(devices@[a].0@ == es[a].0@ && devices@[b].0@ == es[b].0@);
            }
        }
        let ghost dv = devices@;
        let r = WatchNext::End(Some(devices));
        assert(r matches WatchNext::End(Some(d)) ==> d@ == dv);
        r
    }

    /// What follows sending kubelet the Configuration's devices: when kubelet
    /// no longer listens, the service ends.
    pub fn after_kubelet_send(&self, sent: bool) -> (r: SendFollowUp)
        ensures
            r.end_service == !sent,
            !r.forget_instance,
            !r.notify_configuration_plugin,
    {
        SendFollowUp { end_service: !sent, forget_instance: false, notify_configuration_plugin: false }
    }
}

/// Whom a device plugin's `allocate` tells, once it is over, to look at the
/// slots again.
#[derive(PartialEq, Eq, Clone, Debug)]
pub struct AllocateNotices {
    /// This plugin's own `list_and_watch`, so that kubelet gets its current devices again.
    pub continue_own_list_and_watch: bool,
    /// The Configuration device plugin's `list_and_watch`, whose offer depends on the slots.
    pub notify_configuration_plugin: bool,
    /// The device plugins of these Instances, whose slots were reserved.
    pub instances_to_notify: Vec<String>,
}

impl InstanceDevicePlugin {
    /// Whom `allocate` tells: when a slot could not be reserved, this plugin's
    /// own `list_and_watch` alone; when every slot was, the Configuration device
    /// plugin, if there is one.
    pub fn allocate_notices(succeeded: bool, has_configuration_plugin: bool) -> (n: AllocateNotices)
        ensures
            n.continue_own_list_and_watch == !succeeded,
            n.notify_configuration_plugin == (succeeded && has_configuration_plugin),
            n.instances_to_notify@.len() == 0,
    {
        AllocateNotices {
            continue_own_list_and_watch: !succeeded,
            notify_configuration_plugin: succeeded && has_configuration_plugin,
            instances_to_notify: Vec::new(),
        }
    }
}

/// The device plugin of one Configuration.
pub struct ConfigurationDevicePlugin {}

impl ConfigurationDevicePlugin {
    /// One round of `list_and_watch`: the virtual devices offered now (see
    /// `available_virtual_devices`), all healthy, and, when they differ from
    /// those last sent, the report to send: the devices gone, unhealthy, and the
    /// current ones.
    pub fn list_and_watch_step(&self, prev: &PropMap, states: &Vec<Vec<(String, DeviceUsageStatus)>>) -> (r: (PropMap, Option<PropMap>))
        ensures
            exists|bound: nat| {
                &&& #[trigger] fresh_below(reserved_vdev_ids(instances_view(states@)), bound).len()
                    == instances_with_free_slot(instances_view(states@))
                &&& fresh_below(reserved_vdev_ids(instances_view(states@)), bound).finite()
                &&& r.0@.dom() == offered_ids(reserved_vdev_ids(instances_view(states@)), bound)
            },
            forall|k: Seq<char>| #[trigger] r.0@.dom().contains(k) ==> r.0@[k] == HEALTHY@,
            r.1 is Some <==> r.0@ != prev@,
            r.1 matches Some(report) ==> report@ == gone_devices(prev@, r.0@).union_prefer_right(r.0@),
    {
        let ids = available_virtual_devices(states);
        let current = healthy_devices(&ids);
        proof {
            let b = choose|bound: nat| {
                &&& #[trigger] fresh_below(reserved_vdev_ids(instances_view(states@)), bound).len()
                    == instances_with_free_slot(instances_view(states@))
                &&& fresh_below(reserved_vdev_ids(instances_view(states@)), bound).finite()
                &&& strings_view(ids@).to_set() == offered_ids(reserved_vdev_ids(instances_view(states@)), bound)
            };
            assert forall|k: Seq<char>| current@.dom().contains(k) <==> strings_view(ids@).to_set().contains(k) by {
                if current@.dom().contains(k) {
                    let i = choose|i: int| 0 <= i < ids@.len() && ids@[i]@ == k;
                    assert(strings_view(ids@)[i] == k);
                }
                if strings_view(ids@).contains(k) {
                    let i = choose|i: int| 0 <= i < strings_view(ids@).len() && strings_view(ids@)[i] == k;
                    assert(ids@[i]@ == k);
                }
            }
            assert(current@.dom() =~= offered_ids(reserved_vdev_ids(instances_view(states@)), b));
        }
        if prop_maps_equal(&current, prev) {
            (current, None)
        } else {
            let report = configuration_devices_to_report(prev, &current);
            (current, Some(report))
        }
    }

    /// Whom `allocate` tells: when a virtual device could not be allocated,
    /// this plugin's own `list_and_watch` alone; when every one was, the device
    /// plugin of each Instance a slot was reserved in (`allocated`, in order of
    /// first reservation) that is still known, each once.
    pub fn allocate_notices(&self, succeeded: bool, allocated: &Vec<String>, known: &KeyedMap<InstanceDevice>) -> (n: AllocateNotices)
        ensures
            n.continue_own_list_and_watch == !succeeded,
            !n.notify_configuration_plugin,
            !succeeded ==> n.instances_to_notify@.len() == 0,
            succeeded ==> strings_view(n.instances_to_notify@).no_duplicates(),
            succeeded ==> forall|k: Seq<char>| #[trigger] strings_view(n.instances_to_notify@).contains(k)
                <==> (strings_view(allocated@).contains(k) && known@.dom().contains(k)),
    {
        let mut names: Vec<String> = Vec::new();
        if succeeded {
            let mut i: usize = 0;
            while i < allocated.len()
                invariant
                    i <= allocated@.len(),
                    strings_view(names@).no_duplicates(),
                    forall|k: Seq<char>| #[trigger] strings_view(names@).contains(k)
                        <==> (strings_view(allocated@).take(i as int).contains(k) && known@.dom().contains(k)),
                decreases allocated.len() - i,
            {
                let ghost before = strings_view(names@);
                let name = &allocated[i];
                if known.contains_key(name.as_str()) && !contains_string(&names, name.as_str()) {
                    names.push(name.clone());
                    assert(strings_view(names@) =~= before.push(name@));
                }
                proof {
                    let a = strings_view(allocated@);
                    let t0 = a.take(i as int);
                    let t1 = a.take(i as int + 1);
                    let now = strings_view(names@);
                    assert(t1 =~= t0.push(name@));
                    assert forall|k: Seq<char>| #[trigger] now.contains(k)
                        <==> (t1.contains(k) && known@.dom().contains(k)) by {
                        if now.contains(k) && k != name@ {
                            let j = choose|j: int| 0 <= j < now.len() && now[j] == k;
                            assert(before[j] == k);
                        }
                        if t1.contains(k) && k != name@ {
                            let j = choose|j: int| 0 <= j < t1.len() && t1[j] == k;
                            assert(t0[j] == k);
                        }
                        if before.contains(k) {
                            let j = choose|j: int| 0 <= j < before.len() && before[j] == k;
                            assert(now[j] == k);
                        }
                        if t0.contains(k) {
                            let j = choose|j: int| 0 <= j < t0.len() && t0[j] == k;
                            assert(t1[j] == k);
                        }
                        if k == name@ {
                            assert(t1[i as int] == k);
                            if now.len() > before.len() {
                                assert(now[before.len() as int] == k);
                            }
                        }
                    }
                }
                i = i + 1;
            }
            assert(strings_view(allocated@).take(allocated@.len() as int) =~= strings_view(allocated@));
        }
        AllocateNotices {
            continue_own_list_and_watch: !succeeded,
            notify_configuration_plugin: false,
            instances_to_notify: names,
        }
    }

    /// The answer for a container given `resources` (virtual device id,
    /// Instance name, slot) on `node_name`, once they are reserved; see
    /// `configuration_container_response`.
    pub fn allocate_container(
        &self,
        resources: &Vec<(String, (String, String))>,
        instances: &KeyedMap<InstanceDevice>,
        node_name: &str,
        configuration_properties: &PropMap,
    ) -> (r: Result<ContainerAllocateResponse, crate::allocate::AllocateError>)
        requires
            node_name@.len() > 0,
        ensures
            r is Err <==> exists|i: int| 0 <= i < resources@.len() && !instances@.dom().contains(#[trigger] resources@[i].1.0@),
            r matches Ok(resp) ==> {
                let rv = resources_view(resources@);
                &&& resp.annotations@ == resource_annotations(rv, node_name@)
                &&& resp.envs@ == configuration_properties@.union_prefer_right(resource_properties(rv, instances@))
                &&& mounts_view(resp.mounts@) == instances_mounts(distinct_instances(rv), instances@)
                &&& device_specs_view(resp.devices@) == instances_specs(distinct_instances(rv), instances@)
            },
    {
        configuration_container_response(resources, instances, node_name, configuration_properties)
    }
}

} // verus!
