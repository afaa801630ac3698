//! What a device plugin answers kubelet for one container once the slots it
//! asked for are reserved: the slot annotations, the broker environment, and
//! the mounts and device nodes of the devices behind those slots.
use vstd::prelude::*;
use crate::device::{Device, DeviceSpec, Mount, device_specs_view, mounts_view};
use crate::device_plugin::{AKRI_SLOT_ANNOTATION_NAME_PREFIX, get_all_broker_properties};
use crate::keyed::KeyedMap;
use crate::node_usage::{DeviceUsageKind, NodeUsage, UsageKindView, UsageView, format_usage};
use crate::props::{PropMap, entries_map};
use crate::text::{concat2, str_eq};

verus! {

/// The answer for one container.
pub struct ContainerAllocateResponse {
    /// Annotations recording the slots the container holds.
    pub annotations: PropMap,
    /// Paths mounted into the container.
    pub mounts: Vec<Mount>,
    /// Device nodes exposed to the container.
    pub devices: Vec<DeviceSpec>,
    /// Environment variables of the container.
    pub envs: PropMap,
}

/// The mounts of the devices, in order.
pub open spec fn devices_mounts(ds: Seq<Device>) -> Seq<(Seq<char>, Seq<char>, bool)>
    decreases ds.len(),
{
    if ds.len() == 0 {
        Seq::empty()
    } else {
        devices_mounts(ds.drop_last()) + mounts_view(ds.last().mounts@)
    }
}

/// The device nodes of the devices, in order.
pub open spec fn devices_specs(ds: Seq<Device>) -> Seq<(Seq<char>, Seq<char>, Seq<char>)>
    decreases ds.len(),
{
    if ds.len() == 0 {
        Seq::empty()
    } else {
        devices_specs(ds.drop_last()) + device_specs_view(ds.last().device_specs@)
    }
}

/// The answer for a container: the broker properties as its environment, the
/// annotations, and the mounts and device nodes of every device, in order.
pub fn build_container_allocate_response(broker_properties: PropMap, annotations: PropMap, devices: &Vec<Device>) -> (r: ContainerAllocateResponse)
    ensures
        r.envs@ == broker_properties@,
        r.annotations@ == annotations@,
        mounts_view(r.mounts@) == devices_mounts(devices@),
        device_specs_view(r.devices@) == devices_specs(devices@),
{
    let mut mounts: Vec<Mount> = Vec::new();
    let mut specs: Vec<DeviceSpec> = Vec::new();
    let mut i: usize = 0;
    while i < devices.len()
        invariant
            i <= devices@.len(),
            mounts_view(mounts@) == devices_mounts(devices@.take(i as int)),
            device_specs_view(specs@) == devices_specs(devices@.take(i as int)),
        decreases devices.len() - i,
    {
        assert(devices@.take(i + 1).drop_last() =~= devices@.take(i as int));
        assert(devices@.take(i + 1).last() == devices@[i as int]);
        let device = &devices[i];
        let ghost m0 = mounts_view(mounts@);
        let mut j: usize = 0;
        while j < device.mounts.len()
            invariant
                j <= device.mounts@.len(),
                mounts_view(mounts@) == m0 + mounts_view(device.mounts@).take(j as int),
            decreases device.mounts.len() - j,
        {
            let ghost before = mounts@;
            mounts.push(device.mounts[j].copy());
            assert(mounts_view(mounts@) =~= mounts_view(before).push(mounts_view(device.mounts@)[j as int]));
            assert(mounts_view(device.mounts@).take(j + 1) =~= mounts_view(device.mounts@).take(j as int).push(mounts_view(device.mounts@)[j as int]));
            j = j + 1;
        }
        assert(mounts_view(device.mounts@).take(device.mounts@.len() as int) =~= mounts_view(device.mounts@));
        let ghost s0 = device_specs_view(specs@);
        let mut k: usize = 0;
        while k < device.device_specs.len()
            invariant
                k <= device.device_specs@.len(),
                device_specs_view(specs@) == s0 + device_specs_view(device.device_specs@).take(k as int),
            decreases device.device_specs.len() - k,
        {
            let ghost before = specs@;
            specs.push(device.device_specs[k].copy());
            assert(device_specs_view(specs@) =~= device_specs_view(before).push(device_specs_view(device.device_specs@)[k as int]));
            assert(device_specs_view(device.device_specs@).take(k + 1)
                =~= device_specs_view(device.device_specs@).take(k as int).push(device_specs_view(device.device_specs@)[k as int]));
            k = k + 1;
        }
        assert(device_specs_view(device.device_specs@).take(device.device_specs@.len() as int) =~= device_specs_view(device.device_specs@));
        i = i + 1;
    }
    assert(devices@.take(devices@.len() as int) =~= devices@);
    ContainerAllocateResponse { annotations, mounts, devices: specs, envs: broker_properties }
}

/// `s` in upper case, as `str::to_uppercase` maps it (Unicode case mapping).
pub uninterp spec fn upper_case(s: Seq<char>) -> Seq<char>;

/// Upper-cases `s` with `str::to_uppercase`. The Unicode case mapping is not
/// restated here: the result is only named.
#[verifier::external_body]
fn to_upper(s: &str) -> (r: String)
    ensures
        r@ == upper_case(s@),
{
    s.to_uppercase()
}

/// The suffix added to the properties of the device of Instance `instance_id`:
/// `_` and the id in upper case.
pub open spec fn property_suffix(instance_id: Seq<char>) -> Seq<char> {
    seq!['_'] + upper_case(instance_id)
}

/// `m` with `suffix` appended to every key.
pub open spec fn suffix_keys(m: Map<Seq<char>, Seq<char>>, suffix: Seq<char>) -> Map<Seq<char>, Seq<char>> {
    Map::new(
        |key: Seq<char>| key.len() >= suffix.len() && key.subrange(key.len() - suffix.len(), key.len() as int) == suffix
            && m.dom().contains(key.subrange(0, key.len() - suffix.len())),
        |key: Seq<char>| m[key.subrange(0, key.len() - suffix.len())],
    )
}

proof fn lemma_suffix_insert(m: Map<Seq<char>, Seq<char>>, suffix: Seq<char>, k: Seq<char>, v: Seq<char>)
    ensures
        suffix_keys(m.insert(k, v), suffix) == suffix_keys(m, suffix).insert(k + suffix, v),
{
    let kk = k + suffix;
    let left = suffix_keys(m.insert(k, v), suffix);
    let right = suffix_keys(m, suffix).insert(kk, v);
    assert(kk.subrange(kk.len() - suffix.len(), kk.len() as int) =~= suffix);
    assert(kk.subrange(0, kk.len() - suffix.len()) =~= k);
    assert forall|key: Seq<char>| #[trigger] left.dom().contains(key) <==> right.dom().contains(key) by {
        if key != kk && key.len() >= suffix.len() && key.subrange(key.len() - suffix.len(), key.len() as int) == suffix {
            let p = key.subrange(0, key.len() - suffix.len());
            assert(key =~= p + suffix);
            assert(p != k);
        }
    }
    assert forall|key: Seq<char>| #[trigger] left.dom().contains(key) implies left[key] == right[key] by {
        if key != kk {
            let p = key.subrange(0, key.len() - suffix.len());
            assert(key =~= p + suffix);
            assert(p != k);
        }
    }
    assert(left =~= right);
}

/// The properties of a device as brokers see them: each key with `_` and the
/// Instance id in upper case appended.
pub fn suffixed_properties(properties: &PropMap, instance_id: &str) -> (r: PropMap)
    ensures
        r@ == suffix_keys(properties@, property_suffix(instance_id@)),
{
    let upper = to_upper(instance_id);
    let suffix = concat2("_", upper.as_str());
    proof {
        reveal_strlit("_");
    }
    assert(suffix@ =~= property_suffix(instance_id@));
    properties.entries_denote_map();
    let ghost es = properties.entry_seq();
    let mut r = PropMap::new();
    let mut i: usize = 0;
    proof {
        assert(suffix_keys(entries_map(es.take(0)), suffix@) =~= Map::empty());
    }
    while i < properties.len()
        invariant
            es == properties.entry_seq(),
            properties@ == entries_map(es),
            i <= es.len(),
            r@ == suffix_keys(entries_map(es.take(i as int)), suffix@),
        decreases es.len() - i,
    {
        let (k, v) = properties.entry(i);
        assert(es.take(i + 1).drop_last() =~= es.take(i as int));
        assert(es.take(i + 1).last() == es[i as int]);
        proof {
            lemma_suffix_insert(entries_map(es.take(i as int)), suffix@, k@, v@);
        }
        r.insert(concat2(k.as_str(), suffix.as_str()), v.clone());
        i = i + 1;
    }
    assert(es.take(es.len() as int) =~= es);
    r
}

/// The annotation key recording slot `slot`.
pub open spec fn slot_annotation_key(slot: Seq<char>) -> Seq<char> {
    AKRI_SLOT_ANNOTATION_NAME_PREFIX@ + slot
}

/// The slot annotations for the slots `slots`, each held by `usage`.
pub open spec fn slot_annotations(slots: Seq<Seq<char>>, usage: Seq<char>) -> Map<Seq<char>, Seq<char>>
    decreases slots.len(),
{
    if slots.len() == 0 {
        Map::empty()
    } else {
        slot_annotations(slots.drop_last(), usage).insert(slot_annotation_key(slots.last()), usage)
    }
}

/// The answer of an Instance device plugin for a container that was given the
/// slots `slot_ids` of Instance `instance_name` on `node_name`: each slot
/// annotated as held by this node, the Configuration's broker properties
/// overridden by the device's properties (suffixed by the Instance id), and the
/// device's mounts and device nodes; a container given no slot gets the broker
/// properties alone.
pub fn instance_container_response(
    slot_ids: &Vec<String>,
    node_name: &str,
    device: &Device,
    instance_id: &str,
    configuration_properties: &PropMap,
) -> (r: ContainerAllocateResponse)
    requires
        node_name@.len() > 0,
    ensures
        r.annotations@ == slot_annotations(
            slot_ids@.map_values(|s: String| s@),
            format_usage(UsageView { kind: UsageKindView::Instance, node: node_name@ }),
        ),
        r.envs@ == (if slot_ids@.len() == 0 {
            configuration_properties@
        } else {
            configuration_properties@.union_prefer_right(suffix_keys(device.properties@, property_suffix(instance_id@)))
        }),
        mounts_view(r.mounts@) == (if slot_ids@.len() == 0 { Seq::empty() } else { mounts_view(device.mounts@) }),
        device_specs_view(r.devices@) == (if slot_ids@.len() == 0 { Seq::empty() } else { device_specs_view(device.device_specs@) }),
{
    let usage = match NodeUsage::create(&DeviceUsageKind::Instance, node_name) {
        Ok(u) => u.to_usage_string(),
        Err(_) => String::new(),
    };
    let ghost uv = format_usage(UsageView { kind: UsageKindView::Instance, node: node_name@ });
    assert(usage@ == uv);
    let ghost sv = slot_ids@.map_values(|s: String| s@);
    let mut annotations = PropMap::new();
    let mut i: usize = 0;
    while i < slot_ids.len()
        invariant
            sv == slot_ids@.map_values(|s: String| s@),
            usage@ == uv,
            i <= slot_ids@.len(),
            annotations@ == slot_annotations(sv.take(i as int), uv),
        decreases slot_ids.len() - i,
    {
        assert(sv.take(i + 1).drop_last() =~= sv.take(i as int));
        assert(sv.take(i + 1).last() == slot_ids@[i as int]@);
        annotations.insert(concat2(AKRI_SLOT_ANNOTATION_NAME_PREFIX, slot_ids[i].as_str()), usage.clone());
        i = i + 1;
    }
    assert(sv.take(slot_ids@.len() as int) =~= sv);
    let mut devices: Vec<Device> = Vec::new();
    let broker_properties = if slot_ids.len() == 0 {
        configuration_properties.clone_map()
    } else {
        let properties = suffixed_properties(&device.properties, instance_id);
        devices.push(device.copy());
        get_all_broker_properties(configuration_properties, &properties)
    };
    proof {
        if slot_ids@.len() > 0 {
            assert(devices@.drop_last() =~= Seq::<Device>::empty());
            assert(devices_mounts(Seq::<Device>::empty()) == Seq::<(Seq<char>, Seq<char>, bool)>::empty());
            assert(devices_specs(Seq::<Device>::empty()) == Seq::<(Seq<char>, Seq<char>, Seq<char>)>::empty());
            assert(devices_mounts(devices@) =~= mounts_view(device.mounts@));
            assert(devices_specs(devices@) =~= device_specs_view(device.device_specs@));
        }
    }
    build_container_allocate_response(broker_properties, annotations, &devices)
}

/// What a Configuration device plugin knows of one of its Instances.
pub struct InstanceDevice {
    /// The Instance's device.
    pub device: Device,
    /// The Instance's id.
    pub instance_id: String,
}

/// Why a container could not be answered.
#[derive(PartialEq, Eq, Structural, Clone, Copy, Debug)]
pub enum AllocateError {
    /// A slot belongs to an Instance the device plugin does not know.
    InstanceNotFound,
}

/// The Instances named by the resources, each once, in order of first appearance.
pub open spec fn distinct_instances(resources: Seq<(Seq<char>, Seq<char>, Seq<char>)>) -> Seq<Seq<char>>
    decreases resources.len(),
{
    if resources.len() == 0 {
        Seq::empty()
    } else {
        let rest = distinct_instances(resources.drop_last());
        if rest.contains(resources.last().1) {
            rest
        } else {
            rest.push(resources.last().1)
        }
    }
}

/// Resources (virtual device, Instance name, slot) by their text.
pub open spec fn resources_view(v: Seq<(String, (String, String))>) -> Seq<(Seq<char>, Seq<char>, Seq<char>)> {
    v.map_values(|x: (String, (String, String))| (x.0@, x.1.0@, x.1.1@))
}

/// The slot annotations for resources held under their virtual device id by `node`.
pub open spec fn resource_annotations(resources: Seq<(Seq<char>, Seq<char>, Seq<char>)>, node: Seq<char>) -> Map<Seq<char>, Seq<char>>
    decreases resources.len(),
{
    if resources.len() == 0 {
        Map::empty()
    } else {
        resource_annotations(resources.drop_last(), node).insert(
            slot_annotation_key(resources.last().2),
            format_usage(UsageView { kind: UsageKindView::Configuration(resources.last().0), node }),
        )
    }
}

/// The device properties of the Instances of the resources, suffixed by each Instance's id, later ones overriding.
pub open spec fn resource_properties(resources: Seq<(Seq<char>, Seq<char>, Seq<char>)>, instances: Map<Seq<char>, InstanceDevice>) -> Map<Seq<char>, Seq<char>>
    decreases resources.len(),
{
    if resources.len() == 0 {
        Map::empty()
    } else {
        let inst = instances[resources.last().1];
        resource_properties(resources.drop_last(), instances).union_prefer_right(
            suffix_keys(inst.device.properties@, property_suffix(inst.instance_id@)),
        )
    }
}

/// The mounts of the devices of the named Instances, in order.
pub open spec fn instances_mounts(names: Seq<Seq<char>>, instances: Map<Seq<char>, InstanceDevice>) -> Seq<(Seq<char>, Seq<char>, bool)>
    decreases names.len(),
{
    if names.len() == 0 {
        Seq::empty()
    } else {
        instances_mounts(names.drop_last(), instances) + mounts_view(instances[names.last()].device.mounts@)
    }
}

/// The device nodes of the devices of the named Instances, in order.
pub open spec fn instances_specs(names: Seq<Seq<char>>, instances: Map<Seq<char>, InstanceDevice>) -> Seq<(Seq<char>, Seq<char>, Seq<char>)>
    decreases names.len(),
{
    if names.len() == 0 {
        Seq::empty()
    } else {
        instances_specs(names.drop_last(), instances) + device_specs_view(instances[names.last()].device.device_specs@)
    }
}

/// The answer of a Configuration device plugin on `node_name` for a container
/// that was given `resources` (virtual device id, Instance name, slot): each
/// slot annotated as held by this node under its virtual device id, the
/// Configuration's broker properties overridden by the devices' properties
/// (each suffixed by its Instance's id), and the mounts and device nodes of
/// each Instance's device once. Fails when some resource names an Instance
/// that the plugin does not know.
pub fn configuration_container_response(
    resources: &Vec<(String, (String, String))>,
    instances: &KeyedMap<InstanceDevice>,
    node_name: &str,
    configuration_properties: &PropMap,
) -> (r: Result<ContainerAllocateResponse, AllocateError>)
    requires
        node_name@.len() > 0,
    ensures
        r is Err <==> exists|i: int| 0 <= i < resources@.len() && !instances@.dom().contains(#[trigger] resources@[i].1.0@),
        r matches Ok(resp) ==> {
            let rv = resources_view(resources@);
            &&& resp.annotations@ == resource_annotations(rv, node_name@)
            &&& resp.envs@ == configuration_properties@.union_prefer_right(resource_properties(rv, instances@))
            &&& mounts_view(resp.mounts@) == instances_mounts(distinct_instances(rv), instances@)
            &&& device_specs_view(resp.devices@) == instances_specs(distinct_instances(rv), instances@)
        },
{
    let ghost rv = resources_view(resources@);
    let mut annotations = PropMap::new();
    let mut properties = PropMap::new();
    let mut names: Vec<String> = Vec::new();
    let mut devices: Vec<Device> = Vec::new();
    let mut i: usize = 0;
    while i < resources.len()
        invariant
            rv == resources_view(resources@),
            node_name@.len() > 0,
            i <= resources@.len(),
            forall|j: int| 0 <= j < i ==> instances@.dom().contains(#[trigger] resources@[j].1.0@),
            annotations@ == resource_annotations(rv.take(i as int), node_name@),
            properties@ == resource_properties(rv.take(i as int), instances@),
            names@.map_values(|s: String| s@) == distinct_instances(rv.take(i as int)),
            devices_mounts(devices@) == instances_mounts(distinct_instances(rv.take(i as int)), instances@),
            devices_specs(devices@) == instances_specs(distinct_instances(rv.take(i as int)), instances@),
        decreases resources.len() - i,
    {
        assert(rv.take(i + 1).drop_last() =~= rv.take(i as int));
        assert(rv.take(i + 1).last() == rv[i as int]);
        let vdev = &resources[i].0;
        let instance_name = &resources[i].1.0;
        let slot = &resources[i].1.1;
        let info = match instances.get(instance_name.as_str()) {
            Some(info) => info,
            None => {
                return Err(AllocateError::InstanceNotFound);
            },
        };
        let usage = match NodeUsage::create(&DeviceUsageKind::Configuration(vdev.clone()), node_name) {
            Ok(u) => u.to_usage_string(),
            Err(_) => String::new(),
        };
        annotations.insert(concat2(AKRI_SLOT_ANNOTATION_NAME_PREFIX, slot.as_str()), usage);
        let suffixed = suffixed_properties(&info.device.properties, info.instance_id.as_str());
        properties.extend(&suffixed);
        let ghost names_before = names@.map_values(|s: String| s@);
        let mut seen = false;
        let mut t: usize = 0;
        while t < names.len()
            invariant
                t <= names@.len(),
                seen == (exists|u: int| 0 <= u < t && (#[trigger] names@[u])@ == instance_name@),
            decreases names.len() - t,
        {
            if str_eq(names[t].as_str(), instance_name.as_str()) {
                seen = true;
            }
            t = t + 1;
        }
        proof {
            if seen {
                let u = choose|u: int| 0 <= u < names@.len() && (#[trigger] names@[u])@ == instance_name@;
                assert(names_before[u] == instance_name@);
            }
            if names_before.contains(instance_name@) {
                let u = choose|u: int| 0 <= u < names_before.len() && names_before[u] == instance_name@;
                assert(names@[u]@ == instance_name@);
            }
        }
        if !seen {
            let ghost devices_before = devices@;
            names.push(instance_name.clone());
            devices.push(info.device.copy());
            proof {
                assert(names@.map_values(|s: String| s@) =~= names_before.push(instance_name@));
                assert(devices@.drop_last() =~= devices_before);
                let d = distinct_instances(rv.take(i + 1));
                assert(d.drop_last() =~= distinct_instances(rv.take(i as int)));
                assert(d.last() == instance_name@);
            }
        }
        i = i + 1;
    }
    assert(rv.take(resources@.len() as int) =~= rv);
    let broker_properties = get_all_broker_properties(configuration_properties, &properties);
    Ok(build_container_allocate_response(broker_properties, annotations, &devices))
}

} // verus!
