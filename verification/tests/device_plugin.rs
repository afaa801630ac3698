use akri::allocate::{configuration_container_response, instance_container_response, suffixed_properties, InstanceDevice};
use akri::device::{Device, DeviceSpec, Mount};
use akri::device_plugin::{
    decide_slot_reservation, get_all_broker_properties, get_device_configuration_name, get_device_instance_name,
    get_device_usage_state, get_instance_device_usage_states, get_usage_string_state, healthy_devices,
    initial_device_usage, instance_virtual_devices, make_slot_name, new_instance_spec, nodes_including,
    unhealthy_devices, virtual_devices_changed, configuration_devices_to_report, prop_maps_equal, DeviceUsageStatus,
    SlotReservation, SlotReservationError,
};
use akri::device_plugins::{ConfigurationDevicePlugin, InstanceDevicePlugin};
use akri::keyed::KeyedMap;
use akri::node_usage::{DeviceUsageKind, NodeUsage};
use akri::props::PropMap;
use akri::virtual_devices::{available_virtual_devices, get_virtual_device_resources, AllocationError};

fn props(pairs: &[(&str, &str)]) -> PropMap {
    let mut m = PropMap::new();
    for (k, v) in pairs {
        m.insert(k.to_string(), v.to_string());
    }
    m
}

fn get(m: &PropMap, k: &str) -> Option<String> {
    m.get(k).cloned()
}

#[test]
fn test_get_device_configuration_name() {
    let names_to_test = [
        ("no_dash_no_dot", "no_dash_no_dot"),
        ("usb/camera", "usb-camera"),
        ("another//camera", "another--camera"),
        ("name.with.dot", "name-with-dot"),
        ("name.with..dots...", "name-with--dots---"),
    ];
    names_to_test.iter().for_each(|(test, expected)| {
        println!("{:?}", (test, expected));
        assert_eq!(get_device_configuration_name(test), expected.to_string());
    });
}

#[test]
fn test_get_device_instance_name() {
    let instance_name1: String = "/dev/video0".to_string();
    let instance_name2: String = "10.1.2.3".to_string();
    assert_eq!("usb-camera--dev-video0", get_device_instance_name(&instance_name1, "usb-camera"));
    assert_eq!("ip-camera-10-1-2-3".to_string(), get_device_instance_name(&instance_name2, "ip-camera"));
}

#[test]
fn test_get_all_broker_properties() {
    let device_properties = props(&[("ENDPOINT", "123"), ("OVERWRITE", "222")]);
    let configuration_properties = props(&[("USE HD", "true"), ("OVERWRITE", "111")]);
    let all_properties = get_all_broker_properties(&configuration_properties, &device_properties);
    assert_eq!(all_properties.len(), 3);
    assert_eq!(get(&all_properties, "ENDPOINT").unwrap(), "123");
    assert_eq!(get(&all_properties, "USE HD").unwrap(), "true");
    assert_eq!(get(&all_properties, "OVERWRITE").unwrap(), "222");
}

#[test]
fn test_get_device_usage_state_same_node() {
    let this_node = "node-a";
    let vdev_id = "vdev_0";
    assert_eq!(
        get_device_usage_state(&NodeUsage::create(&DeviceUsageKind::Free, "").unwrap(), this_node),
        DeviceUsageStatus::Free
    );
    assert_eq!(
        get_device_usage_state(
            &NodeUsage::create(&DeviceUsageKind::Configuration(vdev_id.to_string()), this_node).unwrap(),
            this_node
        ),
        DeviceUsageStatus::ReservedByConfiguration(vdev_id.to_string())
    );
    assert_eq!(
        get_device_usage_state(&NodeUsage::create(&DeviceUsageKind::Instance, this_node).unwrap(), this_node),
        DeviceUsageStatus::ReservedByInstance
    );
}

#[test]
fn test_get_device_usage_state_different_node() {
    let this_node = "node-a";
    let that_node = "node-b";
    let vdev_id = "vdev_0";
    assert_eq!(
        get_device_usage_state(&NodeUsage::create(&DeviceUsageKind::Free, "").unwrap(), this_node),
        DeviceUsageStatus::Free
    );
    assert_eq!(
        get_device_usage_state(
            &NodeUsage::create(&DeviceUsageKind::Configuration(vdev_id.to_string()), that_node).unwrap(),
            this_node
        ),
        DeviceUsageStatus::ReservedByOtherNode
    );
    assert_eq!(
        get_device_usage_state(&NodeUsage::create(&DeviceUsageKind::Instance, that_node).unwrap(), this_node),
        DeviceUsageStatus::ReservedByOtherNode
    );
}

#[test]
fn usage_strings_give_slot_states() {
    assert_eq!(get_usage_string_state("", "node-a"), DeviceUsageStatus::Free);
    assert_eq!(get_usage_string_state("node-a", "node-a"), DeviceUsageStatus::ReservedByInstance);
    assert_eq!(get_usage_string_state("node-b", "node-a"), DeviceUsageStatus::ReservedByOtherNode);
    assert_eq!(
        get_usage_string_state("C:0:node-a", "node-a"),
        DeviceUsageStatus::ReservedByConfiguration("0".to_string())
    );
    assert_eq!(get_usage_string_state("C:0:node-b", "node-a"), DeviceUsageStatus::ReservedByOtherNode);
    assert_eq!(get_usage_string_state("C:0:", "node-a"), DeviceUsageStatus::Unknown);
}

#[test]
fn slot_names_are_numbered() {
    assert_eq!(make_slot_name("config-a-359973", 0), "config-a-359973-0");
    assert_eq!(make_slot_name("config-a-359973", 12), "config-a-359973-12");
}

#[test]
fn instance_usage_states_follow_the_instance_or_are_unknown() {
    let usage = props(&[("inst-0", ""), ("inst-1", "node-a"), ("inst-2", "C:1:node-b")]);
    let states = get_instance_device_usage_states("node-a", "inst", Some(&usage), 3);
    assert_eq!(states.len(), 3);
    assert_eq!(states[0], ("inst-0".to_string(), DeviceUsageStatus::Free));
    assert_eq!(states[1], ("inst-1".to_string(), DeviceUsageStatus::ReservedByInstance));
    assert_eq!(states[2], ("inst-2".to_string(), DeviceUsageStatus::ReservedByOtherNode));

    let unknown = get_instance_device_usage_states("node-a", "inst", None, 2);
    assert_eq!(
        unknown,
        vec![
            ("inst-0".to_string(), DeviceUsageStatus::Unknown),
            ("inst-1".to_string(), DeviceUsageStatus::Unknown)
        ]
    );
    assert!(get_instance_device_usage_states("node-a", "inst", None, -1).is_empty());
}

#[test]
fn instance_virtual_devices_are_healthy_when_free_or_own() {
    let states = vec![
        ("s-0".to_string(), DeviceUsageStatus::Free),
        ("s-1".to_string(), DeviceUsageStatus::ReservedByInstance),
        ("s-2".to_string(), DeviceUsageStatus::ReservedByOtherNode),
        ("s-3".to_string(), DeviceUsageStatus::Unknown),
    ];
    let devices = instance_virtual_devices(&states);
    assert_eq!(
        devices,
        vec![
            ("s-0".to_string(), "Healthy".to_string()),
            ("s-1".to_string(), "Healthy".to_string()),
            ("s-2".to_string(), "Unhealthy".to_string()),
            ("s-3".to_string(), "Unhealthy".to_string()),
        ]
    );
    assert!(!virtual_devices_changed(&devices, &devices));
    let mut reordered = devices.clone();
    reordered.reverse();
    assert!(!virtual_devices_changed(&devices, &reordered));
    assert!(virtual_devices_changed(&devices, &devices[..3].to_vec()));
    assert!(virtual_devices_changed(&Vec::new(), &devices));
    let ended = unhealthy_devices(&devices);
    assert!(ended.iter().all(|(_, h)| h == "Unhealthy"));
    assert_eq!(ended[0].0, "s-0");
}

#[test]
fn instance_device_plugin_sends_only_changes() {
    let plugin = InstanceDevicePlugin {
        instance_id: "b494b6".to_string(),
        shared: true,
        device: Device { id: "d".to_string(), properties: PropMap::new(), mounts: Vec::new(), device_specs: Vec::new() },
    };
    let states = vec![("s-0".to_string(), DeviceUsageStatus::Free)];
    let (first, send_first) = plugin.list_and_watch_step(&Vec::new(), &states);
    assert!(send_first);
    let (second, send_second) = plugin.list_and_watch_step(&first, &states);
    assert!(!send_second);
    assert_eq!(first, second);
}

#[test]
fn new_instances_have_free_slots_and_this_node() {
    let usage = initial_device_usage("inst", 2);
    assert_eq!(usage.len(), 2);
    assert_eq!(get(&usage, "inst-0").unwrap(), "");
    assert_eq!(get(&usage, "inst-1").unwrap(), "");
    assert!(initial_device_usage("inst", 0).len() == 0);

    let spec = new_instance_spec(
        "config-a",
        true,
        "node-a",
        "config-a-b494b6",
        3,
        &props(&[("A", "1"), ("B", "2")]),
        &props(&[("B", "3")]),
    );
    assert_eq!(spec.configuration_name, "config-a");
    assert!(spec.shared);
    assert_eq!(spec.nodes, vec!["node-a".to_string()]);
    assert_eq!(spec.device_usage.len(), 3);
    assert_eq!(get(&spec.device_usage, "config-a-b494b6-2").unwrap(), "");
    assert_eq!(get(&spec.broker_properties, "B").unwrap(), "3");
    assert_eq!(get(&spec.broker_properties, "A").unwrap(), "1");
}

#[test]
fn nodes_are_added_once() {
    let nodes = vec!["node-a".to_string()];
    assert!(nodes_including(&nodes, "node-a").is_none());
    assert_eq!(nodes_including(&nodes, "node-b").unwrap(), vec!["node-a".to_string(), "node-b".to_string()]);
}

#[test]
fn slot_reservations() {
    let free = String::new();
    assert_eq!(
        decide_slot_reservation(Some(&free), "node-a", &DeviceUsageKind::Instance),
        Ok(SlotReservation::Reserve("node-a".to_string()))
    );
    assert_eq!(
        decide_slot_reservation(Some(&free), "node-a", &DeviceUsageKind::Configuration("3".to_string())),
        Ok(SlotReservation::Reserve("C:3:node-a".to_string()))
    );
    let own = "node-a".to_string();
    assert_eq!(
        decide_slot_reservation(Some(&own), "node-a", &DeviceUsageKind::Instance),
        Ok(SlotReservation::AlreadyReserved)
    );
    assert_eq!(
        decide_slot_reservation(None, "node-a", &DeviceUsageKind::Instance),
        Err(SlotReservationError::SlotNotFound)
    );
    let bad = "C:0:".to_string();
    assert_eq!(
        decide_slot_reservation(Some(&bad), "node-a", &DeviceUsageKind::Instance),
        Err(SlotReservationError::Unparsable)
    );
    let by_config = "C:0:node-a".to_string();
    assert_eq!(
        decide_slot_reservation(Some(&by_config), "node-a", &DeviceUsageKind::Instance),
        Err(SlotReservationError::InUseByConfiguration)
    );
}

fn slots(states: &[(&str, DeviceUsageStatus)]) -> Vec<(String, DeviceUsageStatus)> {
    states.iter().map(|(s, st)| (s.to_string(), st.clone())).collect()
}

fn sorted(mut v: Vec<String>) -> Vec<String> {
    v.sort();
    v
}

#[test]
fn available_virtual_devices_no_instance() {
    assert!(available_virtual_devices(&Vec::new()).is_empty());
}

#[test]
fn available_virtual_devices_all_taken_by_other_node() {
    let states = vec![slots(&[("a-0", DeviceUsageStatus::ReservedByOtherNode), ("a-1", DeviceUsageStatus::ReservedByOtherNode)])];
    assert!(available_virtual_devices(&states).is_empty());
}

#[test]
fn available_virtual_devices_all_taken_by_instance() {
    let states = vec![slots(&[("a-0", DeviceUsageStatus::ReservedByInstance), ("a-1", DeviceUsageStatus::ReservedByInstance)])];
    assert!(available_virtual_devices(&states).is_empty());
}

#[test]
fn available_virtual_devices_all_free() {
    let states = vec![
        slots(&[("a-0", DeviceUsageStatus::Free), ("a-1", DeviceUsageStatus::Free)]),
        slots(&[("b-0", DeviceUsageStatus::Free)]),
    ];
    assert_eq!(sorted(available_virtual_devices(&states)), vec!["0".to_string(), "1".to_string()]);
}

#[test]
fn available_virtual_devices_all_taken_by_configuration_same_vdev_id() {
    let states = vec![
        slots(&[("a-0", DeviceUsageStatus::ReservedByConfiguration("0".to_string()))]),
        slots(&[("b-0", DeviceUsageStatus::ReservedByConfiguration("0".to_string()))]),
    ];
    assert_eq!(available_virtual_devices(&states), vec!["0".to_string()]);
}

#[test]
fn available_virtual_devices_some_taken_by_configuration() {
    let states = vec![
        slots(&[("a-0", DeviceUsageStatus::ReservedByConfiguration("0".to_string())), ("a-1", DeviceUsageStatus::Free)]),
        slots(&[("b-0", DeviceUsageStatus::ReservedByConfiguration("2".to_string())), ("b-1", DeviceUsageStatus::Free)]),
        slots(&[("c-0", DeviceUsageStatus::Free)]),
    ];
    // reserved 0 and 2; three instances have a free slot: 1, 3 and 4 are added
    assert_eq!(
        sorted(available_virtual_devices(&states)),
        vec!["0".to_string(), "1".to_string(), "2".to_string(), "3".to_string(), "4".to_string()]
    );
}

fn resources_map(r: &Vec<(String, (String, String))>) -> Vec<(String, String, String)> {
    let mut v: Vec<(String, String, String)> = r.iter().map(|(a, (b, c))| (a.clone(), b.clone(), c.clone())).collect();
    v.sort();
    v
}

#[test]
fn virtual_device_resources_all_free() {
    let states = vec![
        ("a".to_string(), slots(&[("a-0", DeviceUsageStatus::Free), ("a-1", DeviceUsageStatus::Free)])),
        ("b".to_string(), slots(&[("b-0", DeviceUsageStatus::Free)])),
    ];
    let r = get_virtual_device_resources(&vec!["0".to_string(), "1".to_string()], &states).unwrap();
    // the instance with the most free slots serves first; each instance serves once
    assert_eq!(
        resources_map(&r),
        vec![
            ("0".to_string(), "a".to_string(), "a-0".to_string()),
            ("1".to_string(), "b".to_string(), "b-0".to_string())
        ]
    );
}

#[test]
fn virtual_device_resources_reserved_same_vdev_id() {
    let states = vec![
        ("a".to_string(), slots(&[("a-0", DeviceUsageStatus::Free), ("a-1", DeviceUsageStatus::ReservedByConfiguration("1".to_string()))])),
    ];
    let r = get_virtual_device_resources(&vec!["1".to_string()], &states).unwrap();
    assert_eq!(resources_map(&r), vec![("1".to_string(), "a".to_string(), "a-1".to_string())]);
}

#[test]
fn virtual_device_resources_insufficient_instances() {
    let states = vec![("a".to_string(), slots(&[("a-0", DeviceUsageStatus::Free), ("a-1", DeviceUsageStatus::Free)]))];
    assert_eq!(
        get_virtual_device_resources(&vec!["0".to_string(), "1".to_string()], &states),
        Err(AllocationError::InsufficientInstances)
    );
    let taken = vec![("a".to_string(), slots(&[("a-0", DeviceUsageStatus::ReservedByConfiguration("5".to_string()))]))];
    assert_eq!(get_virtual_device_resources(&vec!["0".to_string()], &taken), Err(AllocationError::InsufficientInstances));
}

#[test]
fn configuration_device_plugin_reports_changes() {
    let plugin = ConfigurationDevicePlugin {};
    let states = vec![slots(&[("a-0", DeviceUsageStatus::Free)])];
    let (current, report) = plugin.list_and_watch_step(&PropMap::new(), &states);
    assert_eq!(current.len(), 1);
    assert_eq!(get(&current, "0").unwrap(), "Healthy");
    let report = report.unwrap();
    assert!(prop_maps_equal(&report, &current));
    let (again, none) = plugin.list_and_watch_step(&current, &states);
    assert!(none.is_none());
    assert!(prop_maps_equal(&again, &current));
    let (empty, gone) = plugin.list_and_watch_step(&current, &Vec::new());
    assert_eq!(empty.len(), 0);
    assert_eq!(get(&gone.unwrap(), "0").unwrap(), "Unhealthy");
}

#[test]
fn healthy_devices_and_reports() {
    let current = healthy_devices(&vec!["1".to_string(), "2".to_string()]);
    let prev = props(&[("0", "Healthy"), ("1", "Healthy")]);
    let report = configuration_devices_to_report(&prev, &current);
    assert_eq!(report.len(), 3);
    assert_eq!(get(&report, "0").unwrap(), "Unhealthy");
    assert_eq!(get(&report, "1").unwrap(), "Healthy");
    assert_eq!(get(&report, "2").unwrap(), "Healthy");
}

fn test_device(id: &str, properties: PropMap) -> Device {
    Device {
        id: id.to_string(),
        properties,
        mounts: vec![Mount { container_path: "/c".to_string(), host_path: format!("/h/{}", id), read_only: true }],
        device_specs: vec![DeviceSpec {
            container_path: "/dev/c".to_string(),
            host_path: format!("/dev/{}", id),
            permissions: "rw".to_string(),
        }],
    }
}

#[test]
fn properties_get_the_upper_case_instance_suffix() {
    let p = suffixed_properties(&props(&[("RESOLUTION", "800x600"), ("IP", "10.0.0.1")]), "b494b6");
    assert_eq!(p.len(), 2);
    assert_eq!(get(&p, "RESOLUTION_B494B6").unwrap(), "800x600");
    assert_eq!(get(&p, "IP_B494B6").unwrap(), "10.0.0.1");
    assert!(get(&p, "RESOLUTION").is_none());
}

#[test]
fn instance_container_response_for_slots() {
    let device = test_device("dev0", props(&[("ENDPOINT", "e")]));
    let config_props = props(&[("RESOLUTION", "800x600")]);
    let r = instance_container_response(&vec!["inst-0".to_string(), "inst-1".to_string()], "node-a", &device, "b494b6", &config_props);
    assert_eq!(get(&r.annotations, "akri.agent.slot-inst-0").unwrap(), "node-a");
    assert_eq!(get(&r.annotations, "akri.agent.slot-inst-1").unwrap(), "node-a");
    assert_eq!(r.annotations.len(), 2);
    assert_eq!(get(&r.envs, "ENDPOINT_B494B6").unwrap(), "e");
    assert_eq!(get(&r.envs, "RESOLUTION").unwrap(), "800x600");
    assert_eq!(r.mounts.len(), 1);
    assert_eq!(r.mounts[0].host_path, "/h/dev0");
    assert_eq!(r.devices.len(), 1);
    assert_eq!(r.devices[0].host_path, "/dev/dev0");

    let none = instance_container_response(&Vec::new(), "node-a", &device, "b494b6", &config_props);
    assert_eq!(none.annotations.len(), 0);
    assert_eq!(none.envs.len(), 1);
    assert!(none.mounts.is_empty() && none.devices.is_empty());
}

#[test]
fn configuration_container_response_for_resources() {
    let mut instances: KeyedMap<InstanceDevice> = KeyedMap::new();
    instances.insert(
        "inst-a".to_string(),
        InstanceDevice { device: test_device("a", props(&[("P", "1")])), instance_id: "aaa".to_string() },
    );
    instances.insert(
        "inst-b".to_string(),
        InstanceDevice { device: test_device("b", props(&[("P", "2")])), instance_id: "bbb".to_string() },
    );
    let resources = vec![
        ("0".to_string(), ("inst-a".to_string(), "inst-a-1".to_string())),
        ("1".to_string(), ("inst-b".to_string(), "inst-b-0".to_string())),
    ];
    let r = configuration_container_response(&resources, &instances, "node-a", &props(&[("X", "y")])).unwrap();
    assert_eq!(get(&r.annotations, "akri.agent.slot-inst-a-1").unwrap(), "C:0:node-a");
    assert_eq!(get(&r.annotations, "akri.agent.slot-inst-b-0").unwrap(), "C:1:node-a");
    assert_eq!(get(&r.envs, "P_AAA").unwrap(), "1");
    assert_eq!(get(&r.envs, "P_BBB").unwrap(), "2");
    assert_eq!(get(&r.envs, "X").unwrap(), "y");
    assert_eq!(r.mounts.len(), 2);
    assert_eq!(r.devices.len(), 2);

    let unknown = vec![("0".to_string(), ("inst-c".to_string(), "inst-c-0".to_string()))];
    assert!(configuration_container_response(&unknown, &instances, "node-a", &PropMap::new()).is_err());
}

#[test]
fn device_plugin_names() {
    assert_eq!(akri::device_plugins::capability_id("config-a-b494b6"), "akri.sh/config-a-b494b6");
    assert_eq!(akri::device_plugins::device_endpoint("config-a-b494b6", 1587749289), "config-a-b494b6-1587749289.sock");
}
