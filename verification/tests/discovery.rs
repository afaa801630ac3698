use akri::discovery::{discovery_step, DiscoveryStep, StreamOutcome};
use akri::config::{DiscoveryProperty, DiscoveryPropertyKeySelector, DiscoveryPropertySource};
use akri::discovery::{
    connectivity_action, discovery_property_value_from_config_map, discovery_property_value_from_secret,
    generate_instance_digest, get_discovery_handler_endpoint, get_discovery_property, hex_encode, instance_removal,
    new_instances, offline_too_long, should_stop_discovery, visible_instances, ConfigMapData, ConnectivityAction,
    InstanceConnectivityStatus, InstanceRemoval, PropertyError, PropertySourceData, SecretData, StopMessage,
    SHARED_INSTANCE_OFFLINE_GRACE_PERIOD_MS,
};
use akri::keyed::KeyedMap;
use akri::registration::{DiscoveryHandlerEndpoint, DiscoveryHandlerRegistry};
use akri::props::PropMap;

#[test]
fn test_generate_instance_digest() {
    let id = "video1";
    let first_unshared_video_digest = generate_instance_digest(id, false, "node-a");
    let first_shared_video_digest = generate_instance_digest(id, true, "node-a");

    let second_unshared_video_digest = generate_instance_digest(id, false, "node-b");
    let second_shared_video_digest = generate_instance_digest(id, true, "node-b");
    // unshared instances visible to different nodes should NOT have the same digest
    assert_ne!(first_unshared_video_digest, second_unshared_video_digest);
    // shared instances visible to different nodes should have the same digest
    assert_eq!(first_shared_video_digest, second_shared_video_digest);
    // shared and unshared instance for same node should NOT have the same digest
    assert_ne!(first_unshared_video_digest, first_shared_video_digest);
}

#[test]
fn digests_are_six_lower_case_hex_digits() {
    let digest = generate_instance_digest("video1", true, "node-a");
    assert_eq!(digest.len(), 6);
    assert!(digest.chars().all(|c| c.is_ascii_hexdigit() && !c.is_ascii_uppercase()));
    assert_eq!(hex_encode(&vec![0x00, 0xab, 0x0f]), "00ab0f");
}

#[test]
fn visible_devices_name_instances_and_new_ones_are_found() {
    let ids = vec!["video1".to_string(), "video2".to_string(), "video1".to_string()];
    let names = visible_instances(&ids, true, "node-a", "config-a");
    assert_eq!(names.len(), 2);
    let name1 = format!("config-a-{}", generate_instance_digest("video1", true, "node-a"));
    let name2 = format!("config-a-{}", generate_instance_digest("video2", true, "node-a"));
    assert_eq!(names.get(&name1), Some(&2));
    assert_eq!(names.get(&name2), Some(&1));
    let fresh = new_instances(&names, &vec![name1.clone()]);
    assert_eq!(fresh, vec![(name2.clone(), 1)]);
    assert!(new_instances(&names, &vec![name1, name2]).is_empty());
}

#[test]
fn connectivity_of_known_instances() {
    let grace = SHARED_INSTANCE_OFFLINE_GRACE_PERIOD_MS;
    assert_eq!(connectivity_action(true, InstanceConnectivityStatus::Online, true, 0), ConnectivityAction::Keep);
    assert_eq!(connectivity_action(true, InstanceConnectivityStatus::Offline(5), true, 10), ConnectivityAction::MarkOnline);
    assert_eq!(connectivity_action(false, InstanceConnectivityStatus::Online, false, 10), ConnectivityAction::Remove);
    assert_eq!(connectivity_action(false, InstanceConnectivityStatus::Online, true, 10), ConnectivityAction::MarkOffline);
    assert_eq!(connectivity_action(false, InstanceConnectivityStatus::Offline(10), true, 10 + grace - 1), ConnectivityAction::Keep);
    assert_eq!(connectivity_action(false, InstanceConnectivityStatus::Offline(10), true, 10 + grace), ConnectivityAction::Remove);
    assert!(!offline_too_long(InstanceConnectivityStatus::Online, grace * 2));
    assert!(offline_too_long(InstanceConnectivityStatus::Offline(0), grace));
    assert!(!offline_too_long(InstanceConnectivityStatus::Offline(1), grace));
}

#[test]
fn removing_this_node_from_an_instance() {
    let nodes = vec!["node-a".to_string(), "node-b".to_string()];
    assert_eq!(instance_removal(&nodes, "node-a"), InstanceRemoval::Update(vec!["node-b".to_string()]));
    assert_eq!(instance_removal(&vec!["node-a".to_string()], "node-a"), InstanceRemoval::Delete);
}

#[test]
fn stop_messages() {
    assert!(should_stop_discovery(&StopMessage::All, "ns", "c"));
    assert!(should_stop_discovery(&StopMessage::ChannelError, "ns", "c"));
    assert!(should_stop_discovery(&StopMessage::Config("ns".to_string(), "c".to_string()), "ns", "c"));
    assert!(!should_stop_discovery(&StopMessage::Config("ns".to_string(), "d".to_string()), "ns", "c"));
}

#[test]
fn discovery_handler_endpoint_is_the_registered_one() {
    let mut registry = DiscoveryHandlerRegistry::new();
    assert!(get_discovery_handler_endpoint(&registry, "onvif").is_none());
    registry.register("udev", &DiscoveryHandlerEndpoint::Uds("/tmp/udev.sock".to_string()), false);
    assert!(get_discovery_handler_endpoint(&registry, "onvif").is_none());
    registry.register("onvif", &DiscoveryHandlerEndpoint::Network("10.0.0.1:8080".to_string()), true);
    assert_eq!(
        get_discovery_handler_endpoint(&registry, "onvif"),
        Some(DiscoveryHandlerEndpoint::Network("10.0.0.1:8080".to_string()))
    );
    assert_eq!(
        get_discovery_handler_endpoint(&registry, "udev"),
        Some(DiscoveryHandlerEndpoint::Uds("/tmp/udev.sock".to_string()))
    );
}

fn selector(key: &str, optional: Option<bool>) -> DiscoveryPropertyKeySelector {
    DiscoveryPropertyKeySelector {
        key: key.to_string(),
        name: "source".to_string(),
        namespace: "default".to_string(),
        optional,
    }
}

#[test]
fn discovery_property_values_from_secrets() {
    let mut data: KeyedMap<Vec<u8>> = KeyedMap::new();
    data.insert("key1".to_string(), b"value1".to_vec());
    let secret = SecretData { data: Some(data) };
    assert_eq!(discovery_property_value_from_secret(Some(&secret), &selector("key1", None)), Ok(Some(b"value1".to_vec())));
    assert_eq!(
        discovery_property_value_from_secret(Some(&secret), &selector("key2", None)),
        Err(PropertyError::SecretDataNotFound)
    );
    assert_eq!(discovery_property_value_from_secret(Some(&secret), &selector("key2", Some(true))), Ok(None));
    assert_eq!(discovery_property_value_from_secret(None, &selector("key1", Some(false))), Err(PropertyError::SecretNotFound));
    assert_eq!(discovery_property_value_from_secret(None, &selector("key1", Some(true))), Ok(None));
    let empty = SecretData { data: None };
    assert_eq!(
        discovery_property_value_from_secret(Some(&empty), &selector("key1", None)),
        Err(PropertyError::SecretDataNotFound)
    );
}

#[test]
fn discovery_property_values_from_config_maps() {
    let mut text = PropMap::new();
    text.insert("key1".to_string(), "value1".to_string());
    let mut binary: KeyedMap<Vec<u8>> = KeyedMap::new();
    binary.insert("key1".to_string(), vec![1, 2]);
    binary.insert("key2".to_string(), vec![3]);
    let both = ConfigMapData { data: Some(text), binary_data: Some(binary) };
    // text data comes first
    assert_eq!(discovery_property_value_from_config_map(Some(&both), &selector("key1", None)), Ok(Some(b"value1".to_vec())));
    assert_eq!(discovery_property_value_from_config_map(Some(&both), &selector("key2", None)), Ok(Some(vec![3])));
    assert_eq!(
        discovery_property_value_from_config_map(Some(&both), &selector("key3", None)),
        Err(PropertyError::ConfigMapDataNotFound)
    );
    assert_eq!(discovery_property_value_from_config_map(Some(&both), &selector("key3", Some(true))), Ok(None));
    assert_eq!(
        discovery_property_value_from_config_map(None, &selector("key1", None)),
        Err(PropertyError::ConfigMapNotFound)
    );
}

#[test]
fn discovery_properties() {
    let literal = DiscoveryProperty { name: "p".to_string(), value: Some("v".to_string()), value_from: None };
    assert_eq!(get_discovery_property(&literal, None), Ok(Some(("p".to_string(), Some(b"v".to_vec())))));
    let no_value = DiscoveryProperty { name: "p".to_string(), value: None, value_from: None };
    assert_eq!(get_discovery_property(&no_value, None), Ok(Some(("p".to_string(), None))));
    let from_secret = DiscoveryProperty {
        name: "p".to_string(),
        value: None,
        value_from: Some(DiscoveryPropertySource::SecretKeyRef(selector("key1", Some(true)))),
    };
    assert_eq!(get_discovery_property(&from_secret, Some(&PropertySourceData::Secret(None))), Ok(None));
}

#[test]
fn discovery_steps_after_a_round() {
    assert_eq!(discovery_step(StreamOutcome::NoStream, false), DiscoveryStep::Retry);
    assert_eq!(discovery_step(StreamOutcome::Finished, true), DiscoveryStep::Stop);
    assert_eq!(discovery_step(StreamOutcome::StatusError, false), DiscoveryStep::MarkOfflineAndRetry);
    assert_eq!(discovery_step(StreamOutcome::StatusError, true), DiscoveryStep::Fail);
    assert_eq!(discovery_step(StreamOutcome::OtherError, false), DiscoveryStep::Fail);
}

#[test]
fn discovery_properties_are_gathered_until_one_fails() {
    let literal = DiscoveryProperty { name: "a".to_string(), value: Some("1".to_string()), value_from: None };
    let no_value = DiscoveryProperty { name: "b".to_string(), value: None, value_from: None };
    let optional_missing = DiscoveryProperty {
        name: "c".to_string(),
        value: None,
        value_from: Some(DiscoveryPropertySource::SecretKeyRef(selector("key1", Some(true)))),
    };
    let required_missing = DiscoveryProperty {
        name: "d".to_string(),
        value: None,
        value_from: Some(DiscoveryPropertySource::SecretKeyRef(selector("key1", None))),
    };
    let again = DiscoveryProperty { name: "a".to_string(), value: Some("2".to_string()), value_from: None };
    let props = vec![literal, no_value, optional_missing, again];
    let sources = vec![None, None, Some(PropertySourceData::Secret(None)), None];
    let gathered = akri::discovery::get_discovery_properties(&props, &sources).unwrap();
    assert_eq!(gathered.len(), 2);
    assert_eq!(gathered.get("a"), Some(&Some(b"2".to_vec())));
    assert_eq!(gathered.get("b"), Some(&None));
    assert!(gathered.get("c").is_none());
    let failing = vec![DiscoveryProperty { name: "a".to_string(), value: Some("1".to_string()), value_from: None }, required_missing];
    let sources = vec![None, Some(PropertySourceData::Secret(None))];
    assert_eq!(
        akri::discovery::get_discovery_properties(&failing, &sources).err(),
        Some(PropertyError::SecretNotFound)
    );
}

#[test]
fn an_embedded_handler_replaces_every_endpoint_under_its_name() {
    let mut registry = DiscoveryHandlerRegistry::new();
    registry.register("onvif", &DiscoveryHandlerEndpoint::Network("10.0.0.1:8080".to_string()), true);
    registry.register("udev", &DiscoveryHandlerEndpoint::Uds("/u.sock".to_string()), false);
    registry.register_only("onvif", &DiscoveryHandlerEndpoint::Embedded, true);
    assert_eq!(registry.handlers_named("onvif"), vec![(DiscoveryHandlerEndpoint::Embedded, true)]);
    assert_eq!(registry.handlers_named("udev"), vec![(DiscoveryHandlerEndpoint::Uds("/u.sock".to_string()), false)]);
}
