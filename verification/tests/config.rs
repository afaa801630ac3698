use akri::config::{
    agent_config_action, handle_config_event, should_recreate_config, AgentConfigAction, BrokerGenerations, BrokerUpdate,
    ConfigEvent, ConfigState, Configuration, ConfigurationSpec, DeploymentStrategy, DiscoveryHandlerInfo, WatchError,
};
use akri::props::PropMap;

fn spec(capacity: i32, broker_generation: Option<i32>) -> ConfigurationSpec {
    let mut broker_properties = PropMap::new();
    broker_properties.insert("RESOLUTION_WIDTH".to_string(), "800".to_string());
    ConfigurationSpec {
        discovery_handler: DiscoveryHandlerInfo {
            name: "debugEcho".to_string(),
            discovery_details: "{\"debugEcho\": {\"descriptions\":[\"foo0\"]}}".to_string(),
            discovery_properties: None,
        },
        capacity,
        broker_properties,
        deployment_strategy: broker_generation.map(|g| DeploymentStrategy { broker_generation: g, broker_type: "pod".to_string() }),
        other: "{}".to_string(),
    }
}

fn config(generation: Option<i64>, capacity: i32, broker_generation: Option<i32>) -> Configuration {
    Configuration {
        name: "config-a".to_string(),
        namespace: "config-a-namespace".to_string(),
        uid: "e9fbe880-99da-47c1-bea3-5398f21ee747".to_string(),
        generation,
        spec: spec(capacity, broker_generation),
    }
}

fn get_should_recreate_config_data() -> (Configuration, ConfigState) {
    let config = config(Some(1), 5, Some(1));
    let config_state = ConfigState { last_generation: Some(1), last_configuration_spec: spec(5, Some(1)) };
    (config, config_state)
}

#[test]
fn test_should_recreate_config_new_generation() {
    let (mut config, config_state) = get_should_recreate_config_data();
    config.generation = Some(2);
    let do_recreate = should_recreate_config(&config, config_state);
    assert!(do_recreate)
}

#[test]
fn test_should_recreate_config_broker_change() {
    let (mut config, config_state) = get_should_recreate_config_data();
    config.generation = Some(2);
    config.spec.deployment_strategy.as_mut().map(|d| d.broker_generation = 2);
    let do_recreate = should_recreate_config(&config, config_state);
    assert!(!do_recreate)
}

#[test]
fn test_should_recreate_config_broker_change_backwards() {
    let (mut config, config_state) = get_should_recreate_config_data();
    config.generation = Some(2);
    config.spec.deployment_strategy.as_mut().map(|d| d.broker_generation = 0);
    let do_recreate = should_recreate_config(&config, config_state);
    assert!(do_recreate)
}

#[test]
fn test_should_recreate_config_same_generation() {
    let (config, config_state) = get_should_recreate_config_data();
    let do_recreate = should_recreate_config(&config, config_state);
    assert!(!do_recreate)
}

#[test]
fn test_should_recreate_config_config_change() {
    let (mut config, config_state) = get_should_recreate_config_data();
    config.generation = Some(2);
    config.spec.capacity = 3;
    let do_recreate = should_recreate_config(&config, config_state);
    assert!(do_recreate)
}

#[test]
fn test_should_recreate_config_older_generation() {
    let (mut config, config_state) = get_should_recreate_config_data();
    config.generation = Some(0);
    let do_recreate = should_recreate_config(&config, config_state);
    assert!(do_recreate)
}

#[test]
fn agent_adds_unknown_configurations_and_keeps_unchanged_ones() {
    let mut first = true;
    let applied = ConfigEvent::Applied(config(Some(1), 5, Some(1)));
    assert_eq!(agent_config_action(None, &applied, &mut first), Ok(AgentConfigAction::Add));
    assert!(!first);
    let (_, state) = get_should_recreate_config_data();
    assert_eq!(agent_config_action(Some(state), &applied, &mut first), Ok(AgentConfigAction::RecordState));
    let (_, state) = get_should_recreate_config_data();
    let newer = ConfigEvent::Applied(config(Some(2), 3, Some(1)));
    assert_eq!(agent_config_action(Some(state), &newer, &mut first), Ok(AgentConfigAction::Recreate));
    let deleted = ConfigEvent::Deleted(config(Some(2), 3, Some(1)));
    assert_eq!(agent_config_action(None, &deleted, &mut first), Ok(AgentConfigAction::Delete));
}

#[test]
fn agent_watcher_restart_is_an_error_after_the_first_event() {
    let mut first = true;
    assert_eq!(agent_config_action(None, &ConfigEvent::Restarted, &mut first), Ok(AgentConfigAction::Nothing));
    assert!(!first);
    assert_eq!(agent_config_action(None, &ConfigEvent::Restarted, &mut first), Err(WatchError::WatcherRestarted));
    // recording a state does not end the first event
    let mut first = true;
    let (c, state) = get_should_recreate_config_data();
    assert_eq!(agent_config_action(Some(state), &ConfigEvent::Applied(c), &mut first), Ok(AgentConfigAction::RecordState));
    assert!(first);
}

#[test]
fn controller_redeploys_brokers_when_broker_generation_grows() {
    let mut generations = BrokerGenerations::new();
    let mut first = true;
    let r = handle_config_event(&mut generations, &ConfigEvent::Applied(config(Some(1), 5, Some(1))), &mut first);
    assert_eq!(r, Ok(BrokerUpdate::Keep));
    assert_eq!(generations.get_entry("config-a"), Some(1));
    let r = handle_config_event(&mut generations, &ConfigEvent::Applied(config(Some(2), 5, Some(2))), &mut first);
    assert_eq!(r, Ok(BrokerUpdate::Redeploy));
    assert_eq!(generations.get_entry("config-a"), Some(2));
    let again = handle_config_event(&mut generations, &ConfigEvent::Applied(config(Some(2), 5, Some(2))), &mut first);
    assert_eq!(again, Ok(BrokerUpdate::Keep));
    let r = handle_config_event(&mut generations, &ConfigEvent::Applied(config(Some(3), 5, Some(1))), &mut first);
    assert_eq!(r, Ok(BrokerUpdate::Keep));
    assert_eq!(generations.get_entry("config-a"), Some(2));
    let r = handle_config_event(&mut generations, &ConfigEvent::Deleted(config(Some(3), 5, Some(1))), &mut first);
    assert_eq!(r, Ok(BrokerUpdate::Keep));
    assert_eq!(generations.get_entry("config-a"), None);
    let r = handle_config_event(&mut generations, &ConfigEvent::Restarted, &mut first);
    assert_eq!(r, Err(WatchError::WatcherRestarted));
}
