use akri::registration::{
    create_discovery_handler_endpoint, embedded_discovery_handlers, DiscoveryHandlerEndpoint,
    DiscoveryHandlerRegistry, EndpointType, RegistrationOutcome,
};

#[test]
fn test_register_embedded_discovery_handlers() {
    // Debug echo enabled, its instances not shared; no other handler built in.
    let handlers = embedded_discovery_handlers(Some("false"), false, false, false);
    assert!(handlers.iter().any(|(name, _)| name == "debugEcho"));
    assert_eq!(handlers, vec![("debugEcho".to_string(), false)]);
    let all = embedded_discovery_handlers(Some("true"), true, true, true);
    assert_eq!(
        all,
        vec![
            ("debugEcho".to_string(), true),
            ("onvif".to_string(), true),
            ("udev".to_string(), false),
            ("opcua".to_string(), true)
        ]
    );
}

#[test]
fn test_register_embedded_discovery_handlers_no_debug_echo() {
    let handlers = embedded_discovery_handlers(None, false, false, false);
    assert!(handlers.iter().all(|(name, _)| name != "debugEcho"));
}

#[test]
fn test_create_discovery_handler_endpoint() {
    assert_eq!(
        create_discovery_handler_endpoint("/path/to/socket.sock", EndpointType::Uds),
        DiscoveryHandlerEndpoint::Uds("/path/to/socket.sock".to_string())
    );
    assert_eq!(
        create_discovery_handler_endpoint("http://10.1.2.3:1000", EndpointType::Network),
        DiscoveryHandlerEndpoint::Network("http://10.1.2.3:1000".to_string())
    );
}

#[test]
fn registering_a_handler_twice_changes_nothing() {
    let mut registry = DiscoveryHandlerRegistry::new();
    let endpoint = DiscoveryHandlerEndpoint::Uds("/sock".to_string());
    assert_eq!(registry.register("onvif", &endpoint, true), RegistrationOutcome::Added);
    assert_eq!(registry.register("onvif", &endpoint, true), RegistrationOutcome::AlreadyRegistered);
    assert_eq!(registry.register("onvif", &endpoint, false), RegistrationOutcome::Replaced);
    let other = DiscoveryHandlerEndpoint::Network("http://10.1.2.3:1000".to_string());
    assert_eq!(registry.register("onvif", &other, true), RegistrationOutcome::Added);
    assert_eq!(registry.register("udev", &DiscoveryHandlerEndpoint::Embedded, false), RegistrationOutcome::Added);
    let onvif = registry.handlers_named("onvif");
    assert_eq!(onvif.len(), 2);
    assert!(onvif.contains(&(endpoint, false)));
    assert!(onvif.contains(&(other, true)));
    assert_eq!(registry.handlers_named("udev"), vec![(DiscoveryHandlerEndpoint::Embedded, false)]);
    assert!(registry.handlers_named("opcua").is_empty());
}
