use akri::coap::{
    build_path, device_from_resources, devices_from_answers, endpoint_url, parse_link_value, parse_payload, QueryFilter,
    COAP_IP_LABEL_ID, COAP_RESOURCE_TYPES_LABEL_ID,
};

const CORE_PAYLOAD: &str = r#"</sensors/temp>;rt="oic.r.temperature";if="sensor",
                </sensors/light>;rt="oic.r.light.brightness";if="sensor""#;

#[test]
fn test_parse_resources() {
    let link = r#"</sensors/temp>;rt="oic.r.temperature";if="sensor""#;
    let resources = parse_link_value(link);

    let (uri, rtype) = resources.get(0).expect("No resources parsed");

    assert_eq!(rtype, "oic.r.temperature");
    assert_eq!(uri, "/sensors/temp");
}

#[test]
fn only_sensors_with_a_resource_type_are_resources() {
    let link = r#"</a>;rt="t1";if="sensor",</b>;if="sensor",</c>;rt="t3";if="actuator",</d>;rt="x";rt="t4";if="sensor""#;
    let resources = parse_link_value(link);
    assert_eq!(
        resources,
        vec![("/a".to_string(), "t1".to_string()), ("/d".to_string(), "t4".to_string())]
    );
    assert!(parse_link_value("").is_empty());
}

#[test]
fn devices_from_a_core_payload() {
    let device = parse_payload("127.0.0.1", None, CORE_PAYLOAD).unwrap();
    assert_eq!(device.id, "127.0.0.1");
    assert_eq!(device.properties.get(COAP_IP_LABEL_ID).cloned(), Some("127.0.0.1".to_string()));
    assert_eq!(
        device.properties.get(COAP_RESOURCE_TYPES_LABEL_ID).cloned(),
        Some("oic.r.temperature,oic.r.light.brightness".to_string())
    );
    assert_eq!(device.properties.get("oic.r.temperature").cloned(), Some("/sensors/temp".to_string()));
    assert_eq!(device.properties.get("oic.r.light.brightness").cloned(), Some("/sensors/light".to_string()));
    assert!(device.mounts.is_empty() && device.device_specs.is_empty());
}

#[test]
fn query_filter_href() {
    let qf = QueryFilter { name: "href".to_string(), value: "/sensors/temp".to_string() };
    let device = parse_payload("127.0.0.1", Some(&qf), CORE_PAYLOAD).unwrap();
    assert_eq!(device.properties.get("oic.r.temperature").cloned(), Some("/sensors/temp".to_string()));
    assert_eq!(device.properties.get("oic.r.light.brightness"), None);
}

#[test]
fn query_filter_resource_types() {
    let qf = QueryFilter { name: "rt".to_string(), value: "oic.r.temperature".to_string() };
    let device = parse_payload("127.0.0.1", Some(&qf), CORE_PAYLOAD).unwrap();
    assert_eq!(device.properties.get("oic.r.temperature").cloned(), Some("/sensors/temp".to_string()));
    assert_eq!(device.properties.get("oic.r.light.brightness"), None);
    let none = QueryFilter { name: "rt".to_string(), value: "oic.r.none".to_string() };
    assert!(parse_payload("127.0.0.1", Some(&none), CORE_PAYLOAD).is_none());
}

#[test]
fn devices_without_resources_are_not_registered() {
    assert!(device_from_resources("10.0.0.1", None, &Vec::new()).is_none());
    assert!(parse_payload("10.0.0.1", None, "</a>;if=\"sensor\"").is_none());
}

#[test]
fn multicast_answers() {
    let answers = vec![
        ("127.0.0.1".to_string(), CORE_PAYLOAD.to_string()),
        ("127.0.0.2".to_string(), "garbage".to_string()),
        ("127.0.0.3".to_string(), CORE_PAYLOAD.to_string()),
    ];
    let devices = devices_from_answers(None, &answers);
    assert_eq!(devices.len(), 2);
    assert_eq!(devices[0].id, "127.0.0.1");
    assert_eq!(devices[1].id, "127.0.0.3");
}

#[test]
fn discovery_paths_and_urls() {
    assert_eq!(build_path(None), "/well-known/core");
    let qf = QueryFilter { name: "rt".to_string(), value: "oic.r.temperature".to_string() };
    assert_eq!(build_path(Some(&qf)), "/well-known/core?rt=oic.r.temperature");
    assert_eq!(endpoint_url("127.0.0.1", None), "coap://127.0.0.1:5683/well-known/core");
    assert!(endpoint_url("127.0.0.1", Some(&qf)).ends_with("?rt=oic.r.temperature"));
}
