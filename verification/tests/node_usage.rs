use akri::node_usage::{DeviceUsageKind, NodeUsage, NodeUsageError};

#[test]
fn usage_strings_round_trip() {
    for (kind, node, text) in [
        (DeviceUsageKind::Free, "", ""),
        (DeviceUsageKind::Instance, "node-a", "node-a"),
        (DeviceUsageKind::Configuration("vdev_0".to_string()), "node-a", "C:vdev_0:node-a"),
    ] {
        let usage = NodeUsage::create(&kind, node).unwrap();
        assert_eq!(usage.to_usage_string(), text);
        assert_eq!(NodeUsage::parse(text).unwrap(), usage);
        assert_eq!(usage.get_kind(), kind);
        assert_eq!(usage.get_node_name(), node);
    }
}

#[test]
fn usage_creation_errors() {
    assert_eq!(NodeUsage::create(&DeviceUsageKind::Free, "node-a"), Err(NodeUsageError::NodeNameForFree));
    assert_eq!(NodeUsage::create(&DeviceUsageKind::Instance, ""), Err(NodeUsageError::MissingNodeName));
    assert_eq!(
        NodeUsage::create(&DeviceUsageKind::Configuration("0".to_string()), ""),
        Err(NodeUsageError::MissingNodeName)
    );
}

#[test]
fn usage_parsing() {
    assert_eq!(NodeUsage::parse("C:0:"), Err(NodeUsageError::Unparsable));
    // a node name with colons after the virtual device id stays whole
    let u = NodeUsage::parse("C:1:node:a").unwrap();
    assert_eq!(u.get_kind(), DeviceUsageKind::Configuration("1".to_string()));
    assert_eq!(u.get_node_name(), "node:a");
    // text that is not a Configuration reservation names an Instance reservation's node
    let i = NodeUsage::parse("C-node").unwrap();
    assert_eq!(i.get_kind(), DeviceUsageKind::Instance);
    assert!(i.is_same_node("C-node"));
    assert!(!i.is_same_node("node"));
    assert_eq!(NodeUsage::free().to_usage_string(), "");
}
