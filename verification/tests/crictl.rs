use akri::crictl::container_slot_usage;
use akri::keyed::KeyedMap;
use akri::node_usage::{DeviceUsageKind, NodeUsage};

/// Reads crictl's JSON output the way the agent does: `containers`, each with
/// its `annotations`; `None` when the output does not have that shape.
fn read_crictl_output(output: &str) -> Option<Vec<Vec<(String, String)>>> {
    let value: serde_json::Value = serde_json::from_str(output).ok()?;
    let containers = value.get("containers")?.as_array()?;
    let mut all = Vec::new();
    for container in containers {
        let annotations = container.get("annotations")?.as_object()?;
        let mut list = Vec::new();
        for (key, value) in annotations {
            list.push((key.clone(), value.as_str()?.to_string()));
        }
        all.push(list);
    }
    Some(all)
}

fn get_container_slot_usage(output: &str) -> KeyedMap<NodeUsage> {
    let parsed = read_crictl_output(output);
    container_slot_usage(parsed.as_ref())
}

fn get_container_str(annotation: &str) -> String {
    format!("{{ \
      \"id\": \"46afc04a13ac21d73ff93843efd39590d66927d9b5d743d239542cf2f6de703e\", \
      \"podSandboxId\": \"9094d7341170ecbc6fb0a6a72ba449c8ea98d3267c60e06d815d03102ca7a3e6\", \
      \"metadata\": {{ \
        \"name\": \"akri-agent\", \
        \"attempt\": 0 \
      }}, \
      \"image\": {{ \
        \"image\": \"akri.sh/agent@sha256:86bb6234353129bcae170cfc7db5ad5f282cfc3495555a39aa88042948491850\" \
      }}, \
      \"imageRef\": \"sha256:1305fb97b2db8e9aa715af6a6cd0711986da7935bcbb98f6363aaa5b86163072\", \
      \"state\": \"CONTAINER_RUNNING\", \
      \"createdAt\": \"1587749289000000000\", \
      \"labels\": {{ \
        \"io.kubernetes.container.name\": \"akri-agent\", \
        \"io.kubernetes.pod.name\": \"akri-agent-daemonset-lt2gc\", \
        \"io.kubernetes.pod.namespace\": \"default\", \
        \"io.kubernetes.pod.uid\": \"1ed0098d-8d6f-4001-8192-f690f9b8ae98\" \
      }}, \
      \"annotations\": {{ \
        {} \
        \"io.kubernetes.container.hash\": \"34d65174\", \
        \"io.kubernetes.container.restartCount\": \"0\", \
        \"io.kubernetes.container.terminationMessagePath\": \"/dev/termination-log\", \
        \"io.kubernetes.container.terminationMessagePolicy\": \"File\", \
        \"io.kubernetes.pod.terminationGracePeriod\": \"30\" \
      }} \
    }}", annotation)
}

fn same_usage(map: &KeyedMap<NodeUsage>, expected: &[(&str, NodeUsage)]) -> bool {
    map.len() == expected.len() && expected.iter().all(|(k, v)| map.get(k) == Some(v))
}

#[test]
fn test_get_container_slot_usage() {
    // Empty output
    assert!(same_usage(&get_container_slot_usage(r#""#), &[]));
    // Empty json output
    assert!(same_usage(&get_container_slot_usage(r#"{}"#), &[]));
    // Expected output with no containers
    assert!(same_usage(&get_container_slot_usage(r#"{\"containers\": []}"#), &[]));
    // Output with syntax error
    assert!(same_usage(&get_container_slot_usage(r#"{ddd}"#), &[]));
    // Expected output with no slot
    assert!(same_usage(
        &get_container_slot_usage(&format!("{{ \"containers\": [ {} ] }}", &get_container_str(""))),
        &[]
    ));
    // Expected output with slot (including unexpected property)
    let expected = [("foo", NodeUsage::create(&DeviceUsageKind::Instance, "node-a").unwrap())];
    assert!(same_usage(
        &get_container_slot_usage(&format!(
            "{{ \"ddd\": \"\", \"containers\": [ {} ] }}",
            &get_container_str("\"akri.agent.slot-foo\": \"node-a\",")
        )),
        &expected
    ));
    // Expected output with slot
    assert!(same_usage(
        &get_container_slot_usage(&format!(
            "{{ \"containers\": [ {} ] }}",
            &get_container_str("\"akri.agent.slot-foo\": \"node-a\",")
        )),
        &expected
    ));
    // Expected output with multiple containers
    let expected_2 = [
        ("foo1", NodeUsage::create(&DeviceUsageKind::Instance, "node-a").unwrap()),
        ("foo2", NodeUsage::create(&DeviceUsageKind::Instance, "node-b").unwrap()),
    ];
    assert!(same_usage(
        &get_container_slot_usage(&format!(
            "{{ \"containers\": [ {}, {} ] }}",
            &get_container_str("\"akri.agent.slot-foo1\": \"node-a\","),
            &get_container_str("\"akri.agent.slot-foo2\": \"node-b\","),
        )),
        &expected_2
    ));
}

#[test]
fn unreadable_slot_annotations_are_skipped() {
    let containers = vec![vec![
        ("akri.agent.slot-a".to_string(), "C:0:".to_string()),
        ("akri.agent.slot-b".to_string(), "C:0:node-a".to_string()),
        ("other".to_string(), "node-a".to_string()),
    ]];
    let usage = container_slot_usage(Some(&containers));
    assert_eq!(usage.len(), 1);
    assert_eq!(
        usage.get("b"),
        Some(&NodeUsage::create(&DeviceUsageKind::Configuration("0".to_string()), "node-a").unwrap())
    );
    assert_eq!(container_slot_usage(None).len(), 0);
}
