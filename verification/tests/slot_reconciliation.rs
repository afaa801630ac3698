use akri::keyed::KeyedMap;
use akri::node_usage::{DeviceUsageKind, NodeUsage};
use akri::props::PropMap;
use akri::slot_reconciliation::{any_unready_pods, DevicePluginSlotReconciler, PodCondition};

fn usage(pairs: &[(&str, &str)]) -> PropMap {
    let mut m = PropMap::new();
    for (k, v) in pairs {
        m.insert(k.to_string(), v.to_string());
    }
    m
}

fn node_slots(pairs: &[(&str, &str)]) -> KeyedMap<NodeUsage> {
    let mut m = KeyedMap::new();
    for (slot, node) in pairs {
        m.insert(slot.to_string(), NodeUsage::create(&DeviceUsageKind::Instance, node).unwrap());
    }
    m
}

#[test]
fn nothing_to_reconcile() {
    let mut r = DevicePluginSlotReconciler::new();
    let d = usage(&[("i-0", "node-a"), ("i-1", "")]);
    let s = node_slots(&[("i-0", "node-a")]);
    assert!(r.reconcile_instance("node-a", &d, &s, 100, 10).is_none());
    assert_eq!(r.removal_slot_map.len(), 0);
}

#[test]
fn slots_in_use_are_recorded() {
    let mut r = DevicePluginSlotReconciler::new();
    let d = usage(&[("i-0", ""), ("i-1", "")]);
    let s = node_slots(&[("i-0", "node-a")]);
    let (updated, cleaned) = r.reconcile_instance("node-a", &d, &s, 100, 10).unwrap();
    assert_eq!(updated.get("i-0").cloned().unwrap(), "node-a");
    assert_eq!(updated.get("i-1").cloned().unwrap(), "");
    assert!(cleaned.is_empty());
}

#[test]
fn unused_slots_are_freed_after_the_grace_period() {
    let mut r = DevicePluginSlotReconciler::new();
    let d = usage(&[("i-0", "node-a"), ("i-1", "node-b")]);
    let s = node_slots(&[]);
    // first seen unused: tracked, not freed yet
    assert!(r.reconcile_instance("node-a", &d, &s, 100, 10).is_none());
    assert_eq!(r.removal_slot_map.get("i-0"), Some(&100));
    assert!(r.removal_slot_map.get("i-1").is_none());
    // still within the grace period
    assert!(r.reconcile_instance("node-a", &d, &s, 110, 10).is_none());
    // past the grace period: freed
    let (updated, cleaned) = r.reconcile_instance("node-a", &d, &s, 111, 10).unwrap();
    assert_eq!(updated.get("i-0").cloned().unwrap(), "");
    assert_eq!(updated.get("i-1").cloned().unwrap(), "node-b");
    assert_eq!(cleaned, vec!["i-0".to_string()]);
    r.forget_cleaned_slots(&cleaned);
    assert_eq!(r.removal_slot_map.len(), 0);
}

#[test]
fn slots_used_again_are_no_longer_tracked() {
    let mut r = DevicePluginSlotReconciler::new();
    let d = usage(&[("i-0", "node-a")]);
    assert!(r.reconcile_instance("node-a", &d, &node_slots(&[]), 100, 10).is_none());
    assert_eq!(r.removal_slot_map.len(), 1);
    let s = node_slots(&[("i-0", "node-a")]);
    r.forget_used_slots(&s);
    assert_eq!(r.removal_slot_map.len(), 0);
    assert!(r.reconcile_instance("node-a", &d, &s, 200, 10).is_none());
}

#[test]
fn unready_pods_hold_reconciliation() {
    let cond = |t: &str, s: &str, reason: Option<&str>| PodCondition {
        type_: t.to_string(),
        status: s.to_string(),
        reason: reason.map(|r| r.to_string()),
    };
    assert!(!any_unready_pods(&vec![vec![cond("ContainersReady", "True", None)]]));
    assert!(any_unready_pods(&vec![vec![cond("Ready", "True", None)], vec![cond("ContainersReady", "False", None)]]));
    assert!(!any_unready_pods(&vec![vec![cond("ContainersReady", "False", Some("PodCompleted"))]]));
    assert!(!any_unready_pods(&Vec::new()));
}
