use akri::instance_action::{broker_redeploy_plan, ConfigurationPod, RedeployError};
use akri::instance_action::{nodes_to_add, nodes_to_remove, plan_pod_actions, plan_pod_actions_at, BrokerPod, PlanError};
use akri::node_watcher::{is_node_ready, next_node_step, remove_node_from_instance, NodeCondition, NodeEvent, NodeState, NodeStep};
use akri::pod_action::{InstanceAction, PodAction, PodActionError, PodActionInfo, CHRONO_MAX_MILLIS, CHRONO_MIN_MILLIS};
use akri::pod_watcher::{
    create_service_app_name, get_broker_pod_owner_kind, get_instance_and_configuration_from_pod, get_pod_phase,
    pod_event_step, service_labels, service_selector, services_to_remove, BrokerPodOwnerKind, OwnerReference,
    PodEvent, PodEventAction, PodLabelError, PodState, WatchedPod,
};
use akri::props::PropMap;
use std::time::{SystemTime, UNIX_EPOCH};

fn now_ms() -> i64 {
    SystemTime::now().duration_since(UNIX_EPOCH).unwrap().as_millis() as i64
}

fn minutes_ago(m: i64) -> Option<i64> {
    Some(now_ms() - m * 60 * 1000)
}

fn info(phase: &str, action: InstanceAction, start: Option<i64>, unknown_node: bool, pending: i64, ended: i64) -> PodActionInfo {
    PodActionInfo {
        pending_grace_time_in_minutes: pending,
        ended_grace_time_in_minutes: ended,
        phase: phase.to_string(),
        instance_action: action,
        status_start_time: start,
        unknown_node,
        trace_node_name: "foo".to_string(),
    }
}

#[test]
fn test_select_pod_action_for_unknown_nodes() {
    let unexpired_start_time = Some(now_ms());
    let expired_start_time = minutes_ago(10);
    [None, unexpired_start_time, expired_start_time].iter().for_each(|start_time| {
        [
            ("Running", PodAction::Remove),
            ("Pending", PodAction::Remove),
            ("UnexpectedAdmissionError", PodAction::Remove),
            ("ContainerCreating", PodAction::Remove),
            ("PodInitializing", PodAction::Remove),
            ("blah-blah-unknown", PodAction::Remove),
        ]
        .iter()
        .for_each(|map_tuple| {
            [InstanceAction::Add, InstanceAction::Remove, InstanceAction::Update].iter().for_each(|instance_action| {
                let pod_action_info = info(map_tuple.0, *instance_action, *start_time, true, 1, 1);
                assert_eq!(map_tuple.1, pod_action_info.select_pod_action().unwrap());
            });
        });
    });
}

#[test]
fn test_select_pod_action_for_known_nodes_with_instance_add_with_no_start_time() {
    [
        ("Running", PodAction::NoAction),
        ("Pending", PodAction::NoAction),
        ("UnexpectedAdmissionError", PodAction::NoAction),
        ("ContainerCreating", PodAction::NoAction),
        ("PodInitializing", PodAction::NoAction),
        ("blah-blah-unknown", PodAction::NoAction),
    ]
    .iter()
    .for_each(|map_tuple| {
        [InstanceAction::Add, InstanceAction::Update].iter().for_each(|instance_action| {
            let pod_action_info = info(map_tuple.0, *instance_action, None, false, 1, 1);
            assert_eq!(map_tuple.1, pod_action_info.select_pod_action().unwrap());
        });
    });
}

#[test]
fn test_select_pod_action_for_known_nodes_with_instance_add_with_expired_start_time() {
    let start_time = minutes_ago(10);
    [
        ("Running", PodAction::NoAction),
        ("Pending", PodAction::RemoveAndAdd),
        ("UnexpectedAdmissionError", PodAction::RemoveAndAdd),
        ("ContainerCreating", PodAction::NoAction),
        ("PodInitializing", PodAction::NoAction),
        ("blah-blah-unknown", PodAction::RemoveAndAdd),
    ]
    .iter()
    .for_each(|map_tuple| {
        [InstanceAction::Add, InstanceAction::Update].iter().for_each(|instance_action| {
            let pod_action_info1 = info(map_tuple.0, *instance_action, start_time, false, 1, 1);
            assert_eq!(map_tuple.1, pod_action_info1.select_pod_action().unwrap());
        });
    });
}

#[test]
fn test_select_pod_action_for_known_nodes_with_instance_add_with_unexpired_start_time() {
    let start_time = Some(now_ms());
    [
        ("Running", PodAction::NoAction),
        ("Pending", PodAction::NoAction),
        ("UnexpectedAdmissionError", PodAction::NoAction),
        ("ContainerCreating", PodAction::NoAction),
        ("PodInitializing", PodAction::NoAction),
        ("blah-blah-unknown", PodAction::NoAction),
    ]
    .iter()
    .for_each(|map_tuple| {
        [InstanceAction::Add, InstanceAction::Update].iter().for_each(|instance_action| {
            let pod_action_info = info(map_tuple.0, *instance_action, start_time, false, 1, 1);
            assert_eq!(map_tuple.1, pod_action_info.select_pod_action().unwrap());
        });
    });
}

#[test]
fn test_select_pod_action_for_known_nodes_with_instance_delete_with_unexpired_start_time() {
    let start_time = Some(now_ms());
    [
        ("Running", PodAction::Remove),
        ("Pending", PodAction::Remove),
        ("UnexpectedAdmissionError", PodAction::Remove),
        ("ContainerCreating", PodAction::Remove),
        ("PodInitializing", PodAction::Remove),
        ("blah-blah-unknown", PodAction::Remove),
    ]
    .iter()
    .for_each(|map_tuple| {
        let pod_action_info = info(map_tuple.0, InstanceAction::Remove, start_time, false, 1, 1);
        assert_eq!(map_tuple.1, pod_action_info.select_pod_action().unwrap());
    });
}

#[test]
fn test_select_pod_action_with_expired_start_time_for_ended_only() {
    let start_time = minutes_ago(3);
    [
        ("Running", PodAction::NoAction),
        ("Pending", PodAction::NoAction),
        ("UnexpectedAdmissionError", PodAction::RemoveAndAdd),
        ("ContainerCreating", PodAction::NoAction),
        ("PodInitializing", PodAction::NoAction),
        ("blah-blah-unknown", PodAction::RemoveAndAdd),
    ]
    .iter()
    .for_each(|map_tuple| {
        [InstanceAction::Add, InstanceAction::Update].iter().for_each(|instance_action| {
            let pod_action_info1 = info(map_tuple.0, *instance_action, start_time, false, 5, 1);
            assert_eq!(map_tuple.1, pod_action_info1.select_pod_action().unwrap());
        });
    });
}

#[test]
fn pod_action_at_a_fixed_time() {
    let start = 1_000_000;
    let pending = info("Pending", InstanceAction::Add, Some(start), false, 5, 0);
    assert_eq!(pending.select_pod_action_at(start + 5 * 60 * 1000 - 1), Ok(PodAction::NoAction));
    assert_eq!(pending.select_pod_action_at(start + 5 * 60 * 1000), Ok(PodAction::RemoveAndAdd));
    let failed = info("Failed", InstanceAction::Update, Some(start), false, 5, 0);
    assert_eq!(failed.select_pod_action_at(start), Ok(PodAction::RemoveAndAdd));
    let overflow = info("Pending", InstanceAction::Add, Some(i64::MAX), false, 5, 0);
    assert!(overflow.select_pod_action_at(0).is_err());
}

fn owner(kind: &str, controller: Option<bool>) -> OwnerReference {
    OwnerReference { kind: kind.to_string(), controller }
}

#[test]
fn test_get_broker_pod_owner_kind_instance() {
    assert_eq!(get_broker_pod_owner_kind(&vec![owner("Instance", Some(true))]), BrokerPodOwnerKind::Instance);
}

#[test]
fn test_get_broker_pod_owner_kind_job() {
    assert_eq!(get_broker_pod_owner_kind(&vec![owner("Job", Some(true))]), BrokerPodOwnerKind::Job);
}

#[test]
fn test_get_broker_pod_owner_kind_other() {
    assert_eq!(get_broker_pod_owner_kind(&vec![owner("OtherOwner", Some(true))]), BrokerPodOwnerKind::Other);
}

#[test]
fn test_get_broker_pod_owner_kind_non_controlling() {
    assert_eq!(get_broker_pod_owner_kind(&vec![owner("Instance", Some(false))]), BrokerPodOwnerKind::Other);
}

#[test]
fn test_get_broker_pod_owner_kind_both() {
    let owner_references = vec![owner("Instance", Some(false)), owner("Job", Some(true))];
    assert_eq!(get_broker_pod_owner_kind(&owner_references), BrokerPodOwnerKind::Job);
    assert_eq!(get_broker_pod_owner_kind(&vec![owner("Instance", None)]), BrokerPodOwnerKind::Other);
}

#[test]
fn pod_phases_and_events() {
    assert_eq!(get_pod_phase(None), "Unknown");
    assert_eq!(get_pod_phase(Some(&"Running".to_string())), "Running");
    let applied = |p: &str| PodEvent::Applied(p.to_string());
    assert_eq!(pod_event_step(None, &applied("Unknown")), PodEventAction::Record(PodState::Pending));
    assert_eq!(pod_event_step(Some(PodState::Running), &applied("Pending")), PodEventAction::Record(PodState::Pending));
    assert_eq!(pod_event_step(None, &applied("Running")), PodEventAction::Handle(PodState::Running));
    assert_eq!(pod_event_step(Some(PodState::Running), &applied("Running")), PodEventAction::Ignore);
    assert_eq!(pod_event_step(Some(PodState::Running), &applied("Succeeded")), PodEventAction::Handle(PodState::Ended));
    assert_eq!(pod_event_step(Some(PodState::Ended), &applied("Failed")), PodEventAction::Ignore);
    assert_eq!(pod_event_step(None, &applied("Whatever")), PodEventAction::Ignore);
    assert_eq!(pod_event_step(None, &PodEvent::Cleanup), PodEventAction::Handle(PodState::Deleted));
    assert_eq!(pod_event_step(Some(PodState::Deleted), &PodEvent::Cleanup), PodEventAction::Ignore);
}

#[test]
fn broker_pod_labels() {
    let mut labels = PropMap::new();
    labels.insert("akri.sh/instance".to_string(), "config-a-b494b6".to_string());
    assert_eq!(get_instance_and_configuration_from_pod(&labels), Err(PodLabelError::MissingConfiguration));
    labels.insert("akri.sh/configuration".to_string(), "config-a".to_string());
    assert_eq!(
        get_instance_and_configuration_from_pod(&labels),
        Ok(("config-a-b494b6".to_string(), "config-a".to_string()))
    );
    assert_eq!(get_instance_and_configuration_from_pod(&PropMap::new()), Err(PodLabelError::MissingInstance));
}

#[test]
fn services_lose_support_when_no_pod_runs() {
    let pod = |phase: Option<&str>, instance: Option<&str>| WatchedPod {
        phase: phase.map(|p| p.to_string()),
        instance: instance.map(|i| i.to_string()),
    };
    let pods = vec![pod(Some("Terminating"), Some("a")), pod(Some("Running"), Some("b"))];
    assert_eq!(services_to_remove(&pods, "a"), (false, true));
    let ended = vec![pod(Some("Failed"), Some("a")), pod(Some("Succeeded"), Some("b"))];
    assert_eq!(services_to_remove(&ended, "a"), (true, true));
    let unknown = vec![pod(None, Some("a"))];
    assert_eq!(services_to_remove(&unknown, "a"), (false, false));
    assert_eq!(services_to_remove(&Vec::new(), "a"), (true, true));
}

#[test]
fn service_names_and_labels() {
    assert_eq!(create_service_app_name("config.a"), "config-a-svc");
    assert_eq!(create_service_app_name("config-a-b494b6"), "config-a-b494b6-svc");
    let mut labels = PropMap::new();
    labels.insert("akri.sh/instance".to_string(), "i".to_string());
    let l = service_labels(&labels, "i-svc");
    assert_eq!(l.len(), 3);
    assert_eq!(l.get("app").cloned().unwrap(), "i-svc");
    assert_eq!(l.get("controller").cloned().unwrap(), "akri.sh");
    let s = service_selector(None);
    assert_eq!(s.len(), 1);
    assert_eq!(s.get("controller").cloned().unwrap(), "akri.sh");
}

#[test]
fn node_readiness_and_steps() {
    let cond = |t: &str, s: &str| NodeCondition { condition_type: t.to_string(), status: s.to_string() };
    assert!(is_node_ready(&vec![cond("MemoryPressure", "False"), cond("Ready", "True")]));
    assert!(!is_node_ready(&vec![cond("Ready", "True"), cond("MemoryPressure", "False")]));
    assert!(!is_node_ready(&vec![cond("Ready", "False")]));
    assert!(!is_node_ready(&Vec::new()));

    let step = |clean: bool, next: Option<NodeState>| NodeStep { clean_instances: clean, next };
    assert_eq!(next_node_step(None, NodeEvent::Applied(true)), step(false, Some(NodeState::Running)));
    assert_eq!(next_node_step(None, NodeEvent::Applied(false)), step(false, Some(NodeState::Known)));
    assert_eq!(next_node_step(Some(NodeState::Known), NodeEvent::Applied(false)), step(false, Some(NodeState::Known)));
    assert_eq!(
        next_node_step(Some(NodeState::Running), NodeEvent::Applied(false)),
        step(true, Some(NodeState::InstancesCleaned))
    );
    assert_eq!(
        next_node_step(Some(NodeState::InstancesCleaned), NodeEvent::Applied(false)),
        step(false, Some(NodeState::InstancesCleaned))
    );
    assert_eq!(next_node_step(Some(NodeState::Running), NodeEvent::Deleted), step(true, None));
    assert_eq!(next_node_step(None, NodeEvent::Deleted), step(true, None));
    assert_eq!(next_node_step(Some(NodeState::Known), NodeEvent::Deleted), step(false, None));
}

#[test]
fn vanished_nodes_leave_instances() {
    let nodes = vec!["node-a".to_string(), "node-b".to_string()];
    let mut usage = PropMap::new();
    usage.insert("i-0".to_string(), "node-a".to_string());
    usage.insert("i-1".to_string(), "C:0:node-a".to_string());
    usage.insert("i-2".to_string(), "node-b".to_string());
    usage.insert("i-3".to_string(), "".to_string());
    let (kept, cleared) = remove_node_from_instance(&nodes, &usage, "node-a");
    assert_eq!(kept, vec!["node-b".to_string()]);
    assert_eq!(cleared.len(), 4);
    assert_eq!(cleared.get("i-0").cloned().unwrap(), "");
    assert_eq!(cleared.get("i-1").cloned().unwrap(), "");
    assert_eq!(cleared.get("i-2").cloned().unwrap(), "node-b");
    assert_eq!(cleared.get("i-3").cloned().unwrap(), "");
}

fn broker_pod(phase: Option<&str>, start: Option<i64>, node: Option<&str>) -> BrokerPod {
    BrokerPod { phase: phase.map(|p| p.to_string()), start_time: start, target_node: node.map(|n| n.to_string()) }
}

fn sorted(mut v: Vec<String>) -> Vec<String> {
    v.sort();
    v
}

#[test]
fn broker_pods_are_planned_per_node() {
    let nodes = vec!["node-a".to_string(), "node-b".to_string(), "node-c".to_string()];
    let now = 10_000_000;
    let pods = vec![
        broker_pod(Some("Running"), Some(now), Some("node-a")),
        broker_pod(Some("Pending"), Some(now - 10 * 60 * 1000), Some("node-b")),
        broker_pod(Some("Running"), Some(now), Some("node-d")),
    ];
    let plan = plan_pod_actions_at(&nodes, &pods, now).unwrap();
    assert_eq!(plan.len(), 4);
    assert_eq!(plan.get("node-a"), Some(&PodAction::NoAction));
    assert_eq!(plan.get("node-b"), Some(&PodAction::RemoveAndAdd));
    assert_eq!(plan.get("node-c"), Some(&PodAction::Add));
    assert_eq!(plan.get("node-d"), Some(&PodAction::Remove));
    assert_eq!(sorted(nodes_to_remove(&plan)), vec!["node-b".to_string(), "node-d".to_string()]);
    assert_eq!(sorted(nodes_to_add(&plan)), vec!["node-b".to_string(), "node-c".to_string()]);

    assert_eq!(plan_pod_actions_at(&nodes, &vec![broker_pod(None, None, Some("node-a"))], now).err(), Some(PlanError::MissingPhase));
    assert_eq!(
        plan_pod_actions_at(&nodes, &vec![broker_pod(Some("Running"), None, None)], now).err(),
        Some(PlanError::MissingTargetNode)
    );
    let fresh = plan_pod_actions(&vec!["node-a".to_string()], &Vec::new()).unwrap();
    assert_eq!(fresh.get("node-a"), Some(&PodAction::Add));
}

#[test]
fn configuration_pods_are_grouped_by_instance() {
    let pod = |i: Option<&str>, n: Option<&str>| ConfigurationPod {
        instance: i.map(|s| s.to_string()),
        target_node: n.map(|s| s.to_string()),
    };
    let pods = vec![
        pod(Some("inst-a"), Some("node-a")),
        pod(Some("inst-a"), Some("node-b")),
        pod(Some("inst-b"), Some("node-a")),
        pod(Some("inst-gone"), Some("node-a")),
    ];
    let instances = vec!["inst-a".to_string(), "inst-b".to_string(), "inst-c".to_string()];
    let mut plan = broker_redeploy_plan(&pods, &instances).unwrap();
    plan.sort();
    for (_, nodes) in plan.iter_mut() {
        nodes.sort();
    }
    assert_eq!(
        plan,
        vec![
            ("inst-a".to_string(), vec!["node-a".to_string(), "node-b".to_string()]),
            ("inst-b".to_string(), vec!["node-a".to_string()])
        ]
    );
    assert_eq!(broker_redeploy_plan(&vec![pod(None, Some("n"))], &instances), Err(RedeployError::MissingInstanceLabel));
    assert_eq!(broker_redeploy_plan(&vec![pod(Some("inst-a"), None)], &instances), Err(RedeployError::MissingTargetNode));
}

#[test]
fn grace_period_ends_are_computed_up_to_the_edges_of_chronos_range() {
    let at = |start: i64, grace: i64, now: i64| info("Pending", InstanceAction::Update, Some(start), false, grace, 0).select_pod_action_at(now);
    // The last representable millisecond is reachable, one past it is not.
    assert_eq!(at(CHRONO_MAX_MILLIS - 60_000, 1, CHRONO_MAX_MILLIS), Ok(PodAction::RemoveAndAdd));
    assert_eq!(at(CHRONO_MAX_MILLIS - 60_000, 1, CHRONO_MAX_MILLIS - 1), Ok(PodAction::NoAction));
    assert_eq!(at(CHRONO_MAX_MILLIS - 59_999, 1, 0), Err(PodActionError::TimeOverflow));
    // The first representable millisecond is a valid start, one before it is not.
    assert_eq!(at(CHRONO_MIN_MILLIS, 0, CHRONO_MIN_MILLIS), Ok(PodAction::RemoveAndAdd));
    assert_eq!(at(CHRONO_MIN_MILLIS + 60_000, -1, CHRONO_MIN_MILLIS - 1), Ok(PodAction::NoAction));
    assert_eq!(at(CHRONO_MIN_MILLIS - 1, 1, 0), Err(PodActionError::TimeOverflow));
    assert_eq!(at(CHRONO_MIN_MILLIS + 59_999, -1, 0), Err(PodActionError::TimeOverflow));
    // A duration chrono cannot hold gives no end either.
    assert_eq!(at(0, i64::MAX / 60_000 + 1, 0), Err(PodActionError::TimeOverflow));
}
