use akri::allocate::InstanceDevice;
use akri::device::Device;
use akri::device_plugin::SlotReservationError;
use akri::device_plugins::{ConfigurationDevicePlugin, InstanceDevicePlugin, WatchMessage, WatchNext};
use akri::instance_updates::{
    creation_step, deletion_step, reservation_step, CreationAction, CreationEvent, DeletionAction, DeletionEvent,
    ReservationAction, ReservationEvent, ReservationFailure, MAX_INSTANCE_UPDATE_TRIES,
};
use akri::keyed::KeyedMap;
use akri::node_usage::DeviceUsageKind;
use akri::props::PropMap;

fn strings(v: &[&str]) -> Vec<String> {
    v.iter().map(|s| s.to_string()).collect()
}

#[test]
fn a_free_slot_is_written_and_the_write_retried_until_the_tries_are_used_up() {
    let free = Some(String::new());
    assert_eq!(
        reservation_step(0, &ReservationEvent::InstanceRead(free.clone()), "node-a", &DeviceUsageKind::Instance),
        ReservationAction::WriteUsage("node-a".to_string())
    );
    assert_eq!(
        reservation_step(0, &ReservationEvent::InstanceRead(free), "node-a", &DeviceUsageKind::Configuration("2".to_string())),
        ReservationAction::WriteUsage("C:2:node-a".to_string())
    );
    assert_eq!(reservation_step(0, &ReservationEvent::WriteSucceeded, "node-a", &DeviceUsageKind::Instance), ReservationAction::Finish(Ok(())));
    for t in 0..MAX_INSTANCE_UPDATE_TRIES - 1 {
        assert_eq!(
            reservation_step(t, &ReservationEvent::WriteFailed, "node-a", &DeviceUsageKind::Instance),
            ReservationAction::RetryAfterDelay(t + 1)
        );
    }
    assert_eq!(
        reservation_step(MAX_INSTANCE_UPDATE_TRIES - 1, &ReservationEvent::WriteFailed, "node-a", &DeviceUsageKind::Instance),
        ReservationAction::Finish(Err(ReservationFailure::UpdateFailed))
    );
}

#[test]
fn a_held_slot_is_granted_again_to_the_same_kind_only() {
    let own_instance = Some("node-a".to_string());
    let own_config = Some("C:0:node-a".to_string());
    assert_eq!(
        reservation_step(0, &ReservationEvent::InstanceRead(own_instance.clone()), "node-a", &DeviceUsageKind::Instance),
        ReservationAction::Finish(Ok(()))
    );
    assert_eq!(
        reservation_step(0, &ReservationEvent::InstanceRead(own_instance), "node-a", &DeviceUsageKind::Configuration("0".to_string())),
        ReservationAction::Finish(Err(ReservationFailure::Refused(SlotReservationError::InUseByInstance)))
    );
    assert_eq!(
        reservation_step(0, &ReservationEvent::InstanceRead(own_config.clone()), "node-a", &DeviceUsageKind::Configuration("5".to_string())),
        ReservationAction::Finish(Ok(()))
    );
    assert_eq!(
        reservation_step(0, &ReservationEvent::InstanceRead(own_config), "node-a", &DeviceUsageKind::Instance),
        ReservationAction::Finish(Err(ReservationFailure::Refused(SlotReservationError::InUseByConfiguration)))
    );
    assert_eq!(
        reservation_step(0, &ReservationEvent::InstanceRead(Some("node-b".to_string())), "node-a", &DeviceUsageKind::Instance),
        ReservationAction::Finish(Err(ReservationFailure::Refused(SlotReservationError::InUseByOtherNode)))
    );
    assert_eq!(
        reservation_step(0, &ReservationEvent::InstanceRead(None), "node-a", &DeviceUsageKind::Instance),
        ReservationAction::Finish(Err(ReservationFailure::Refused(SlotReservationError::SlotNotFound)))
    );
    assert_eq!(
        reservation_step(0, &ReservationEvent::InstanceMissing, "node-a", &DeviceUsageKind::Instance),
        ReservationAction::Finish(Err(ReservationFailure::InstanceNotFound))
    );
}

#[test]
fn an_instance_is_created_or_joined_and_the_plugin_ends_when_it_cannot_be() {
    assert_eq!(creation_step(0, &CreationEvent::ConfigurationMissing, "node-a"), CreationAction::EndService);
    assert_eq!(creation_step(0, &CreationEvent::InstanceAbsent, "node-a"), CreationAction::Create);
    assert_eq!(creation_step(0, &CreationEvent::InstanceFound(strings(&["node-b", "node-a"])), "node-a"), CreationAction::Serve);
    assert_eq!(
        creation_step(0, &CreationEvent::InstanceFound(strings(&["node-b"])), "node-a"),
        CreationAction::UpdateNodes(strings(&["node-b", "node-a"]))
    );
    assert_eq!(creation_step(2, &CreationEvent::WriteSucceeded, "node-a"), CreationAction::Serve);
    assert_eq!(creation_step(2, &CreationEvent::WriteFailed, "node-a"), CreationAction::RetryAfterDelay(3));
    assert_eq!(creation_step(MAX_INSTANCE_UPDATE_TRIES - 1, &CreationEvent::WriteFailed, "node-a"), CreationAction::EndService);
}

#[test]
fn a_node_leaves_an_instance_which_is_deleted_when_no_node_is_left() {
    assert_eq!(deletion_step(0, &DeletionEvent::InstanceFound(strings(&["node-a"])), "node-a"), DeletionAction::Delete);
    assert_eq!(
        deletion_step(0, &DeletionEvent::InstanceFound(strings(&["node-a", "node-b"])), "node-a"),
        DeletionAction::UpdateNodes(strings(&["node-b"]))
    );
    assert_eq!(deletion_step(1, &DeletionEvent::WriteSucceeded, "node-a"), DeletionAction::Done);
    assert_eq!(deletion_step(1, &DeletionEvent::WriteFailed, "node-a"), DeletionAction::Retry(2));
    assert_eq!(deletion_step(MAX_INSTANCE_UPDATE_TRIES - 1, &DeletionEvent::WriteFailed, "node-a"), DeletionAction::Fail);
    assert_eq!(deletion_step(0, &DeletionEvent::InstanceMissing, "node-a"), DeletionAction::Retry(1));
    assert_eq!(deletion_step(MAX_INSTANCE_UPDATE_TRIES - 1, &DeletionEvent::InstanceMissing, "node-a"), DeletionAction::Done);
}

fn device() -> InstanceDevice {
    InstanceDevice {
        device: Device { id: "d".to_string(), properties: PropMap::new(), mounts: vec![], device_specs: vec![] },
        instance_id: "i".to_string(),
    }
}

#[test]
fn allocate_tells_its_own_list_and_watch_on_failure_and_the_others_on_success() {
    let failed = InstanceDevicePlugin::allocate_notices(false, true);
    assert!(failed.continue_own_list_and_watch && !failed.notify_configuration_plugin);
    let done = InstanceDevicePlugin::allocate_notices(true, true);
    assert!(!done.continue_own_list_and_watch && done.notify_configuration_plugin);
    assert!(!InstanceDevicePlugin::allocate_notices(true, false).notify_configuration_plugin);

    let mut known: KeyedMap<InstanceDevice> = KeyedMap::new();
    known.insert("inst-a".to_string(), device());
    known.insert("inst-b".to_string(), device());
    let plugin = ConfigurationDevicePlugin {};
    let allocated = strings(&["inst-b", "inst-gone", "inst-b", "inst-a"]);
    let done = plugin.allocate_notices(true, &allocated, &known);
    assert!(!done.continue_own_list_and_watch);
    assert_eq!(done.instances_to_notify, strings(&["inst-b", "inst-a"]));
    let failed = plugin.allocate_notices(false, &allocated, &known);
    assert!(failed.continue_own_list_and_watch);
    assert!(failed.instances_to_notify.is_empty());
}

#[test]
fn list_and_watch_ends_reporting_every_sent_device_unhealthy() {
    let prev = vec![("s-0".to_string(), "Healthy".to_string()), ("s-1".to_string(), "Unhealthy".to_string())];
    assert_eq!(InstanceDevicePlugin::on_watch_message(WatchMessage::Continue, &prev), WatchNext::Loop);
    assert_eq!(InstanceDevicePlugin::on_watch_message(WatchMessage::Timeout, &prev), WatchNext::Loop);
    assert_eq!(
        InstanceDevicePlugin::on_watch_message(WatchMessage::End, &prev),
        WatchNext::End(Some(vec![("s-0".to_string(), "Unhealthy".to_string()), ("s-1".to_string(), "Unhealthy".to_string())]))
    );
    assert_eq!(InstanceDevicePlugin::on_watch_message(WatchMessage::End, &vec![]), WatchNext::End(None));

    let plugin = ConfigurationDevicePlugin {};
    let mut offered = PropMap::new();
    offered.insert("0".to_string(), "Healthy".to_string());
    assert_eq!(plugin.on_watch_message(WatchMessage::Continue, &offered), WatchNext::Loop);
    assert_eq!(
        plugin.on_watch_message(WatchMessage::End, &offered),
        WatchNext::End(Some(vec![("0".to_string(), "Unhealthy".to_string())]))
    );
    assert_eq!(plugin.on_watch_message(WatchMessage::End, &PropMap::new()), WatchNext::End(None));
}

#[test]
fn a_failed_send_to_kubelet_ends_the_service() {
    let gone = InstanceDevicePlugin::after_kubelet_send(false, true);
    assert!(gone.end_service && gone.forget_instance && !gone.notify_configuration_plugin);
    let sent = InstanceDevicePlugin::after_kubelet_send(true, true);
    assert!(!sent.end_service && !sent.forget_instance && sent.notify_configuration_plugin);
    let plugin = ConfigurationDevicePlugin {};
    let gone = plugin.after_kubelet_send(false);
    assert!(gone.end_service && !gone.forget_instance && !gone.notify_configuration_plugin);
    assert!(!plugin.after_kubelet_send(true).end_service);
}
