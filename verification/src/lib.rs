//! Verified core logic of the Akri agent, controller and CoAP discovery handler.
pub mod config;
pub mod allocate;
pub mod coap;
pub mod crictl;
pub mod device;
pub mod device_plugin;
pub mod device_plugins;
pub mod discovery;
pub mod instance_action;
pub mod instance_updates;
pub mod keyed;
pub mod node_usage;
pub mod node_watcher;
pub mod pod_action;
pub mod pod_watcher;
pub mod props;
pub mod registration;
pub mod slot_reconciliation;
pub mod text;
pub mod virtual_devices;
