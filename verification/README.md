# akri

The decisions of Akri's agent, controller and CoAP discovery handler, written
in Verus and proved against their contracts.

- `src/` is the verified library. Each module states its model with spec
  functions and proves the executable code against it:
  - `node_usage`, `props`, `keyed`, `text`: slot usage strings, string maps and
    the character-level helpers the rest builds on;
  - `device_plugin`, `virtual_devices`, `allocate`, `device_plugins`, `device`:
    slot states, the virtual devices offered to kubelet, slot reservation and
    the answer for an allocated container;
  - `instance_updates`: the retried writes to an Instance (reserving a slot,
    creating or joining an Instance, leaving or deleting one);
  - `slot_reconciliation`, `crictl`: freeing slots no container uses;
  - `discovery`, `registration`, `config`: naming discovered devices, tracking
    their connectivity, discovery properties, discovery handler registration
    and Configuration events;
  - `pod_action`, `instance_action`, `pod_watcher`, `node_watcher`: the
    controller's broker Pod, Service and Node handling;
  - `coap`: CoRE link-format resources and CoAP devices.
- `app/` holds the I/O around the library: serde forms of its types, reading
  crictl output and the environment, and driving the watcher and retry steps.
- `tests/` runs the library on concrete values.
