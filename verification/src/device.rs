//! A device as a discovery handler reports it: its id, its properties, and
//! what a broker container needs mounted to reach it.
use vstd::prelude::*;
use crate::props::PropMap;

verus! {

/// A path mounted into a broker container.
pub struct Mount {
    pub container_path: String,
    pub host_path: String,
    pub read_only: bool,
}

/// A device node exposed to a broker container.
pub struct DeviceSpec {
    pub container_path: String,
    pub host_path: String,
    pub permissions: String,
}

/// A discovered device.
pub struct Device {
    pub id: String,
    pub properties: PropMap,
    pub mounts: Vec<Mount>,
    pub device_specs: Vec<DeviceSpec>,
}

/// Abstract value of a `Mount`.
pub open spec fn mount_view(m: Mount) -> (Seq<char>, Seq<char>, bool) {
    (m.container_path@, m.host_path@, m.read_only)
}

/// Abstract value of a `DeviceSpec`.
pub open spec fn device_spec_view(d: DeviceSpec) -> (Seq<char>, Seq<char>, Seq<char>) {
    (d.container_path@, d.host_path@, d.permissions@)
}

/// Mounts by their abstract value.
pub open spec fn mounts_view(v: Seq<Mount>) -> Seq<(Seq<char>, Seq<char>, bool)> {
    v.map_values(|m: Mount| mount_view(m))
}

/// Device specs by their abstract value.
pub open spec fn device_specs_view(v: Seq<DeviceSpec>) -> Seq<(Seq<char>, Seq<char>, Seq<char>)> {
    v.map_values(|d: DeviceSpec| device_spec_view(d))
}

impl Mount {
    /// A copy of the mount.
    pub fn copy(&self) -> (m: Mount)
        ensures
            mount_view(m) == mount_view(*self),
    {
        Mount { container_path: self.container_path.clone(), host_path: self.host_path.clone(), read_only: self.read_only }
    }
}

impl DeviceSpec {
    /// A copy of the device spec.
    pub fn copy(&self) -> (d: DeviceSpec)
        ensures
            device_spec_view(d) == device_spec_view(*self),
    {
        DeviceSpec {
            container_path: self.container_path.clone(),
            host_path: self.host_path.clone(),
            permissions: self.permissions.clone(),
        }
    }
}

/// Copies of a list of mounts.
pub fn copy_mounts(v: &Vec<Mount>) -> (r: Vec<Mount>)
    ensures
        mounts_view(r@) == mounts_view(v@),
{
    let mut r: Vec<Mount> = Vec::new();
    let mut i: usize = 0;
    while i < v.len()
        invariant
            i <= v@.len(),
            mounts_view(r@) == mounts_view(v@).take(i as int),
        decreases v.len() - i,
    {
        let ghost before = r@;
        r.push(v[i].copy());
        assert(mounts_view(r@) =~= mounts_view(before).push(mount_view(v@[i as int])));
        assert(mounts_view(v@).take(i + 1) =~= mounts_view(v@).take(i as int).push(mount_view(v@[i as int])));
        i = i + 1;
    }
    assert(mounts_view(v@).take(v@.len() as int) =~= mounts_view(v@));
    r
}

impl Device {
    /// A copy of the device.
    pub fn copy(&self) -> (d: Device)
        ensures
            d.id@ == self.id@,
            d.properties@ == self.properties@,
            mounts_view(d.mounts@) == mounts_view(self.mounts@),
            device_specs_view(d.device_specs@) == device_specs_view(self.device_specs@),
    {
        let mut specs: Vec<DeviceSpec> = Vec::new();
        let mut i: usize = 0;
        while i < self.device_specs.len()
            invariant
                i <= self.device_specs@.len(),
                device_specs_view(specs@) == device_specs_view(self.device_specs@).take(i as int),
            decreases self.device_specs.len() - i,
        {
            let ghost before = specs@;
            specs.push(self.device_specs[i].copy());
            assert(device_specs_view(specs@) =~= device_specs_view(before).push(device_spec_view(self.device_specs@[i as int])));
            assert(device_specs_view(self.device_specs@).take(i + 1)
                =~= device_specs_view(self.device_specs@).take(i as int).push(device_spec_view(self.device_specs@[i as int])));
            i = i + 1;
        }
        assert(device_specs_view(self.device_specs@).take(self.device_specs@.len() as int) =~= device_specs_view(self.device_specs@));
        Device {
            id: self.id.clone(),
            properties: self.properties.clone_map(),
            mounts: copy_mounts(&self.mounts),
            device_specs: specs,
        }
    }
}

} // verus!
