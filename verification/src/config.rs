//! The persisted configuration: the global defaults and the lightweight
//! virtual machines, each registered under its name.

use vstd::prelude::*;
use vstd::string::*;
use crate::strmap::StrMap;

verus! {

/// The configuration of one lightweight virtual machine.
pub struct VmConfig {
    pub name: String,
    pub cpus: u32,
    pub mem: u32,
    pub container: String,
    pub workdir: String,
    pub dns: String,
    /// Host path to guest path.
    pub mapped_volumes: StrMap<String>,
    /// Host port to guest port, both in decimal.
    pub mapped_ports: StrMap<String>,
}

/// What a [`VmConfig`] holds, as mathematical values.
pub struct VmConfigView {
    pub name: Seq<char>,
    pub cpus: u32,
    pub mem: u32,
    pub container: Seq<char>,
    pub workdir: Seq<char>,
    pub dns: Seq<char>,
    pub mapped_volumes: Map<Seq<char>, Seq<char>>,
    pub mapped_ports: Map<Seq<char>, Seq<char>>,
}

impl View for VmConfig {
    type V = VmConfigView;

    open spec fn view(&self) -> VmConfigView {
        VmConfigView {
            name: self.name@,
            cpus: self.cpus,
            mem: self.mem,
            container: self.container@,
            workdir: self.workdir@,
            dns: self.dns@,
            mapped_volumes: self.mapped_volumes@,
            mapped_ports: self.mapped_ports@,
        }
    }
}

impl Default for VmConfig {
    /// Empty texts, no CPU, no memory, no mapping.
    fn default() -> (r: Self)
        ensures
            r@ == (VmConfigView {
                name: Seq::empty(),
                cpus: 0,
                mem: 0,
                container: Seq::empty(),
                workdir: Seq::empty(),
                dns: Seq::empty(),
                mapped_volumes: Map::empty(),
                mapped_ports: Map::empty(),
            }),
    {
        VmConfig {
            name: String::new(),
            cpus: 0,
            mem: 0,
            container: String::new(),
            workdir: String::new(),
            dns: String::new(),
            mapped_volumes: StrMap::new(),
            mapped_ports: StrMap::new(),
        }
    }
}

/// The global configuration of the tool.
pub struct CarrierConfig {
    pub version: u8,
    pub default_cpus: u32,
    pub default_mem: u32,
    pub default_dns: String,
    pub storage_volume: String,
    /// Each machine under its name.
    pub vmconfig_map: StrMap<VmConfig>,
}

/// What a [`CarrierConfig`] holds, as mathematical values.
pub struct CarrierConfigView {
    pub version: u8,
    pub default_cpus: u32,
    pub default_mem: u32,
    pub default_dns: Seq<char>,
    pub storage_volume: Seq<char>,
    pub vms: Map<Seq<char>, VmConfigView>,
}

impl View for CarrierConfig {
    type V = CarrierConfigView;

    open spec fn view(&self) -> CarrierConfigView {
        CarrierConfigView {
            version: self.version,
            default_cpus: self.default_cpus,
            default_mem: self.default_mem,
            default_dns: self.default_dns@,
            storage_volume: self.storage_volume@,
            vms: self.vmconfig_map@,
        }
    }
}

impl Default for CarrierConfig {
    /// Version 1, two CPUs and 1024 MiB for new machines, DNS server
    /// `1.1.1.1`, no storage volume yet and no machine.
    fn default() -> (r: CarrierConfig)
        ensures
            r@ == (CarrierConfigView {
                version: 1,
                default_cpus: 2,
                default_mem: 1024,
                default_dns: "1.1.1.1"@,
                storage_volume: Seq::empty(),
                vms: Map::empty(),
            }),
    {
        CarrierConfig {
            version: 1,
            default_cpus: 2,
            default_mem: 1024,
            default_dns: String::from_str("1.1.1.1"),
            storage_volume: String::new(),
            vmconfig_map: StrMap::new(),
        }
    }
}

/// The configuration once `vm` is registered under its name, replacing any
/// machine of that name.
pub open spec fn with_vm(c: CarrierConfigView, vm: VmConfigView) -> CarrierConfigView {
    CarrierConfigView { vms: c.vms.insert(vm.name, vm), ..c }
}

/// The configuration once the machine called `name` is gone.
pub open spec fn without_vm(c: CarrierConfigView, name: Seq<char>) -> CarrierConfigView {
    CarrierConfigView { vms: c.vms.remove(name), ..c }
}

/// Every machine is registered under its own name.
pub open spec fn names_consistent(c: CarrierConfigView) -> bool {
    forall|k: Seq<char>| #[trigger] c.vms.contains_key(k) ==> c.vms[k].name == k
}

/// No machine of the given name is registered.
#[derive(Clone, Copy, Debug, PartialEq, Eq, Structural)]
pub enum VmLookupError {
    NotFound,
}

impl CarrierConfig {
    /// Whether a machine called `name` is registered.
    pub fn has_vm(&self, name: &str) -> (r: bool)
        ensures
            r == self@.vms.contains_key(name@),
    {
        self.vmconfig_map.contains_key(name)
    }

    /// The machine called `name`.
    pub fn find_vm(&self, name: &str) -> (r: Result<&VmConfig, VmLookupError>)
        ensures
            match r {
                Ok(vm) => self@.vms.contains_key(name@) && vm@ == self@.vms[name@],
                Err(e) => e == VmLookupError::NotFound && !self@.vms.contains_key(name@),
            },
    {
        match self.vmconfig_map.get(name) {
            Some(vm) => Ok(vm),
            None => Err(VmLookupError::NotFound),
        }
    }

    /// Registers `vm` under its name, replacing any machine of that name.
    pub fn register_vm(&mut self, vm: VmConfig)
        ensures
            final(self)@ == with_vm(old(self)@, vm@),
    {
        let name = vm.name.clone();
        self.vmconfig_map.insert(name, vm);
    }

    /// Takes the machine called `name` out of the configuration; the
    /// configuration is left as it was when there is none.
    pub fn remove_vm(&mut self, name: &str) -> (r: Result<VmConfig, VmLookupError>)
        ensures
            final(self)@ == without_vm(old(self)@, name@),
            match r {
                Ok(vm) => old(self)@.vms.contains_key(name@) && vm@ == old(self)@.vms[name@],
                Err(e) => e == VmLookupError::NotFound && !old(self)@.vms.contains_key(name@)
                    && final(self)@ == old(self)@,
            },
    {
        let ghost before = self@;
        match self.vmconfig_map.remove(name) {
            Some(vm) => Ok(vm),
            None => {
                assert(before.vms.remove(name@) =~= before.vms);
                Err(VmLookupError::NotFound)
            },
        }
    }

    /// Whether no storage volume is configured yet.
    pub fn needs_storage_volume(&self) -> (r: bool)
        ensures
            r == (self@.storage_volume.len() == 0),
    {
        self.storage_volume.as_str().unicode_len() == 0
    }
}

/// A machine registered under its name is found under that name.
pub proof fn law_register_then_find(c: CarrierConfigView, vm: VmConfigView)
    ensures
        with_vm(c, vm).vms.contains_key(vm.name),
        with_vm(c, vm).vms[vm.name] == vm,
{
}

/// Registering a machine leaves every machine of another name as it was.
pub proof fn law_register_keeps_others(c: CarrierConfigView, vm: VmConfigView, other: Seq<char>)
    requires
        other != vm.name,
    ensures
        with_vm(c, vm).vms.contains_key(other) == c.vms.contains_key(other),
        c.vms.contains_key(other) ==> with_vm(c, vm).vms[other] == c.vms[other],
{
}

/// Deleting a machine just registered under a new name gives back the
/// configuration it was registered in.
pub proof fn law_delete_undoes_register(c: CarrierConfigView, vm: VmConfigView)
    requires
        !c.vms.contains_key(vm.name),
    ensures
        without_vm(with_vm(c, vm), vm.name) == c,
{
    assert(c.vms.insert(vm.name, vm).remove(vm.name) =~= c.vms);
}

/// Registering and deleting keep every machine under its own name.
pub proof fn law_names_stay_consistent(c: CarrierConfigView, vm: VmConfigView, name: Seq<char>)
    requires
        names_consistent(c),
    ensures
        names_consistent(with_vm(c, vm)),
        names_consistent(without_vm(c, name)),
{
}

} // verus!
