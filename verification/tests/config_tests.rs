use carrier::config::{CarrierConfig, VmConfig, VmLookupError};
use carrier::strmap::StrMap;

fn vm(name: &str, cpus: u32) -> VmConfig {
    VmConfig {
        name: name.to_string(),
        cpus,
        mem: 512,
        container: format!("{}-working-container", name),
        workdir: "/root".to_string(),
        dns: "1.1.1.1".to_string(),
        mapped_volumes: StrMap::new(),
        mapped_ports: StrMap::new(),
    }
}

#[test]
fn default_carrier_config() {
    let c = CarrierConfig::default();
    assert_eq!(c.version, 1);
    assert_eq!(c.default_cpus, 2);
    assert_eq!(c.default_mem, 1024);
    assert_eq!(c.default_dns, "1.1.1.1");
    assert_eq!(c.storage_volume, "");
    assert!(c.vmconfig_map.is_empty());
    assert!(c.needs_storage_volume());
}

#[test]
fn default_vm_config_is_empty() {
    let v = VmConfig::default();
    assert_eq!(v.name, "");
    assert_eq!(v.cpus, 0);
    assert_eq!(v.mem, 0);
    assert!(v.mapped_volumes.is_empty());
    assert!(v.mapped_ports.is_empty());
}

#[test]
fn register_then_find() {
    let mut c = CarrierConfig::default();
    c.register_vm(vm("web", 4));
    assert!(c.has_vm("web"));
    let found = c.find_vm("web").unwrap();
    assert_eq!(found.cpus, 4);
    assert_eq!(found.name, "web");
    assert_eq!(c.find_vm("db").err(), Some(VmLookupError::NotFound));
}

#[test]
fn register_keeps_other_machines() {
    let mut c = CarrierConfig::default();
    c.register_vm(vm("web", 4));
    c.register_vm(vm("db", 8));
    c.register_vm(vm("web", 1));
    assert_eq!(c.find_vm("db").unwrap().cpus, 8);
    assert_eq!(c.find_vm("web").unwrap().cpus, 1);
    assert_eq!(c.vmconfig_map.len(), 2);
}

#[test]
fn delete_undoes_register() {
    let mut c = CarrierConfig::default();
    c.register_vm(vm("db", 8));
    c.register_vm(vm("web", 4));
    let removed = c.remove_vm("web").unwrap();
    assert_eq!(removed.name, "web");
    assert!(!c.has_vm("web"));
    assert!(c.has_vm("db"));
    assert_eq!(c.vmconfig_map.len(), 1);
}

#[test]
fn delete_of_unknown_machine_is_refused() {
    let mut c = CarrierConfig::default();
    c.register_vm(vm("db", 8));
    assert_eq!(c.remove_vm("web").err(), Some(VmLookupError::NotFound));
    assert_eq!(c.vmconfig_map.len(), 1);
}

#[test]
fn machines_stay_under_their_own_names() {
    let mut c = CarrierConfig::default();
    c.register_vm(vm("a", 1));
    c.register_vm(vm("b", 2));
    let _ = c.remove_vm("a");
    c.register_vm(vm("c", 3));
    for i in 0..c.vmconfig_map.len() {
        assert_eq!(c.vmconfig_map.key_at(i), &c.vmconfig_map.value_at(i).name);
    }
}

#[test]
fn storage_volume_once_set() {
    let mut c = CarrierConfig::default();
    c.storage_volume = "/Volumes/carrier".to_string();
    assert!(!c.needs_storage_volume());
}
