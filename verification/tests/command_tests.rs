use carrier::buildah::{
    buildah_container_args, buildah_from_args, read_buildah_output, BuildahError, Platform,
};
use carrier::config::{CarrierConfig, VmConfig};
use carrier::create::{build_vm_config, plan_create, CreateError, CreateOptions};
use carrier::host::{
    case_test_leftovers, case_test_paths, describe_vm, is_case_sensitive, lock_path, port_map_entries,
    resolv_conf_contents, resolv_conf_dir, resolv_conf_path, storage_volume_step, unshare_required,
    vm_environment, volume_from_answer, VolumeStep, VolumeTest, volume_map_entries, volume_mount_points,
};
use carrier::mapping::{PortError, VolumeError};
use carrier::strmap::StrMap;

fn options(image: &str) -> CreateOptions {
    CreateOptions {
        cpus: None,
        mem: None,
        dns: None,
        workdir: "/root".to_string(),
        volumes: vec![],
        volume_host_exists: vec![],
        ports: vec![],
        name: None,
        image: image.to_string(),
    }
}

fn strings(v: &[&str]) -> Vec<String> {
    v.iter().map(|s| s.to_string()).collect()
}

#[test]
fn plan_uses_configured_defaults() {
    let c = CarrierConfig::default();
    let p = plan_create(&c, options("fedora"), Platform::Linux).unwrap();
    assert_eq!(p.cpus, 2);
    assert_eq!(p.mem, 1024);
    assert_eq!(p.dns, "1.1.1.1");
    assert_eq!(p.workdir, "/root");
    assert_eq!(p.name, None);
    assert_eq!(p.buildah_args, strings(&["from", "fedora"]));
}

#[test]
fn plan_takes_given_values() {
    let c = CarrierConfig::default();
    let mut o = options("alpine");
    o.cpus = Some("4".to_string());
    o.mem = Some("+2048".to_string());
    o.dns = Some("8.8.8.8".to_string());
    o.ports = strings(&["8080:80"]);
    o.volumes = strings(&["/srv:/srv"]);
    o.volume_host_exists = vec![true];
    o.name = Some("web".to_string());
    let p = plan_create(&c, o, Platform::Linux).unwrap();
    assert_eq!((p.cpus, p.mem), (4, 2048));
    assert_eq!(p.dns, "8.8.8.8");
    assert_eq!(p.mapped_ports.get("8080"), Some(&"80".to_string()));
    assert_eq!(p.mapped_volumes.get("/srv"), Some(&"/srv".to_string()));
    assert_eq!(p.name, Some("web".to_string()));
}

#[test]
fn plan_errors_come_in_order() {
    let c = CarrierConfig::default();
    let mut o = options("x");
    o.cpus = Some("many".to_string());
    o.mem = Some("lots".to_string());
    assert_eq!(plan_create(&c, o, Platform::Linux).err(), Some(CreateError::InvalidCpus));
    let mut o = options("x");
    o.mem = Some("-1".to_string());
    o.ports = strings(&["bad"]);
    assert_eq!(plan_create(&c, o, Platform::Linux).err(), Some(CreateError::InvalidMem));
    let mut o = options("x");
    o.volumes = strings(&["rel:/g"]);
    o.volume_host_exists = vec![false];
    o.ports = strings(&["bad"]);
    assert_eq!(
        plan_create(&c, o, Platform::Linux).err(),
        Some(CreateError::Volume(VolumeError::HostNotAbsolute))
    );
    let mut o = options("x");
    o.ports = strings(&["bad"]);
    assert_eq!(plan_create(&c, o, Platform::Linux).err(), Some(CreateError::Port(PortError::InvalidSpec)));
}

#[test]
fn plan_refuses_a_taken_name() {
    let mut c = CarrierConfig::default();
    c.register_vm(VmConfig { name: "web".to_string(), ..VmConfig::default() });
    let mut o = options("x");
    o.name = Some("web".to_string());
    assert_eq!(plan_create(&c, o, Platform::Linux).err(), Some(CreateError::NameTaken));
    assert_eq!(CreateError::NameTaken.message(), "A VM with this name already exists");
    assert_eq!(CreateError::InvalidCpus.message(), "Invalid value for \"cpus\"");
    assert_eq!(CreateError::InvalidMem.message(), "Invalid value for \"mem\"");
    assert_eq!(CreateError::Port(PortError::InvalidHostPort).message(), "Invalid host port");
}

#[test]
fn buildah_arguments_per_platform() {
    assert_eq!(buildah_from_args("/V", "img", Platform::Linux), strings(&["from", "img"]));
    assert_eq!(
        buildah_from_args("/V", "img", Platform::MacOs),
        strings(&["--root", "/V/root", "--runroot", "/V/runroot", "from", "--os", "linux", "img"])
    );
    assert_eq!(buildah_container_args("/V", "mount", "c1", Platform::Linux), strings(&["mount", "c1"]));
    assert_eq!(
        buildah_container_args("/V", "mount", "c1", Platform::MacOs),
        strings(&["--root", "/V/root", "--runroot", "/V/runroot", "mount", "c1"])
    );
}

#[test]
fn buildah_output_is_trimmed_on_success() {
    assert_eq!(read_buildah_output(Some(0), "  fedora-working-container\n").unwrap(), "fedora-working-container");
    match read_buildah_output(Some(125), "boom\n") {
        Err(BuildahError::Failed(out)) => assert_eq!(out, "boom\n"),
        Ok(_) => panic!("accepted a failure"),
    }
    assert!(read_buildah_output(None, "x").is_err());
}

#[test]
fn machine_named_after_container_when_no_name() {
    let c = CarrierConfig::default();
    let p = plan_create(&c, options("fedora"), Platform::Linux).unwrap();
    let v = build_vm_config(p, "fedora-working-container".to_string());
    assert_eq!(v.name, "fedora-working-container");
    assert_eq!(v.container, "fedora-working-container");
    let mut o = options("fedora");
    o.name = Some("mine".to_string());
    let p = plan_create(&c, o, Platform::Linux).unwrap();
    let v = build_vm_config(p, "ctr".to_string());
    assert_eq!(v.name, "mine");
    assert_eq!(v.container, "ctr");
    assert_eq!(v.cpus, 2);
}

#[test]
fn files_under_the_root_file_system() {
    assert_eq!(resolv_conf_dir("/r"), "/r/etc/");
    assert_eq!(resolv_conf_path("/r"), "/r/etc/resolv.conf");
    assert_eq!(resolv_conf_contents("8.8.8.8"), "options use-vc\nnameserver 8.8.8.8\n");
    assert_eq!(lock_path("/r"), "/r/.carrier.lock");
}

#[test]
fn machine_environment_and_mappings() {
    let mut ports: StrMap<String> = StrMap::new();
    ports.insert("8080".to_string(), "80".to_string());
    let mut vols: StrMap<String> = StrMap::new();
    vols.insert("/h".to_string(), "/g".to_string());
    let v = VmConfig { name: "web".to_string(), mapped_ports: ports, mapped_volumes: vols, ..VmConfig::default() };
    assert_eq!(
        vm_environment(&v),
        strings(&["HOSTNAME=web", "HOME=/root", "PATH=/bin:/sbin:/usr/bin:/usr/sbin:/usr/local/bin"])
    );
    assert_eq!(port_map_entries(&v), strings(&["8080:80"]));
    assert_eq!(volume_map_entries(&v), strings(&["/h:/g"]));
    assert_eq!(volume_mount_points(&v, "/rootfs"), vec![("/h".to_string(), "/rootfs/g".to_string())]);
}

#[test]
fn machine_description() {
    let v = VmConfig {
        name: "web".to_string(),
        cpus: 2,
        mem: 1024,
        container: "c".to_string(),
        workdir: "/root".to_string(),
        dns: "1.1.1.1".to_string(),
        ..VmConfig::default()
    };
    assert_eq!(
        describe_vm(&v),
        "web\n CPUs: 2\n RAM (MiB): 1024\n DNS server: 1.1.1.1\n Buildah container: c\n Workdir: /root\n"
    );
}

#[test]
fn host_decisions() {
    assert!(unshare_required(1000, false));
    assert!(!unshare_required(0, false));
    assert!(!unshare_required(1000, true));
    assert_eq!(volume_from_answer(""), "/Volumes/carrier");
    assert_eq!(volume_from_answer("/Volumes/x"), "/Volumes/x");
    assert!(is_case_sensitive("first"));
    assert!(!is_case_sensitive("second"));
    assert_eq!(
        case_test_paths("/V"),
        ("/V/carrier_test".to_string(), "/V/CARRIER_TEST".to_string())
    );
    assert_eq!(
        case_test_leftovers("/V/a".to_string(), "/V/A".to_string(), true),
        strings(&["/V/a", "/V/A"])
    );
    assert_eq!(case_test_leftovers("/V/a".to_string(), "/V/A".to_string(), false), strings(&["/V/a"]));
}

#[test]
fn storage_volume_step_records_only_a_passed_volume() {
    let mut c = CarrierConfig::default();
    assert_eq!(storage_volume_step(&mut c, "/Volumes/a".to_string(), VolumeTest::Failed), VolumeStep::AskAgain);
    assert_eq!(storage_volume_step(&mut c, "/Volumes/b".to_string(), VolumeTest::Error), VolumeStep::AskAgain);
    assert!(c.needs_storage_volume());
    assert_eq!(storage_volume_step(&mut c, "/Volumes/c".to_string(), VolumeTest::Passed), VolumeStep::StoreAndExit);
    assert_eq!(c.storage_volume, "/Volumes/c");
}

#[test]
fn every_mapping_is_listed_once() {
    let mut ports: StrMap<String> = StrMap::new();
    for (h, g) in [("1", "10"), ("2", "20"), ("1", "11"), ("3", "30")] {
        ports.insert(h.to_string(), g.to_string());
    }
    let v = VmConfig { mapped_ports: ports, ..VmConfig::default() };
    let mut got = port_map_entries(&v);
    got.sort();
    assert_eq!(got, strings(&["1:11", "2:20", "3:30"]));
}
