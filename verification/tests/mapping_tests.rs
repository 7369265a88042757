use carrier::mapping::{
    parse_mapped_ports, parse_mapped_volumes, parse_port_mapping, parse_volume_mapping,
    volume_host_path, PortError, VolumeError,
};
use carrier::strmap::StrMap;

fn entries(m: &StrMap<String>) -> Vec<(String, String)> {
    let mut v = Vec::new();
    for i in 0..m.len() {
        v.push((m.key_at(i).clone(), m.value_at(i).clone()));
    }
    v
}

fn pair(a: &str, b: &str) -> (String, String) {
    (a.to_string(), b.to_string())
}

#[test]
fn ports_are_collected_in_decimal() {
    let m = parse_mapped_ports(vec!["8080:80", "0022:+22"]).unwrap();
    assert_eq!(entries(&m), vec![pair("8080", "80"), pair("22", "22")]);
    assert_eq!(m.get("22"), Some(&"22".to_string()));
    assert_eq!(m.get("0022"), None);
}

#[test]
fn later_port_mapping_replaces_earlier() {
    let m = parse_mapped_ports(vec!["8080:80", "9000:90", "8080:81"]).unwrap();
    assert_eq!(entries(&m), vec![pair("8080", "81"), pair("9000", "90")]);
}

#[test]
fn no_port_gives_empty_map() {
    let m = parse_mapped_ports(vec![]).unwrap();
    assert!(m.is_empty());
    assert_eq!(m.len(), 0);
}

#[test]
fn port_errors() {
    assert_eq!(parse_mapped_ports(vec!["80"]).err(), Some(PortError::InvalidSpec));
    assert_eq!(parse_mapped_ports(vec!["1:2:3"]).err(), Some(PortError::InvalidSpec));
    assert_eq!(parse_mapped_ports(vec!["x:80"]).err(), Some(PortError::InvalidHostPort));
    assert_eq!(parse_mapped_ports(vec!["80:70000"]).err(), Some(PortError::InvalidGuestPort));
    assert_eq!(parse_mapped_ports(vec!["-1:80"]).err(), Some(PortError::InvalidHostPort));
    assert_eq!(parse_mapped_ports(vec!["80:-"]).err(), Some(PortError::InvalidGuestPort));
}

#[test]
fn first_refused_port_mapping_is_the_error() {
    assert_eq!(parse_mapped_ports(vec!["80:80", "80:x", "y"]).err(), Some(PortError::InvalidGuestPort));
    assert_eq!(parse_mapped_ports(vec!["y", "80:x"]).err(), Some(PortError::InvalidSpec));
}

#[test]
fn port_mapping_normal_form_reads_back_the_same() {
    let (h, g) = parse_port_mapping("+0080:0022").unwrap();
    assert_eq!((h.as_str(), g.as_str()), ("80", "22"));
    let again = format!("{}:{}", h, g);
    assert_eq!(parse_port_mapping(&again).unwrap(), (h, g));
}

#[test]
fn port_messages() {
    assert_eq!(PortError::InvalidSpec.message(), "Invalid value for \"port\"");
    assert_eq!(PortError::InvalidHostPort.message(), "Invalid host port");
    assert_eq!(PortError::InvalidGuestPort.message(), "Invalid guest port");
}

#[test]
fn volumes_are_collected() {
    let m = parse_mapped_volumes(vec!["/home/u/data:/data", "/tmp:/scratch/"], vec![true, true]).unwrap();
    assert_eq!(entries(&m), vec![pair("/home/u/data", "/data"), pair("/tmp", "/scratch/")]);
}

#[test]
fn volume_errors_in_order() {
    assert_eq!(parse_volume_mapping("/a", true).err(), Some(VolumeError::InvalidSpec));
    assert_eq!(parse_volume_mapping("a:b:c", true).err(), Some(VolumeError::InvalidSpec));
    assert_eq!(parse_volume_mapping("a:b", false).err(), Some(VolumeError::HostNotAbsolute));
    assert_eq!(parse_volume_mapping("/a:b", false).err(), Some(VolumeError::HostMissing));
    assert_eq!(parse_volume_mapping("/a:b", true).err(), Some(VolumeError::GuestNotAbsolute));
    assert_eq!(parse_volume_mapping("/a:/b/c", true).err(), Some(VolumeError::GuestNotRootChild));
    assert_eq!(parse_volume_mapping("/a:/", true).err(), Some(VolumeError::GuestNotRootChild));
    assert_eq!(parse_volume_mapping("/a:/b", true).unwrap(), pair("/a", "/b"));
}

#[test]
fn first_refused_volume_mapping_is_the_error() {
    let r = parse_mapped_volumes(vec!["/a:/b", "/c:/d/e", "x"], vec![true, true, false]);
    assert_eq!(r.err(), Some(VolumeError::GuestNotRootChild));
    let r = parse_mapped_volumes(vec!["/a:/b", "/c:/d"], vec![true, false]);
    assert_eq!(r.err(), Some(VolumeError::HostMissing));
}

#[test]
fn volume_host_path_before_the_colon() {
    assert_eq!(volume_host_path("/h:/g"), Some("/h".to_string()));
    assert_eq!(volume_host_path("/h"), None);
    assert_eq!(volume_host_path("/h:/g:/x"), None);
}

#[test]
fn volume_messages() {
    assert_eq!(VolumeError::InvalidSpec.message(), "Invalid value for \"volume\"");
    assert_eq!(VolumeError::HostNotAbsolute.message(), "Invalid volume, host_path is not an absolute path");
    assert_eq!(VolumeError::HostMissing.message(), "Invalid volume, host_path does not exists");
    assert_eq!(VolumeError::GuestNotAbsolute.message(), "Invalid volume, guest_path is not an absolute path");
    assert_eq!(
        VolumeError::GuestNotRootChild.message(),
        "Invalid volume, only single direct root children are supported as guest_path"
    );
}

#[test]
fn str_map_insert_get_remove() {
    let mut m: StrMap<String> = StrMap::new();
    m.insert("b".to_string(), "1".to_string());
    m.insert("a".to_string(), "2".to_string());
    m.insert("b".to_string(), "3".to_string());
    assert_eq!(entries(&m), vec![pair("b", "3"), pair("a", "2")]);
    assert!(m.contains_key("a"));
    assert_eq!(m.remove("b"), Some("3".to_string()));
    assert_eq!(m.remove("b"), None);
    assert!(!m.contains_key("b"));
    assert_eq!(entries(&m), vec![pair("a", "2")]);
    let v = m.into_entries();
    assert_eq!(v, vec![pair("a", "2")]);
}
