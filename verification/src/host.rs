//! What the commands hand to the host and to the machine: file names under
//! a root file system, file contents, environment and mapping texts, and the
//! decisions taken on what the host reports.

use vstd::prelude::*;
use vstd::string::*;
use crate::buildah::string_texts;
use crate::config::{CarrierConfig, CarrierConfigView, VmConfig};
use crate::strmap::StrMap;
use crate::text::{joined, decimal, decimal_string, same_text};

verus! {

/// Outside a root session, machines must be handled inside a
/// `buildah unshare` session, which sets `BUILDAH_ISOLATION`.
pub fn unshare_required(uid: u32, buildah_isolation_set: bool) -> (r: bool)
    ensures
        r == (uid != 0 && !buildah_isolation_set),
{
    uid != 0 && !buildah_isolation_set
}

/// The storage volume chosen by the user's answer: the answer, or
/// `/Volumes/carrier` when the answer is empty.
pub fn volume_from_answer(answer: &str) -> (r: String)
    ensures
        r@ == if answer@.len() == 0 {
            "/Volumes/carrier"@
        } else {
            answer@
        },
{
    if answer.unicode_len() == 0 {
        String::from_str("/Volumes/carrier")
    } else {
        String::from_str(answer)
    }
}

/// The ASCII lower case of `c`; any other character is left as it is.
pub open spec fn ascii_lower(c: char) -> char {
    if 'A' <= c && c <= 'Z' {
        (c as int + 32) as char
    } else {
        c
    }
}

/// `a` and `b` are the same text once the case of ASCII letters is ignored.
pub open spec fn same_ignoring_case(a: Seq<char>, b: Seq<char>) -> bool {
    &&& a.len() == b.len()
    &&& forall|i: int| 0 <= i < a.len() ==> ascii_lower(#[trigger] a[i]) == ascii_lower(b[i])
}

/// The two files that the storage volume test writes in `volume`, one after
/// the other: their names differ only in letter case, so on a volume that
/// does not tell case apart they are one and the same file.
pub fn case_test_paths(volume: &str) -> (r: (String, String))
    ensures
        r.0@ == volume@ + "/carrier_test"@,
        r.1@ == volume@ + "/CARRIER_TEST"@,
        same_ignoring_case(r.0@, r.1@),
        r.0@ != r.1@,
{
    let first = joined(volume, "/carrier_test");
    let second = joined(volume, "/CARRIER_TEST");
    proof {
        reveal_strlit("/carrier_test");
        reveal_strlit("/CARRIER_TEST");
        let n = volume@.len() as int;
        let a = "/carrier_test"@;
        let b = "/CARRIER_TEST"@;
        assert forall|i: int| 0 <= i < first@.len() implies ascii_lower(#[trigger] first@[i]) == ascii_lower(second@[i]) by {
            if i >= n {
                assert(first@[i] == a[i - n]);
                assert(second@[i] == b[i - n]);
            }
        }
        assert(first@[n + 1] != second@[n + 1]);
    }
    (first, second)
}

/// The files that the storage volume test leaves and that are removed
/// afterwards: both test files when the test passed; when it failed the two
/// names were one file, so the first name alone.
pub fn case_test_leftovers(first: String, second: String, passed: bool) -> (r: Vec<String>)
    ensures
        string_texts(r@) == if passed {
            seq![first@, second@]
        } else {
            seq![first@]
        },
{
    let mut r: Vec<String> = Vec::new();
    r.push(first);
    if passed {
        r.push(second);
    }
    assert(string_texts(r@) =~= if passed {
        seq![first@, second@]
    } else {
        seq![first@]
    });
    r
}

/// How the storage volume test came out.
#[derive(Clone, Copy, Debug, PartialEq, Eq, Structural)]
pub enum VolumeTest {
    /// The first test file still read `first`.
    Passed,
    /// The first test file read something else.
    Failed,
    /// Writing or reading a test file failed.
    Error,
}

/// What follows a storage volume test.
#[derive(Clone, Copy, Debug, PartialEq, Eq, Structural)]
pub enum VolumeStep {
    /// The volume is recorded: store the configuration and stop.
    StoreAndExit,
    /// Ask the user for another volume.
    AskAgain,
}

/// Takes the outcome of testing `volume`: a passed test records `volume` as
/// the storage volume; otherwise the configuration is left as it was and
/// the user is asked again.
pub fn storage_volume_step(cfg: &mut CarrierConfig, volume: String, test: VolumeTest) -> (r: VolumeStep)
    ensures
        test == VolumeTest::Passed ==> r == VolumeStep::StoreAndExit
            && final(cfg)@ == (CarrierConfigView { storage_volume: volume@, ..old(cfg)@ }),
        test != VolumeTest::Passed ==> r == VolumeStep::AskAgain && final(cfg)@ == old(cfg)@,
{
    match test {
        VolumeTest::Passed => {
            cfg.storage_volume = volume;
            VolumeStep::StoreAndExit
        },
        _ => VolumeStep::AskAgain,
    }
}

/// The storage volume test passes when the first test file, written with
/// `first`, still reads `first` after the second test file, whose name
/// differs only in letter case, was written with `second`: the volume then
/// keeps apart names that differ only in case.
pub fn is_case_sensitive(read_back: &str) -> (r: bool)
    ensures
        r == (read_back@ == "first"@),
{
    same_text(read_back, "first")
}

/// The directory of the resolver configuration under `rootfs`.
pub fn resolv_conf_dir(rootfs: &str) -> (r: String)
    ensures
        r@ == rootfs@ + "/etc/"@,
{
    joined(rootfs, "/etc/")
}

/// The resolver configuration file under `rootfs`.
pub fn resolv_conf_path(rootfs: &str) -> (r: String)
    ensures
        r@ == rootfs@ + "/etc/resolv.conf"@,
{
    joined(rootfs, "/etc/resolv.conf")
}

/// The resolver configuration of a machine using the DNS server `dns`.
pub fn resolv_conf_contents(dns: &str) -> (r: String)
    ensures
        r@ == "options use-vc\nnameserver "@ + dns@ + "\n"@,
{
    let mut r = joined("options use-vc\nnameserver ", dns);
    r.append("\n");
    r
}

/// The lock file that keeps a machine from running twice.
pub fn lock_path(rootfs: &str) -> (r: String)
    ensures
        r@ == rootfs@ + "/.carrier.lock"@,
{
    joined(rootfs, "/.carrier.lock")
}

/// The environment of the command run in the machine.
pub fn vm_environment(vm: &VmConfig) -> (r: Vec<String>)
    ensures
        string_texts(r@) == seq![
            "HOSTNAME="@ + vm.name@,
            "HOME=/root"@,
            "PATH=/bin:/sbin:/usr/bin:/usr/sbin:/usr/local/bin"@,
        ],
{
    let mut r: Vec<String> = Vec::new();
    r.push(joined("HOSTNAME=", vm.name.as_str()));
    r.push(String::from_str("HOME=/root"));
    r.push(String::from_str("PATH=/bin:/sbin:/usr/bin:/usr/sbin:/usr/local/bin"));
    assert(string_texts(r@) =~= seq![
        "HOSTNAME="@ + vm.name@,
        "HOME=/root"@,
        "PATH=/bin:/sbin:/usr/bin:/usr/sbin:/usr/local/bin"@,
    ]);
    r
}

/// Each mapping of `m` written `key:value`, keys in their order.
pub fn mapping_entries(m: &StrMap<String>) -> (r: Vec<String>)
    ensures
        r@.len() == m.keys().len(),
        m.keys().no_duplicates(),
        forall|k: Seq<char>| #[trigger] m@.contains_key(k) ==> exists|i: int| 0 <= i < r@.len() && m.keys()[i] == k,
        forall|i: int| 0 <= i < r@.len() ==> m@.contains_key(#[trigger] m.keys()[i]),
        forall|i: int| 0 <= i < r@.len() ==> #[trigger] r@[i]@ == m.keys()[i] + ":"@ + m@[m.keys()[i]],
{
    let n = m.len();
    let mut r: Vec<String> = Vec::new();
    let mut i: usize = 0;
    while i < n
        invariant
            i <= n,
            n == m.keys().len(),
            r@.len() == i,
            forall|j: int| 0 <= j < n ==> m@.contains_key(#[trigger] m.keys()[j]),
            forall|j: int| 0 <= j < i ==> #[trigger] r@[j]@ == m.keys()[j] + ":"@ + m@[m.keys()[j]],
        decreases n - i,
    {
        let k = m.key_at(i);
        let v = m.value_at(i);
        let mut e = joined(k.as_str(), ":");
        e.append(v.as_str());
        let ghost before = r@;
        r.push(e);
        assert forall|j: int| 0 <= j < i + 1 implies #[trigger] r@[j]@ == m.keys()[j] + ":"@ + m@[m.keys()[j]] by {
            if j < i {
                assert(r@[j] == before[j]);
            }
        }
        i = i + 1;
    }
    r
}

/// The port mappings of `vm`, each written `host_port:guest_port`.
pub fn port_map_entries(vm: &VmConfig) -> (r: Vec<String>)
    ensures
        r@.len() == vm.mapped_ports.keys().len(),
        vm.mapped_ports.keys().no_duplicates(),
        forall|k: Seq<char>| #[trigger] vm@.mapped_ports.contains_key(k) ==> exists|i: int| 0 <= i < r@.len() && vm.mapped_ports.keys()[i] == k,
        forall|i: int| 0 <= i < r@.len() ==> vm@.mapped_ports.contains_key(#[trigger] vm.mapped_ports.keys()[i]),
        forall|i: int| 0 <= i < r@.len() ==> #[trigger] r@[i]@ == vm.mapped_ports.keys()[i] + ":"@ + vm@.mapped_ports[vm.mapped_ports.keys()[i]],
{
    mapping_entries(&vm.mapped_ports)
}

/// The volume mappings of `vm`, each written `host_path:guest_path`.
pub fn volume_map_entries(vm: &VmConfig) -> (r: Vec<String>)
    ensures
        r@.len() == vm.mapped_volumes.keys().len(),
        vm.mapped_volumes.keys().no_duplicates(),
        forall|k: Seq<char>| #[trigger] vm@.mapped_volumes.contains_key(k) ==> exists|i: int| 0 <= i < r@.len() && vm.mapped_volumes.keys()[i] == k,
        forall|i: int| 0 <= i < r@.len() ==> vm@.mapped_volumes.contains_key(#[trigger] vm.mapped_volumes.keys()[i]),
        forall|i: int| 0 <= i < r@.len() ==> #[trigger] r@[i]@ == vm.mapped_volumes.keys()[i] + ":"@ + vm@.mapped_volumes[vm.mapped_volumes.keys()[i]],
{
    mapping_entries(&vm.mapped_volumes)
}

/// For each volume mapping of `vm`, the host directory and the directory under
/// `rootfs` where it is mounted.
pub fn volume_mount_points(vm: &VmConfig, rootfs: &str) -> (r: Vec<(String, String)>)
    ensures
        r@.len() == vm.mapped_volumes.keys().len(),
        vm.mapped_volumes.keys().no_duplicates(),
        forall|k: Seq<char>| #[trigger] vm@.mapped_volumes.contains_key(k) ==> exists|i: int| 0 <= i < r@.len() && vm.mapped_volumes.keys()[i] == k,
        forall|i: int| 0 <= i < r@.len() ==> vm@.mapped_volumes.contains_key(#[trigger] vm.mapped_volumes.keys()[i]),
        forall|i: int| 0 <= i < r@.len() ==> #[trigger] r@[i].0@ == vm.mapped_volumes.keys()[i]
            && r@[i].1@ == rootfs@ + vm@.mapped_volumes[vm.mapped_volumes.keys()[i]],
{
    let m = &vm.mapped_volumes;
    let n = m.len();
    let mut r: Vec<(String, String)> = Vec::new();
    let mut i: usize = 0;
    while i < n
        invariant
            i <= n,
            n == m.keys().len(),
            m == &vm.mapped_volumes,
            r@.len() == i,
            forall|j: int| 0 <= j < n ==> m@.contains_key(#[trigger] m.keys()[j]),
            forall|j: int| 0 <= j < i ==> #[trigger] r@[j].0@ == m.keys()[j] && r@[j].1@ == rootfs@ + m@[m.keys()[j]],
        decreases n - i,
    {
        let k = m.key_at(i);
        let v = m.value_at(i);
        let ghost before = r@;
        r.push((k.clone(), joined(rootfs, v.as_str())));
        assert forall|j: int| 0 <= j < i + 1 implies #[trigger] r@[j].0@ == m.keys()[j] && r@[j].1@ == rootfs@ + m@[m.keys()[j]] by {
            if j < i {
                assert(r@[j] == before[j]);
            }
        }
        i = i + 1;
    }
    r
}

/// The summary of `vm` shown by the listing, up to its mappings: its name,
/// then one indented line each for the CPUs, the memory, the DNS server, the
/// container and the working directory.
pub fn describe_vm(vm: &VmConfig) -> (r: String)
    ensures
        r@ == vm.name@ + "\n CPUs: "@ + decimal(vm.cpus as nat) + "\n RAM (MiB): "@ + decimal(vm.mem as nat)
            + "\n DNS server: "@ + vm.dns@ + "\n Buildah container: "@ + vm.container@
            + "\n Workdir: "@ + vm.workdir@ + "\n"@,
{
    let mut r = joined(vm.name.as_str(), "\n CPUs: ");
    r.append(decimal_string(vm.cpus).as_str());
    r.append("\n RAM (MiB): ");
    r.append(decimal_string(vm.mem).as_str());
    r.append("\n DNS server: ");
    r.append(vm.dns.as_str());
    r.append("\n Buildah container: ");
    r.append(vm.container.as_str());
    r.append("\n Workdir: ");
    r.append(vm.workdir.as_str());
    r.append("\n");
    r
}

} // verus!
