//! Creating a lightweight machine: checking the request against the
//! configuration before any container exists, then building the machine's
//! configuration once `buildah` has made its container.

use vstd::prelude::*;
use vstd::string::*;
use crate::buildah::{buildah_from_args, from_args, law_from_args_shape, string_texts, Platform};
use crate::config::{CarrierConfig, CarrierConfigView, VmConfig, VmConfigView};
use crate::mapping::{
    parse_mapped_ports, parse_mapped_volumes, ports_outcome, texts, volumes_outcome, PortError,
    VolumeError,
};
use crate::strmap::StrMap;
use crate::text::{parse_u32, parse_unsigned};

verus! {

/// What the user asked for when creating a machine.
pub struct CreateOptions {
    /// Number of virtual CPUs, as typed; the configured default when absent.
    pub cpus: Option<String>,
    /// Memory in MiB, as typed; the configured default when absent.
    pub mem: Option<String>,
    /// DNS server; the configured default when absent.
    pub dns: Option<String>,
    /// Working directory inside the machine.
    pub workdir: String,
    /// Volume mappings `host_path:guest_path`.
    pub volumes: Vec<String>,
    /// Whether the host path of each volume mapping exists.
    pub volume_host_exists: Vec<bool>,
    /// Port mappings `host_port:guest_port`.
    pub ports: Vec<String>,
    /// Name of the machine; the container's when absent.
    pub name: Option<String>,
    /// OCI image to start from.
    pub image: String,
}

/// Why a creation is refused before any container is made.
#[derive(Clone, Copy, Debug, PartialEq, Eq, Structural)]
pub enum CreateError {
    InvalidCpus,
    InvalidMem,
    Volume(VolumeError),
    Port(PortError),
    NameTaken,
}

impl CreateError {
    /// The message shown for this error.
    pub fn message(&self) -> (r: &'static str)
        ensures
            r@ == match *self {
                CreateError::InvalidCpus => "Invalid value for \"cpus\""@,
                CreateError::InvalidMem => "Invalid value for \"mem\""@,
                CreateError::Volume(e) => crate::mapping::volume_message(e),
                CreateError::Port(e) => crate::mapping::port_message(e),
                CreateError::NameTaken => "A VM with this name already exists"@,
            },
    {
        match self {
            CreateError::InvalidCpus => "Invalid value for \"cpus\"",
            CreateError::InvalidMem => "Invalid value for \"mem\"",
            CreateError::Volume(e) => e.message(),
            CreateError::Port(e) => e.message(),
            CreateError::NameTaken => "A VM with this name already exists",
        }
    }
}

/// A creation that passed its checks: everything but the container.
pub struct CreatePlan {
    pub cpus: u32,
    pub mem: u32,
    pub dns: String,
    pub workdir: String,
    pub mapped_volumes: StrMap<String>,
    pub mapped_ports: StrMap<String>,
    pub name: Option<String>,
    /// The arguments of `buildah` that create the container.
    pub buildah_args: Vec<String>,
}

/// What a [`CreatePlan`] holds, as mathematical values.
pub struct CreatePlanView {
    pub cpus: u32,
    pub mem: u32,
    pub dns: Seq<char>,
    pub workdir: Seq<char>,
    pub mapped_volumes: Map<Seq<char>, Seq<char>>,
    pub mapped_ports: Map<Seq<char>, Seq<char>>,
    pub name: Option<Seq<char>>,
    pub buildah_args: Seq<Seq<char>>,
}

impl View for CreatePlan {
    type V = CreatePlanView;

    open spec fn view(&self) -> CreatePlanView {
        CreatePlanView {
            cpus: self.cpus,
            mem: self.mem,
            dns: self.dns@,
            workdir: self.workdir@,
            mapped_volumes: self.mapped_volumes@,
            mapped_ports: self.mapped_ports@,
            name: opt_text(self.name),
            buildah_args: string_texts(self.buildah_args@),
        }
    }
}

/// The view of an optional string.
pub open spec fn opt_text(o: Option<String>) -> Option<Seq<char>> {
    match o {
        Some(s) => Some(s@),
        None => None,
    }
}

/// A count given as text, or the default when none is given; `None` when
/// the text is not a `u32`.
pub open spec fn count_or_default(given: Option<Seq<char>>, default: u32) -> Option<u32> {
    match given {
        None => Some(default),
        Some(s) => match parse_unsigned(s, u32::MAX as nat) {
            Some(v) => Some(v as u32),
            None => None,
        },
    }
}

/// What a creation request gives: the checks come in the order CPUs, memory,
/// volumes, ports, then that a given name is not taken yet.
pub open spec fn create_outcome(c: CarrierConfigView, o: CreateOptions, platform: Platform) -> Result<CreatePlanView, CreateError> {
    match count_or_default(opt_text(o.cpus), c.default_cpus) {
        None => Err(CreateError::InvalidCpus),
        Some(cpus) => match count_or_default(opt_text(o.mem), c.default_mem) {
            None => Err(CreateError::InvalidMem),
            Some(mem) => match volumes_outcome(string_texts(o.volumes@), o.volume_host_exists@) {
                Err(e) => Err(CreateError::Volume(e)),
                Ok(vols) => match ports_outcome(string_texts(o.ports@)) {
                    Err(e) => Err(CreateError::Port(e)),
                    Ok(ports) => if opt_text(o.name) is Some && c.vms.contains_key(opt_text(o.name)->Some_0) {
                        Err(CreateError::NameTaken)
                    } else {
                        Ok(CreatePlanView {
                            cpus: cpus,
                            mem: mem,
                            dns: match opt_text(o.dns) {
                                Some(d) => d,
                                None => c.default_dns,
                            },
                            workdir: o.workdir@,
                            mapped_volumes: vols,
                            mapped_ports: ports,
                            name: opt_text(o.name),
                            buildah_args: from_args(c.storage_volume, o.image@, platform),
                        })
                    },
                },
            },
        },
    }
}

fn count_option(given: &Option<String>, default: u32) -> (r: Option<u32>)
    ensures
        r == count_or_default(opt_text(*given), default),
{
    match given {
        None => Some(default),
        Some(s) => parse_u32(s.as_str()),
    }
}

fn as_strs(v: &Vec<String>) -> (r: Vec<&str>)
    ensures
        texts(r@) == string_texts(v@),
{
    let mut r: Vec<&str> = Vec::new();
    let n = v.len();
    let mut i: usize = 0;
    while i < n
        invariant
            i <= n,
            n == v@.len(),
            r@.len() == i,
            texts(r@) =~= string_texts(v@).take(i as int),
        decreases n - i,
    {
        let s = v[i].as_str();
        assert(s@ == v@[i as int]@);
        let ghost before = r@;
        r.push(s);
        assert forall|j: int| 0 <= j < i + 1 implies #[trigger] texts(r@)[j] == string_texts(v@).take(i + 1)[j] by {
            if j < i {
                assert(r@[j] == before[j]);
                assert(texts(before)[j] == string_texts(v@).take(i as int)[j]);
            }
        }
        assert(texts(r@) =~= string_texts(v@).take(i + 1));
        i = i + 1;
    }
    assert(string_texts(v@).take(n as int) =~= string_texts(v@));
    r
}

/// Checks a creation request against the configuration, as far as it can be
/// checked before a container exists.
pub fn plan_create(cfg: &CarrierConfig, opts: CreateOptions, platform: Platform) -> (r: Result<CreatePlan, CreateError>)
    requires
        opts.volume_host_exists@.len() == opts.volumes@.len(),
    ensures
        match r {
            Ok(p) => create_outcome(cfg@, opts, platform) == Ok::<CreatePlanView, CreateError>(p@),
            Err(e) => create_outcome(cfg@, opts, platform) == Err::<CreatePlanView, CreateError>(e),
        },
{
    let ghost o = opts;
    let cpus = match count_option(&opts.cpus, cfg.default_cpus) {
        Some(c) => c,
        None => return Err(CreateError::InvalidCpus),
    };
    let mem = match count_option(&opts.mem, cfg.default_mem) {
        Some(m) => m,
        None => return Err(CreateError::InvalidMem),
    };
    let CreateOptions { cpus: _, mem: _, dns, workdir, volumes, volume_host_exists, ports, name, image } = opts;
    let mapped_volumes = match parse_mapped_volumes(as_strs(&volumes), volume_host_exists) {
        Ok(m) => m,
        Err(e) => return Err(CreateError::Volume(e)),
    };
    let mapped_ports = match parse_mapped_ports(as_strs(&ports)) {
        Ok(m) => m,
        Err(e) => return Err(CreateError::Port(e)),
    };
    match &name {
        Some(n) => {
            if cfg.has_vm(n.as_str()) {
                return Err(CreateError::NameTaken);
            }
        },
        None => {},
    }
    let dns = match dns {
        Some(d) => d,
        None => cfg.default_dns.clone(),
    };
    let buildah_args = buildah_from_args(cfg.storage_volume.as_str(), image.as_str(), platform);
    Ok(CreatePlan { cpus, mem, dns, workdir, mapped_volumes, mapped_ports, name, buildah_args })
}

/// The configuration of the machine made from `plan` once `buildah` has made
/// `container`: named as asked, or after the container.
pub fn build_vm_config(plan: CreatePlan, container: String) -> (r: VmConfig)
    ensures
        r@ == (VmConfigView {
            name: match plan@.name {
                Some(n) => n,
                None => container@,
            },
            cpus: plan.cpus,
            mem: plan.mem,
            container: container@,
            workdir: plan.workdir@,
            dns: plan.dns@,
            mapped_volumes: plan.mapped_volumes@,
            mapped_ports: plan.mapped_ports@,
        }),
{
    let CreatePlan { cpus, mem, dns, workdir, mapped_volumes, mapped_ports, name, buildah_args: _ } = plan;
    let name = match name {
        Some(n) => n,
        None => container.clone(),
    };
    VmConfig { name, cpus, mem, container, workdir, dns, mapped_volumes, mapped_ports }
}

/// A machine created under a name it was given never replaces a registered
/// machine: the name was free.
pub proof fn law_given_name_is_free(c: CarrierConfigView, o: CreateOptions, platform: Platform)
    requires
        create_outcome(c, o, platform) is Ok,
        opt_text(o.name) is Some,
    ensures
        !c.vms.contains_key(opt_text(o.name)->Some_0),
{
}

/// A creation is refused for its name exactly when a name is given, that name
/// is already a registered machine, and the counts and mappings were
/// accepted; a name that is not registered never makes it fail.
pub proof fn law_name_taken_exactly_when_registered(c: CarrierConfigView, o: CreateOptions, platform: Platform)
    ensures
        create_outcome(c, o, platform) == Err::<CreatePlanView, CreateError>(CreateError::NameTaken)
            ==> o.name is Some && c.vms.contains_key(o.name->Some_0@),
        (o.name is None || !c.vms.contains_key(o.name->Some_0@))
            ==> create_outcome(c, o, platform) != Err::<CreatePlanView, CreateError>(CreateError::NameTaken),
        o.name is Some && c.vms.contains_key(o.name->Some_0@)
            ==> create_outcome(c, o, platform) is Err,
{
}

/// What an accepted creation plans: the counts given (read as numbers) or the
/// configured defaults, the DNS server given or the default one, the working
/// directory and the name as given, and the `buildah` arguments that create a
/// container from the image on the platform at hand, with its storage options
/// on macOS.
pub proof fn law_accepted_plan(c: CarrierConfigView, o: CreateOptions, platform: Platform)
    requires
        create_outcome(c, o, platform) is Ok,
    ensures
        ({
            let p = create_outcome(c, o, platform)->Ok_0;
            &&& o.cpus is None ==> p.cpus == c.default_cpus
            &&& o.cpus is Some ==> parse_unsigned(o.cpus->Some_0@, u32::MAX as nat) == Some(p.cpus as nat)
            &&& o.mem is None ==> p.mem == c.default_mem
            &&& o.mem is Some ==> parse_unsigned(o.mem->Some_0@, u32::MAX as nat) == Some(p.mem as nat)
            &&& o.dns is None ==> p.dns == c.default_dns
            &&& o.dns is Some ==> p.dns == o.dns->Some_0@
            &&& p.workdir == o.workdir@
            &&& p.name == opt_text(o.name)
            &&& p.mapped_volumes == volumes_outcome(string_texts(o.volumes@), o.volume_host_exists@)->Ok_0
            &&& p.mapped_ports == ports_outcome(string_texts(o.ports@))->Ok_0
            &&& platform == Platform::Linux ==> p.buildah_args == seq!["from"@, o.image@]
            &&& platform == Platform::MacOs ==> p.buildah_args == seq![
                "--root"@,
                c.storage_volume + "/root"@,
                "--runroot"@,
                c.storage_volume + "/runroot"@,
                "from"@,
                "--os"@,
                "linux"@,
                o.image@,
            ]
        }),
{
    law_from_args_shape(c.storage_volume, o.image@);
}

/// Which check refuses a creation: the CPU count first, then the memory,
/// then the volumes, then the ports, each refusing exactly when its input is
/// refused and everything before it was accepted.
pub proof fn law_create_error_order(c: CarrierConfigView, o: CreateOptions, platform: Platform)
    ensures
        (o.cpus is Some && parse_unsigned(o.cpus->Some_0@, u32::MAX as nat) is None)
            <==> create_outcome(c, o, platform) == Err::<CreatePlanView, CreateError>(CreateError::InvalidCpus),
        (count_or_default(opt_text(o.cpus), c.default_cpus) is Some && o.mem is Some
            && parse_unsigned(o.mem->Some_0@, u32::MAX as nat) is None)
            <==> create_outcome(c, o, platform) == Err::<CreatePlanView, CreateError>(CreateError::InvalidMem),
        forall|e: VolumeError|
            (count_or_default(opt_text(o.cpus), c.default_cpus) is Some
                && count_or_default(opt_text(o.mem), c.default_mem) is Some
                && volumes_outcome(string_texts(o.volumes@), o.volume_host_exists@) == Err::<Map<Seq<char>, Seq<char>>, VolumeError>(e))
            <==> #[trigger] create_outcome(c, o, platform) == Err::<CreatePlanView, CreateError>(CreateError::Volume(e)),
        forall|e: PortError|
            (count_or_default(opt_text(o.cpus), c.default_cpus) is Some
                && count_or_default(opt_text(o.mem), c.default_mem) is Some
                && volumes_outcome(string_texts(o.volumes@), o.volume_host_exists@) is Ok
                && ports_outcome(string_texts(o.ports@)) == Err::<Map<Seq<char>, Seq<char>>, PortError>(e))
            <==> #[trigger] create_outcome(c, o, platform) == Err::<CreatePlanView, CreateError>(CreateError::Port(e)),
{
}

} // verus!
