//! Port and volume mappings as given on the command line
//! (`host:guest`), checked and collected into maps.

use vstd::prelude::*;
use vstd::string::*;
use crate::paths::{is_absolute, is_absolute_path, is_root_child, rooted_component_count};
use crate::strmap::StrMap;
use crate::text::{
    all_digits, decimal, decimal_string, is_digit, lemma_decimal_all_digits,
    law_decimal_round_trip, only_sep_at, parse_u16, parse_unsigned, split_two, two_fields,
};

verus! {

/// Why a port mapping is refused.
#[derive(Clone, Copy, Debug, PartialEq, Eq, Structural)]
pub enum PortError {
    /// Not of the form `host_port:guest_port`.
    InvalidSpec,
    /// The host port is not a 16-bit unsigned number.
    InvalidHostPort,
    /// The guest port is not a 16-bit unsigned number.
    InvalidGuestPort,
}

/// The message shown for a refused port mapping.
pub open spec fn port_message(e: PortError) -> Seq<char> {
    match e {
        PortError::InvalidSpec => "Invalid value for \"port\""@,
        PortError::InvalidHostPort => "Invalid host port"@,
        PortError::InvalidGuestPort => "Invalid guest port"@,
    }
}

impl PortError {
    /// The message shown for this error.
    pub fn message(&self) -> (r: &'static str)
        ensures
            r@ == port_message(*self),
    {
        match self {
            PortError::InvalidSpec => "Invalid value for \"port\"",
            PortError::InvalidHostPort => "Invalid host port",
            PortError::InvalidGuestPort => "Invalid guest port",
        }
    }
}

/// What one port mapping `e` gives: the host and guest ports, each written
/// back in decimal, or why it is refused.
pub open spec fn port_entry(e: Seq<char>) -> Result<(Seq<char>, Seq<char>), PortError> {
    match two_fields(e, ':') {
        None => Err(PortError::InvalidSpec),
        Some((h, g)) => match parse_unsigned(h, u16::MAX as nat) {
            None => Err(PortError::InvalidHostPort),
            Some(hp) => match parse_unsigned(g, u16::MAX as nat) {
                None => Err(PortError::InvalidGuestPort),
                Some(gp) => Ok((decimal(hp), decimal(gp))),
            },
        },
    }
}

/// What a list of port mappings gives: the first refused one stops it;
/// otherwise each mapping is entered in turn, a later one for the same host
/// port replacing an earlier one.
pub open spec fn ports_outcome(es: Seq<Seq<char>>) -> Result<Map<Seq<char>, Seq<char>>, PortError>
    decreases es.len(),
{
    if es.len() == 0 {
        Ok(Map::empty())
    } else {
        match ports_outcome(es.drop_last()) {
            Err(e) => Err(e),
            Ok(m) => match port_entry(es.last()) {
                Err(e) => Err(e),
                Ok((h, g)) => Ok(m.insert(h, g)),
            },
        }
    }
}

/// An accepted port mapping maps the number written before the `:` (the host
/// port) to the number written after it (the guest port): each side of the
/// result reads back as the number on the same side of the mapping, and is
/// written in normal decimal form.
pub proof fn law_port_mapping_sides(e: Seq<char>)
    requires
        port_entry(e) is Ok,
    ensures
        two_fields(e, ':') is Some,
        parse_unsigned(port_entry(e)->Ok_0.0, u16::MAX as nat) == parse_unsigned(two_fields(e, ':')->Some_0.0, u16::MAX as nat),
        parse_unsigned(port_entry(e)->Ok_0.1, u16::MAX as nat) == parse_unsigned(two_fields(e, ':')->Some_0.1, u16::MAX as nat),
        port_entry(e)->Ok_0.0 == decimal(parse_unsigned(two_fields(e, ':')->Some_0.0, u16::MAX as nat)->Some_0),
        port_entry(e)->Ok_0.1 == decimal(parse_unsigned(two_fields(e, ':')->Some_0.1, u16::MAX as nat)->Some_0),
{
    let (h, g) = two_fields(e, ':')->Some_0;
    law_decimal_round_trip(parse_unsigned(h, u16::MAX as nat)->Some_0, u16::MAX as nat);
    law_decimal_round_trip(parse_unsigned(g, u16::MAX as nat)->Some_0, u16::MAX as nat);
}

/// An accepted volume mapping maps the path written before the `:` to the
/// path written after it, unchanged.
pub proof fn law_volume_mapping_sides(e: Seq<char>, host_exists: bool)
    requires
        volume_entry(e, host_exists) is Ok,
    ensures
        two_fields(e, ':') is Some,
        volume_entry(e, host_exists)->Ok_0 == two_fields(e, ':')->Some_0,
{
}

/// In an accepted list of port mappings, the last mapping is in force: its
/// host port maps to its guest port.
pub proof fn law_last_port_mapping_wins(es: Seq<Seq<char>>)
    requires
        es.len() > 0,
        ports_outcome(es) is Ok,
    ensures
        port_entry(es.last()) is Ok,
        ports_outcome(es)->Ok_0.contains_key(port_entry(es.last())->Ok_0.0),
        ports_outcome(es)->Ok_0[port_entry(es.last())->Ok_0.0] == port_entry(es.last())->Ok_0.1,
{
}

/// Why a port mapping is refused: no single `:`, else a host side that is
/// not a 16-bit number, else a guest side that is not one.
pub proof fn law_port_mapping_errors(e: Seq<char>)
    ensures
        port_entry(e) == Err::<(Seq<char>, Seq<char>), PortError>(PortError::InvalidSpec) <==> two_fields(e, ':') is None,
        port_entry(e) == Err::<(Seq<char>, Seq<char>), PortError>(PortError::InvalidHostPort) <==> two_fields(e, ':') is Some
            && parse_unsigned(two_fields(e, ':')->Some_0.0, u16::MAX as nat) is None,
        port_entry(e) == Err::<(Seq<char>, Seq<char>), PortError>(PortError::InvalidGuestPort) <==> two_fields(e, ':') is Some
            && parse_unsigned(two_fields(e, ':')->Some_0.0, u16::MAX as nat) is Some
            && parse_unsigned(two_fields(e, ':')->Some_0.1, u16::MAX as nat) is None,
{
}

/// What a list of port mappings gives, entry by entry: it is refused with
/// the error of its first refused entry; when all are accepted, each host
/// port of the list is in the map, and each mapping of the map is the
/// mapping of some entry.
pub proof fn law_ports_from_entries(es: Seq<Seq<char>>)
    ensures
        forall|e: PortError| #[trigger] ports_outcome(es) == Err::<Map<Seq<char>, Seq<char>>, PortError>(e) <==> exists|i: int|
            0 <= i < es.len() && port_entry(es[i]) == Err::<(Seq<char>, Seq<char>), PortError>(e)
                && forall|j: int| 0 <= j < i ==> port_entry(#[trigger] es[j]) is Ok,
        ports_outcome(es) is Ok ==> forall|i: int| 0 <= i < es.len() ==> port_entry(#[trigger] es[i]) is Ok
            && ports_outcome(es)->Ok_0.contains_key(port_entry(es[i])->Ok_0.0),
        ports_outcome(es) is Ok ==> forall|k: Seq<char>| #[trigger] ports_outcome(es)->Ok_0.contains_key(k) ==> exists|i: int|
            0 <= i < es.len() && port_entry(es[i]) == Ok::<(Seq<char>, Seq<char>), PortError>((k, ports_outcome(es)->Ok_0[k])),
    decreases es.len(),
{
    if es.len() > 0 {
        let pre = es.drop_last();
        let n = es.len() - 1;
        law_ports_from_entries(pre);
        assert forall|i: int| 0 <= i < pre.len() implies pre[i] == es[i] by {}
        assert forall|e: PortError| #[trigger] ports_outcome(es) == Err::<Map<Seq<char>, Seq<char>>, PortError>(e) <==> exists|i: int|
            0 <= i < es.len() && port_entry(es[i]) == Err::<(Seq<char>, Seq<char>), PortError>(e)
                && forall|j: int| 0 <= j < i ==> port_entry(#[trigger] es[j]) is Ok by {
            if ports_outcome(es) == Err::<Map<Seq<char>, Seq<char>>, PortError>(e) {
                if ports_outcome(pre) is Err {
                    let i = choose|i: int| 0 <= i < pre.len() && port_entry(pre[i]) == Err::<(Seq<char>, Seq<char>), PortError>(e)
                        && forall|j: int| 0 <= j < i ==> port_entry(#[trigger] pre[j]) is Ok;
                    assert(port_entry(es[i]) == Err::<(Seq<char>, Seq<char>), PortError>(e));
                    assert forall|j: int| 0 <= j < i implies port_entry(#[trigger] es[j]) is Ok by {
                        assert(es[j] == pre[j]);
                    }
                } else {
                    assert(port_entry(es[n]) == Err::<(Seq<char>, Seq<char>), PortError>(e));
                    assert forall|j: int| 0 <= j < n implies port_entry(#[trigger] es[j]) is Ok by {
                        assert(es[j] == pre[j]);
                    }
                }
            }
            if exists|i: int| 0 <= i < es.len() && port_entry(es[i]) == Err::<(Seq<char>, Seq<char>), PortError>(e)
                && forall|j: int| 0 <= j < i ==> port_entry(#[trigger] es[j]) is Ok {
                let i = choose|i: int| 0 <= i < es.len() && port_entry(es[i]) == Err::<(Seq<char>, Seq<char>), PortError>(e)
                    && forall|j: int| 0 <= j < i ==> port_entry(#[trigger] es[j]) is Ok;
                if i < n {
                    assert(port_entry(pre[i]) == Err::<(Seq<char>, Seq<char>), PortError>(e));
                    assert forall|j: int| 0 <= j < i implies port_entry(#[trigger] pre[j]) is Ok by {
                        assert(es[j] == pre[j]);
                    }
                } else {
                    assert forall|j: int| 0 <= j < pre.len() implies port_entry(#[trigger] pre[j]) is Ok by {
                        assert(es[j] == pre[j]);
                    }
                    if ports_outcome(pre) is Err {
                        let pe = ports_outcome(pre)->Err_0;
                        let i2 = choose|i: int| 0 <= i < pre.len() && port_entry(pre[i]) == Err::<(Seq<char>, Seq<char>), PortError>(pe)
                            && forall|j: int| 0 <= j < i ==> port_entry(#[trigger] pre[j]) is Ok;
                        assert(port_entry(pre[i2]) is Ok);
                    }
                }
            }
        }
        if ports_outcome(es) is Ok {
            let m = ports_outcome(es)->Ok_0;
            assert forall|k: Seq<char>| #[trigger] m.contains_key(k) implies exists|i: int|
                0 <= i < es.len() && port_entry(es[i]) == Ok::<(Seq<char>, Seq<char>), PortError>((k, m[k])) by {
                if k != port_entry(es[n])->Ok_0.0 {
                    let i = choose|i: int| 0 <= i < pre.len()
                        && port_entry(pre[i]) == Ok::<(Seq<char>, Seq<char>), PortError>((k, ports_outcome(pre)->Ok_0[k]));
                    assert(es[i] == pre[i]);
                } else {
                    assert(port_entry(es[n]) == Ok::<(Seq<char>, Seq<char>), PortError>((k, m[k])));
                }
            }
        }
    }
}

/// Why a volume mapping is refused: no single `:`, else a host path that is
/// not absolute, else one that does not exist, else a guest path that is not
/// absolute, else one that is not a direct child of the root.
pub proof fn law_volume_mapping_errors(e: Seq<char>, host_exists: bool)
    ensures
        volume_entry(e, host_exists) == Err::<(Seq<char>, Seq<char>), VolumeError>(VolumeError::InvalidSpec)
            <==> two_fields(e, ':') is None,
        volume_entry(e, host_exists) == Err::<(Seq<char>, Seq<char>), VolumeError>(VolumeError::HostNotAbsolute)
            <==> two_fields(e, ':') is Some && !is_absolute(two_fields(e, ':')->Some_0.0),
        volume_entry(e, host_exists) == Err::<(Seq<char>, Seq<char>), VolumeError>(VolumeError::HostMissing)
            <==> two_fields(e, ':') is Some && is_absolute(two_fields(e, ':')->Some_0.0) && !host_exists,
        volume_entry(e, host_exists) == Err::<(Seq<char>, Seq<char>), VolumeError>(VolumeError::GuestNotAbsolute)
            <==> two_fields(e, ':') is Some && is_absolute(two_fields(e, ':')->Some_0.0) && host_exists
            && !is_absolute(two_fields(e, ':')->Some_0.1),
        volume_entry(e, host_exists) == Err::<(Seq<char>, Seq<char>), VolumeError>(VolumeError::GuestNotRootChild)
            <==> two_fields(e, ':') is Some && is_absolute(two_fields(e, ':')->Some_0.0) && host_exists
            && is_absolute(two_fields(e, ':')->Some_0.1) && rooted_component_count(two_fields(e, ':')->Some_0.1) != 2,
{
}

/// What a list of volume mappings gives, entry by entry: it is refused with
/// the error of its first refused entry; when all are accepted, each host
/// path of the list is in the map, and each mapping of the map is the
/// mapping of some entry.
pub proof fn law_volumes_from_entries(es: Seq<Seq<char>>, ex: Seq<bool>)
    ensures
        forall|e: VolumeError| #[trigger] volumes_outcome(es, ex) == Err::<Map<Seq<char>, Seq<char>>, VolumeError>(e) <==> exists|i: int|
            0 <= i < es.len() && volume_entry(es[i], ex[i]) == Err::<(Seq<char>, Seq<char>), VolumeError>(e)
                && forall|j: int| 0 <= j < i ==> volume_entry(#[trigger] es[j], ex[j]) is Ok,
        volumes_outcome(es, ex) is Ok ==> forall|i: int| 0 <= i < es.len() ==> volume_entry(#[trigger] es[i], ex[i]) is Ok
            && volumes_outcome(es, ex)->Ok_0.contains_key(volume_entry(es[i], ex[i])->Ok_0.0),
        volumes_outcome(es, ex) is Ok ==> forall|k: Seq<char>| #[trigger] volumes_outcome(es, ex)->Ok_0.contains_key(k) ==> exists|i: int|
            0 <= i < es.len() && volume_entry(es[i], ex[i]) == Ok::<(Seq<char>, Seq<char>), VolumeError>((k, volumes_outcome(es, ex)->Ok_0[k])),
    decreases es.len(),
{
    if es.len() > 0 {
        let pre = es.drop_last();
        let n = es.len() - 1;
        law_volumes_from_entries(pre, ex);
        assert forall|i: int| 0 <= i < pre.len() implies pre[i] == es[i] by {}
        assert forall|e: VolumeError| #[trigger] volumes_outcome(es, ex) == Err::<Map<Seq<char>, Seq<char>>, VolumeError>(e) <==> exists|i: int|
            0 <= i < es.len() && volume_entry(es[i], ex[i]) == Err::<(Seq<char>, Seq<char>), VolumeError>(e)
                && forall|j: int| 0 <= j < i ==> volume_entry(#[trigger] es[j], ex[j]) is Ok by {
            if volumes_outcome(es, ex) == Err::<Map<Seq<char>, Seq<char>>, VolumeError>(e) {
                if volumes_outcome(pre, ex) is Err {
                    let i = choose|i: int| 0 <= i < pre.len() && volume_entry(pre[i], ex[i]) == Err::<(Seq<char>, Seq<char>), VolumeError>(e)
                        && forall|j: int| 0 <= j < i ==> volume_entry(#[trigger] pre[j], ex[j]) is Ok;
                    assert(volume_entry(es[i], ex[i]) == Err::<(Seq<char>, Seq<char>), VolumeError>(e));
                    assert forall|j: int| 0 <= j < i implies volume_entry(#[trigger] es[j], ex[j]) is Ok by {
                        assert(es[j] == pre[j]);
                    }
                } else {
                    assert(volume_entry(es[n], ex[n]) == Err::<(Seq<char>, Seq<char>), VolumeError>(e));
                    assert forall|j: int| 0 <= j < n implies volume_entry(#[trigger] es[j], ex[j]) is Ok by {
                        assert(es[j] == pre[j]);
                    }
                }
            }
            if exists|i: int| 0 <= i < es.len() && volume_entry(es[i], ex[i]) == Err::<(Seq<char>, Seq<char>), VolumeError>(e)
                && forall|j: int| 0 <= j < i ==> volume_entry(#[trigger] es[j], ex[j]) is Ok {
                let i = choose|i: int| 0 <= i < es.len() && volume_entry(es[i], ex[i]) == Err::<(Seq<char>, Seq<char>), VolumeError>(e)
                    && forall|j: int| 0 <= j < i ==> volume_entry(#[trigger] es[j], ex[j]) is Ok;
                if i < n {
                    assert(volume_entry(pre[i], ex[i]) == Err::<(Seq<char>, Seq<char>), VolumeError>(e));
                    assert forall|j: int| 0 <= j < i implies volume_entry(#[trigger] pre[j], ex[j]) is Ok by {
                        assert(es[j] == pre[j]);
                    }
                } else {
                    assert forall|j: int| 0 <= j < pre.len() implies volume_entry(#[trigger] pre[j], ex[j]) is Ok by {
                        assert(es[j] == pre[j]);
                    }
                    if volumes_outcome(pre, ex) is Err {
                        let pe = volumes_outcome(pre, ex)->Err_0;
                        let i2 = choose|i: int| 0 <= i < pre.len() && volume_entry(pre[i], ex[i]) == Err::<(Seq<char>, Seq<char>), VolumeError>(pe)
                            && forall|j: int| 0 <= j < i ==> volume_entry(#[trigger] pre[j], ex[j]) is Ok;
                        assert(volume_entry(pre[i2], ex[i2]) is Ok);
                    }
                }
            }
        }
        if volumes_outcome(es, ex) is Ok {
            let m = volumes_outcome(es, ex)->Ok_0;
            assert forall|k: Seq<char>| #[trigger] m.contains_key(k) implies exists|i: int|
                0 <= i < es.len() && volume_entry(es[i], ex[i]) == Ok::<(Seq<char>, Seq<char>), VolumeError>((k, m[k])) by {
                if k != volume_entry(es[n], ex[n])->Ok_0.0 {
                    let i = choose|i: int| 0 <= i < pre.len()
                        && volume_entry(pre[i], ex[i]) == Ok::<(Seq<char>, Seq<char>), VolumeError>((k, volumes_outcome(pre, ex)->Ok_0[k]));
                    assert(es[i] == pre[i]);
                } else {
                    assert(volume_entry(es[n], ex[n]) == Ok::<(Seq<char>, Seq<char>), VolumeError>((k, m[k])));
                }
            }
        }
    }
}

/// Checks one port mapping `host_port:guest_port`.
pub fn parse_port_mapping(e: &str) -> (r: Result<(String, String), PortError>)
    ensures
        match r {
            Ok((h, g)) => port_entry(e@) == Ok::<(Seq<char>, Seq<char>), PortError>((h@, g@)),
            Err(err) => port_entry(e@) == Err::<(Seq<char>, Seq<char>), PortError>(err),
        },
{
    match split_two(e, ':') {
        None => Err(PortError::InvalidSpec),
        Some((h, g)) => match parse_u16(h.as_str()) {
            None => Err(PortError::InvalidHostPort),
            Some(hp) => match parse_u16(g.as_str()) {
                None => Err(PortError::InvalidGuestPort),
                Some(gp) => Ok((decimal_string(hp as u32), decimal_string(gp as u32))),
            },
        },
    }
}

/// The views of a list of texts.
pub open spec fn texts(v: Seq<&str>) -> Seq<Seq<char>> {
    v.map_values(|s: &str| s@)
}

/// Once a prefix of the mappings is refused, the whole list is refused for
/// the same reason.
proof fn lemma_ports_error_prefix(es: Seq<Seq<char>>, k: int, err: PortError)
    requires
        0 <= k <= es.len(),
        ports_outcome(es.take(k)) == Err::<Map<Seq<char>, Seq<char>>, PortError>(err),
    ensures
        ports_outcome(es) == Err::<Map<Seq<char>, Seq<char>>, PortError>(err),
    decreases es.len(),
{
    if es.len() == k {
        assert(es.take(k) =~= es);
    } else {
        assert(es.drop_last().take(k) =~= es.take(k));
        lemma_ports_error_prefix(es.drop_last(), k, err);
    }
}

/// Collects port mappings `host_port:guest_port` into a map from host port
/// to guest port, both written back in decimal; the first refused mapping
/// is the error.
pub fn parse_mapped_ports(port_matches: Vec<&str>) -> (r: Result<StrMap<String>, PortError>)
    ensures
        match r {
            Ok(m) => ports_outcome(texts(port_matches@)) == Ok::<Map<Seq<char>, Seq<char>>, PortError>(m@),
            Err(e) => ports_outcome(texts(port_matches@)) == Err::<Map<Seq<char>, Seq<char>>, PortError>(e),
        },
{
    let ghost es = texts(port_matches@);
    let mut m: StrMap<String> = StrMap::new();
    let n = port_matches.len();
    let mut i: usize = 0;
    assert(es.take(0) =~= Seq::<Seq<char>>::empty());
    while i < n
        invariant
            i <= n,
            n == port_matches@.len(),
            es == texts(port_matches@),
            ports_outcome(es.take(i as int)) == Ok::<Map<Seq<char>, Seq<char>>, PortError>(m@),
        decreases n - i,
    {
        let e = port_matches[i];
        let ghost pre = es.take(i as int);
        let ghost next = es.take(i + 1);
        assert(next.drop_last() =~= pre);
        assert(next.last() == e@);
        match parse_port_mapping(e) {
            Err(err) => {
                proof {
                    lemma_ports_error_prefix(es, i + 1, err);
                }
                return Err(err);
            },
            Ok((h, g)) => {
                m.insert(h, g);
            },
        }
        i = i + 1;
    }
    assert(es.take(n as int) =~= es);
    Ok(m)
}

/// Writing an accepted port mapping back as `host:guest` and reading it again
/// gives the same mapping.
pub proof fn law_port_mapping_normal_form(e: Seq<char>)
    requires
        port_entry(e) is Ok,
    ensures
        port_entry(port_entry(e)->Ok_0.0 + seq![':'] + port_entry(e)->Ok_0.1) == port_entry(e),
{
    let (h, g) = two_fields(e, ':')->Some_0;
    let hp = parse_unsigned(h, u16::MAX as nat)->Some_0;
    let gp = parse_unsigned(g, u16::MAX as nat)->Some_0;
    let dh = decimal(hp);
    let dg = decimal(gp);
    law_decimal_round_trip(hp, u16::MAX as nat);
    law_decimal_round_trip(gp, u16::MAX as nat);
    lemma_decimal_all_digits(hp);
    lemma_decimal_all_digits(gp);
    let w = dh + seq![':'] + dg;
    let k = dh.len() as int;
    assert(only_sep_at(w, ':', k)) by {
        assert forall|j: int| 0 <= j < w.len() && j != k implies w[j] != ':' by {
            if j < k {
                assert(w[j] == dh[j]);
                assert(is_digit(dh[j]));
            } else {
                assert(w[j] == dg[j - k - 1]);
                assert(is_digit(dg[j - k - 1]));
            }
        }
    }
    let c = choose|i: int| only_sep_at(w, ':', i);
    assert(c == k);
    assert(w.take(k) =~= dh);
    assert(w.skip(k + 1) =~= dg);
}

/// Why a volume mapping is refused.
#[derive(Clone, Copy, Debug, PartialEq, Eq, Structural)]
pub enum VolumeError {
    /// Not of the form `host_path:guest_path`.
    InvalidSpec,
    /// The host path is not absolute.
    HostNotAbsolute,
    /// The host path does not exist.
    HostMissing,
    /// The guest path is not absolute.
    GuestNotAbsolute,
    /// The guest path is not a direct child of the root.
    GuestNotRootChild,
}

/// The message shown for a refused volume mapping.
pub open spec fn volume_message(e: VolumeError) -> Seq<char> {
    match e {
        VolumeError::InvalidSpec => "Invalid value for \"volume\""@,
        VolumeError::HostNotAbsolute => "Invalid volume, host_path is not an absolute path"@,
        VolumeError::HostMissing => "Invalid volume, host_path does not exists"@,
        VolumeError::GuestNotAbsolute => "Invalid volume, guest_path is not an absolute path"@,
        VolumeError::GuestNotRootChild => "Invalid volume, only single direct root children are supported as guest_path"@,
    }
}

impl VolumeError {
    /// The message shown for this error.
    pub fn message(&self) -> (r: &'static str)
        ensures
            r@ == volume_message(*self),
    {
        match self {
            VolumeError::InvalidSpec => "Invalid value for \"volume\"",
            VolumeError::HostNotAbsolute => "Invalid volume, host_path is not an absolute path",
            VolumeError::HostMissing => "Invalid volume, host_path does not exists",
            VolumeError::GuestNotAbsolute => "Invalid volume, guest_path is not an absolute path",
            VolumeError::GuestNotRootChild => "Invalid volume, only single direct root children are supported as guest_path",
        }
    }
}

/// What one volume mapping `e` gives, `host_exists` telling whether its host
/// path exists: the host and guest paths, or why it is refused. The checks
/// come in this order: the form, the host path absolute, the host path
/// existing, the guest path absolute, the guest path a direct child of the
/// root.
pub open spec fn volume_entry(e: Seq<char>, host_exists: bool) -> Result<(Seq<char>, Seq<char>), VolumeError> {
    match two_fields(e, ':') {
        None => Err(VolumeError::InvalidSpec),
        Some((h, g)) => if !is_absolute(h) {
            Err(VolumeError::HostNotAbsolute)
        } else if !host_exists {
            Err(VolumeError::HostMissing)
        } else if !is_absolute(g) {
            Err(VolumeError::GuestNotAbsolute)
        } else if rooted_component_count(g) != 2 {
            Err(VolumeError::GuestNotRootChild)
        } else {
            Ok((h, g))
        },
    }
}

/// What a list of volume mappings gives, `ex[i]` telling whether the host
/// path of `es[i]` exists: the first refused one stops it; otherwise each
/// mapping is entered in turn, a later one for the same host path replacing
/// an earlier one.
pub open spec fn volumes_outcome(es: Seq<Seq<char>>, ex: Seq<bool>) -> Result<Map<Seq<char>, Seq<char>>, VolumeError>
    decreases es.len(),
{
    if es.len() == 0 {
        Ok(Map::empty())
    } else {
        match volumes_outcome(es.drop_last(), ex) {
            Err(e) => Err(e),
            Ok(m) => match volume_entry(es.last(), ex[es.len() - 1]) {
                Err(e) => Err(e),
                Ok((h, g)) => Ok(m.insert(h, g)),
            },
        }
    }
}

/// The host path of a volume mapping, when it has the form
/// `host_path:guest_path`.
pub fn volume_host_path(e: &str) -> (r: Option<String>)
    ensures
        match r {
            Some(h) => two_fields(e@, ':') is Some && two_fields(e@, ':')->Some_0.0 == h@,
            None => two_fields(e@, ':') is None,
        },
{
    match split_two(e, ':') {
        Some((h, _g)) => Some(h),
        None => None,
    }
}

/// Checks one volume mapping `host_path:guest_path`, `host_exists` telling
/// whether its host path exists.
pub fn parse_volume_mapping(e: &str, host_exists: bool) -> (r: Result<(String, String), VolumeError>)
    ensures
        match r {
            Ok((h, g)) => volume_entry(e@, host_exists) == Ok::<(Seq<char>, Seq<char>), VolumeError>((h@, g@)),
            Err(err) => volume_entry(e@, host_exists) == Err::<(Seq<char>, Seq<char>), VolumeError>(err),
        },
{
    match split_two(e, ':') {
        None => Err(VolumeError::InvalidSpec),
        Some((h, g)) => {
            if !is_absolute_path(h.as_str()) {
                Err(VolumeError::HostNotAbsolute)
            } else if !host_exists {
                Err(VolumeError::HostMissing)
            } else if !is_absolute_path(g.as_str()) {
                Err(VolumeError::GuestNotAbsolute)
            } else if !is_root_child(g.as_str()) {
                Err(VolumeError::GuestNotRootChild)
            } else {
                Ok((h, g))
            }
        },
    }
}

proof fn lemma_volumes_error_prefix(es: Seq<Seq<char>>, ex: Seq<bool>, k: int, err: VolumeError)
    requires
        0 <= k <= es.len(),
        volumes_outcome(es.take(k), ex) == Err::<Map<Seq<char>, Seq<char>>, VolumeError>(err),
    ensures
        volumes_outcome(es, ex) == Err::<Map<Seq<char>, Seq<char>>, VolumeError>(err),
    decreases es.len(),
{
    if es.len() == k {
        assert(es.take(k) =~= es);
    } else {
        assert(es.drop_last().take(k) =~= es.take(k));
        lemma_volumes_error_prefix(es.drop_last(), ex, k, err);
    }
}

/// Collects volume mappings `host_path:guest_path` into a map from host path
/// to guest path, `host_exists[i]` telling whether the host path of
/// `volume_matches[i]` exists; the first refused mapping is the error.
pub fn parse_mapped_volumes(volume_matches: Vec<&str>, host_exists: Vec<bool>) -> (r: Result<StrMap<String>, VolumeError>)
    requires
        host_exists@.len() == volume_matches@.len(),
    ensures
        match r {
            Ok(m) => volumes_outcome(texts(volume_matches@), host_exists@) == Ok::<Map<Seq<char>, Seq<char>>, VolumeError>(m@),
            Err(e) => volumes_outcome(texts(volume_matches@), host_exists@) == Err::<Map<Seq<char>, Seq<char>>, VolumeError>(e),
        },
{
    let ghost es = texts(volume_matches@);
    let mut m: StrMap<String> = StrMap::new();
    let n = volume_matches.len();
    let mut i: usize = 0;
    assert(es.take(0) =~= Seq::<Seq<char>>::empty());
    while i < n
        invariant
            i <= n,
            n == volume_matches@.len(),
            n == host_exists@.len(),
            es == texts(volume_matches@),
            volumes_outcome(es.take(i as int), host_exists@) == Ok::<Map<Seq<char>, Seq<char>>, VolumeError>(m@),
        decreases n - i,
    {
        let e = volume_matches[i];
        let ghost pre = es.take(i as int);
        let ghost next = es.take(i + 1);
        assert(next.drop_last() =~= pre);
        assert(next.last() == e@);
        match parse_volume_mapping(e, host_exists[i]) {
            Err(err) => {
                proof {
                    lemma_volumes_error_prefix(es, host_exists@, i + 1, err);
                }
                return Err(err);
            },
            Ok((h, g)) => {
                m.insert(h, g);
            },
        }
        i = i + 1;
    }
    assert(es.take(n as int) =~= es);
    Ok(m)
}

/// An accepted volume mapping maps an absolute, existing host path to a
/// guest path that is a direct child of the root.
pub proof fn law_accepted_volume_shape(e: Seq<char>, host_exists: bool)
    requires
        volume_entry(e, host_exists) is Ok,
    ensures
        host_exists,
        is_absolute(volume_entry(e, host_exists)->Ok_0.0),
        is_absolute(volume_entry(e, host_exists)->Ok_0.1),
        rooted_component_count(volume_entry(e, host_exists)->Ok_0.1) == 2,
{
}

/// `p` is a port written in its normal form: the decimal writing of a
/// 16-bit unsigned number.
pub open spec fn is_port_text(p: Seq<char>) -> bool {
    parse_unsigned(p, u16::MAX as nat) is Some && decimal(parse_unsigned(p, u16::MAX as nat)->Some_0) == p
}

/// Every host and guest port of an accepted list of port mappings is a port
/// in its normal form.
pub proof fn law_port_map_normal(es: Seq<Seq<char>>)
    requires
        ports_outcome(es) is Ok,
    ensures
        forall|k: Seq<char>| #[trigger] ports_outcome(es)->Ok_0.contains_key(k)
            ==> is_port_text(k) && is_port_text(ports_outcome(es)->Ok_0[k]),
    decreases es.len(),
{
    if es.len() > 0 {
        law_port_map_normal(es.drop_last());
        let (h, g) = two_fields(es.last(), ':')->Some_0;
        let hp = parse_unsigned(h, u16::MAX as nat)->Some_0;
        let gp = parse_unsigned(g, u16::MAX as nat)->Some_0;
        law_decimal_round_trip(hp, u16::MAX as nat);
        law_decimal_round_trip(gp, u16::MAX as nat);
    }
}

/// Every mapping of an accepted list of volume mappings maps an absolute
/// host path to a direct child of the root.
pub proof fn law_volume_map_shape(es: Seq<Seq<char>>, ex: Seq<bool>)
    requires
        volumes_outcome(es, ex) is Ok,
    ensures
        forall|k: Seq<char>| #[trigger] volumes_outcome(es, ex)->Ok_0.contains_key(k)
            ==> is_absolute(k) && is_absolute(volumes_outcome(es, ex)->Ok_0[k])
            && rooted_component_count(volumes_outcome(es, ex)->Ok_0[k]) == 2,
    decreases es.len(),
{
    if es.len() > 0 {
        law_volume_map_shape(es.drop_last(), ex);
    }
}

} // verus!
