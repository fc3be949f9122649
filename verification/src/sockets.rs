//! Sockets of the guest that the host serves: ports, the ports that are
//! mapped, and where the guest may connect to.

use std::collections::HashMap;

use vstd::prelude::*;
use vstd::string::StrSliceExecFns;

use crate::config::{texts_in, Host, Os, Settings, VsockConfig};
use crate::contexts::{
    array_of, array_texts, changed, refused, utf8, utf8_text, utf8_texts, Contexts, Ctxs, Outcome,
};
use crate::control::{number_of, parse_number};
use crate::errno::Errno;
use crate::snapshot::{find_code, position};

verus! {

broadcast use vstd::std_specs::hash::group_hash_axioms;

// ---------------------------------------------------------------------------
// The socket device.
// ---------------------------------------------------------------------------

pub open spec fn vsock_added(c: Ctxs, host: Host, id: u32, tsi_features: u32) -> Outcome {
    let unix = host.devices.tsi_hijack_unix;
    if tsi_features & !host.devices.tsi_flags != 0 {
        refused(c, Errno::Inval)
    } else if host.os != Os::Linux && tsi_features & unix == unix {
        refused(c, Errno::Inval)
    } else {
        changed(
            c,
            id,
            |s: Settings|
                if s.vsock_config != VsockConfig::Disabled {
                    Err(Errno::Exist)
                } else {
                    Ok(
                        (
                            Settings {
                                vsock_config: VsockConfig::Explicit { tsi_flags: tsi_features },
                                ..s
                            },
                            0i32,
                        ),
                    )
                },
        )
    }
}

/// Add the socket device, with the flags of what it impersonates.
/// Impersonating UNIX sockets needs Linux.
pub fn krun_add_vsock(ctxs: &mut Contexts, host: &Host, ctx_id: u32, tsi_features: u32) -> (r:
    Result<i32, Errno>)
    ensures
        (final(ctxs)@, r) == vsock_added(old(ctxs)@, *host, ctx_id, tsi_features),
{
    let unix: u32 = host.devices.tsi_hijack_unix;
    if tsi_features & !host.devices.tsi_flags != 0 {
        return Err(Errno::Inval);
    }
    if host.os != Os::Linux && tsi_features & unix == unix {
        return Err(Errno::Inval);
    }
    match ctxs.find(ctx_id) {
        Some(c) => {
            if c.vsock_config != VsockConfig::Disabled {
                return Err(Errno::Exist);
            }
            c.vsock_config = VsockConfig::Explicit { tsi_flags: tsi_features };
            Ok(0)
        },
        None => Err(Errno::NoEnt),
    }
}

/// The ports with one more, or with another path for one of them.
pub open spec fn with_port(
    ports: Option<Map<u32, (Seq<char>, bool)>>,
    port: u32,
    path: Seq<char>,
    listen: bool,
) -> Map<u32, (Seq<char>, bool)> {
    match ports {
        Some(m) => m.insert(port, (path, listen)),
        None => Map::empty().insert(port, (path, listen)),
    }
}

pub open spec fn vsock_port_added(
    c: Ctxs,
    host: Host,
    id: u32,
    port: u32,
    filepath: Seq<u8>,
    listen: bool,
    exists: Option<bool>,
) -> Outcome {
    if host.features.aws_nitro && listen {
        refused(c, Errno::Inval)
    } else {
        match utf8_text(filepath) {
            None => refused(c, Errno::Inval),
            Some(path) => if listen && exists == Some(true) {
                refused(c, Errno::Exist)
            } else if listen && exists is None {
                refused(c, Errno::Inval)
            } else {
                changed(
                    c,
                    id,
                    |s: Settings|
                        if s.vsock_config == VsockConfig::Disabled {
                            Err(Errno::NoDev)
                        } else {
                            Ok(
                                (
                                    Settings {
                                        unix_ipc_port_map: Some(
                                            with_port(s.unix_ipc_port_map, port, path, listen),
                                        ),
                                        ..s
                                    },
                                    0i32,
                                ),
                            )
                        },
                )
            },
        }
    }
}

/// Serve a port by a UNIX socket. `exists` is whether the path is there, where
/// that could be found out; the host cannot listen at a path that is.
pub fn krun_add_vsock_port2(
    ctxs: &mut Contexts,
    host: &Host,
    ctx_id: u32,
    port: u32,
    filepath: &[u8],
    listen: bool,
    exists: Option<bool>,
) -> (r: Result<i32, Errno>)
    ensures
        (final(ctxs)@, r) == vsock_port_added(
            old(ctxs)@,
            *host,
            ctx_id,
            port,
            filepath@,
            listen,
            exists,
        ),
{
    if host.features.aws_nitro && listen {
        return Err(Errno::Inval);
    }
    let path: String = match utf8(filepath) {
        Some(t) => t,
        None => return Err(Errno::Inval),
    };
    if listen {
        match exists {
            Some(true) => return Err(Errno::Exist),
            None => return Err(Errno::Inval),
            _ => {},
        }
    }
    match ctxs.find(ctx_id) {
        Some(c) => {
            if c.vsock_config == VsockConfig::Disabled {
                return Err(Errno::NoDev);
            }
            c.add_vsock_port(port, path, listen);
            Ok(0)
        },
        None => Err(Errno::NoEnt),
    }
}

/// [`krun_add_vsock_port2`] where the guest listens.
pub fn krun_add_vsock_port(
    ctxs: &mut Contexts,
    host: &Host,
    ctx_id: u32,
    port: u32,
    filepath: &[u8],
) -> (r: Result<i32, Errno>)
    ensures
        (final(ctxs)@, r) == vsock_port_added(
            old(ctxs)@,
            *host,
            ctx_id,
            port,
            filepath@,
            false,
            None,
        ),
{
    krun_add_vsock_port2(ctxs, host, ctx_id, port, filepath, false, None)
}

impl crate::config::ContextConfig {
    fn add_vsock_port(&mut self, port: u32, path: String, listen: bool)
        ensures
            final(self)@ == (Settings {
                unix_ipc_port_map: Some(
                    with_port(old(self)@.unix_ipc_port_map, port, path@, listen),
                ),
                ..old(self)@
            }),
    {
        let mut map: HashMap<u32, (String, bool)> = match self.unix_ipc_port_map.take() {
            Some(m) => m,
            None => HashMap::new(),
        };
        let ghost before = map@;
        map.insert(port, (path, listen));
        self.unix_ipc_port_map = Some(map);
        proof {
            assert(self@.unix_ipc_port_map->0 =~= with_port(
                old(self)@.unix_ipc_port_map,
                port,
                path@,
                listen,
            ));
        }
    }
}

// ---------------------------------------------------------------------------
// Mapped ports.
// ---------------------------------------------------------------------------

/// The host's port and the guest's, with a colon between them.
pub open spec fn port_pair_of(s: Seq<char>) -> Option<(u16, u16)> {
    let e = find_code(s, 0x3a, 0);
    if e >= s.len() {
        None
    } else {
        let rest = s.skip(e + 1);
        if find_code(rest, 0x3a, 0) < rest.len() {
            None
        } else {
            match (number_of(s.subrange(0, e), u16::MAX as nat), number_of(rest, u16::MAX as nat)) {
                (Some(host), Some(guest)) => Some((host as u16, guest as u16)),
                _ => None,
            }
        }
    }
}

/// The host's ports by the guest's. No port of either side comes twice.
pub open spec fn ports_of(texts: Seq<Seq<char>>) -> Option<Map<u16, u16>>
    decreases texts.len(),
{
    if texts.len() == 0 {
        Some(Map::empty())
    } else {
        match (ports_of(texts.drop_last()), port_pair_of(texts.last())) {
            (Some(m), Some((host, guest))) => if m.contains_key(guest) || m.contains_value(host) {
                None
            } else {
                Some(m.insert(guest, host))
            },
            _ => None,
        }
    }
}

fn read_port_pair(s: &str) -> (r: Option<(u16, u16)>)
    ensures
        r == port_pair_of(s@),
{
    let n: usize = s.unicode_len();
    let e: usize = position(s, 0x3a, 0, n);
    if e >= n {
        return None;
    }
    let rest = s.substring_char(e + 1, n);
    assert(rest@ =~= s@.skip(e + 1));
    let m: usize = rest.unicode_len();
    if position(rest, 0x3a, 0, m) < m {
        return None;
    }
    match (parse_number(s.substring_char(0, e), 65535), parse_number(rest, 65535)) {
        (Some(host), Some(guest)) => Some((host as u16, guest as u16)),
        _ => None,
    }
}

proof fn lemma_ports_prefix(texts: Seq<Seq<char>>, i: int)
    requires
        0 <= i <= texts.len(),
        ports_of(texts.take(i)) is None,
    ensures
        ports_of(texts) is None,
    decreases texts.len() - i,
{
    if i < texts.len() {
        assert(texts.take(i + 1).drop_last() =~= texts.take(i));
        lemma_ports_prefix(texts, i + 1);
    } else {
        assert(texts.take(i) =~= texts);
    }
}

fn read_ports(texts: &Vec<String>) -> (r: Option<HashMap<u16, u16>>)
    ensures
        match ports_of(texts_in(texts@)) {
            Some(m) => r is Some && r->0@ == m,
            None => r is None,
        },
{
    let ghost all = texts_in(texts@);
    let mut map: HashMap<u16, u16> = HashMap::new();
    let mut hosts: Vec<u16> = Vec::new();
    let mut i: usize = 0;
    assert(all.take(0) =~= Seq::<Seq<char>>::empty());
    while i < texts.len()
        invariant
            i <= texts@.len() == all.len(),
            all == texts_in(texts@),
            ports_of(all.take(i as int)) == Some(map@),
            forall|h: u16| #[trigger] hosts@.contains(h) <==> map@.contains_value(h),
        decreases texts@.len() - i,
    {
        let ghost next = all.take(i + 1);
        assert(next.drop_last() =~= all.take(i as int));
        assert(next.last() == texts@[i as int]@);
        let pair = read_port_pair(texts[i].as_str());
        let (host, guest) = match pair {
            Some(p) => p,
            None => {
                proof {
                    lemma_ports_prefix(all, i + 1);
                }
                return None;
            },
        };
        let mut taken: bool = map.contains_key(&guest);
        let mut k: usize = 0;
        while k < hosts.len()
            invariant
                k <= hosts@.len(),
                taken <==> (map@.contains_key(guest) || exists|j: int|
                    0 <= j < k && #[trigger] hosts@[j] == host),
            decreases hosts@.len() - k,
        {
            if hosts[k] == host {
                taken = true;
            }
            k += 1;
        }
        assert(taken <==> (map@.contains_key(guest) || hosts@.contains(host)));
        if taken {
            proof {
                lemma_ports_prefix(all, i + 1);
            }
            return None;
        }
        let ghost before = map@;
        let ghost known = hosts@;
        map.insert(guest, host);
        hosts.push(host);
        proof {
            assert forall|h: u16| #[trigger] hosts@.contains(h) <==> map@.contains_value(h) by {
                lemma_values_of_insert(before, guest, host, h);
                if known.contains(h) {
                    let j = choose|j: int| 0 <= j < known.len() && known[j] == h;
                    assert(hosts@[j] == h);
                }
                if h == host {
                    assert(hosts@[known.len() as int] == h);
                }
                if hosts@.contains(h) && h != host {
                    let j = choose|j: int| 0 <= j < hosts@.len() && hosts@[j] == h;
                    assert(known[j] == h);
                }
            }
        }
        i += 1;
    }
    assert(all.take(i as int) =~= all);
    Some(map)
}

proof fn lemma_values_of_insert(m: Map<u16, u16>, k: u16, v: u16, x: u16)
    requires
        !m.contains_key(k),
    ensures
        m.insert(k, v).contains_value(x) <==> m.contains_value(x) || x == v,
{
    let n = m.insert(k, v);
    assert(n[k] == v && n.contains_key(k));
    if m.contains_value(x) {
        let g = choose|g: u16| #[trigger] m.contains_key(g) && m[g] == x;
        assert(n.contains_key(g) && n[g] == x);
    }
    if n.contains_value(x) && x != v {
        let g = choose|g: u16| #[trigger] n.contains_key(g) && n[g] == x;
        assert(m.contains_key(g) && m[g] == x);
    }
}

pub open spec fn port_map_set(c: Ctxs, id: u32, port_map: Seq<Vec<u8>>) -> Outcome {
    match utf8_texts(array_of(port_map)) {
        None => refused(c, Errno::Inval),
        Some(texts) => match ports_of(texts) {
            None => refused(c, Errno::Inval),
            Some(m) => changed(
                c,
                id,
                |s: Settings|
                    if s.vsock_config == VsockConfig::Disabled {
                        Err(Errno::NoDev)
                    } else if s.net_index != 0 {
                        Err(Errno::Inval)
                    } else {
                        Ok((Settings { tsi_port_map: Some(m), ..s }, 0i32))
                    },
            ),
        },
    }
}

/// Map ports of the host to ports of the guest. This goes with the socket
/// device, and not with network interfaces.
pub fn krun_set_port_map(ctxs: &mut Contexts, ctx_id: u32, port_map: &[Vec<u8>]) -> (r: Result<
    i32,
    Errno,
>)
    ensures
        (final(ctxs)@, r) == port_map_set(old(ctxs)@, ctx_id, port_map@),
{
    let texts: Vec<String> = match array_texts(port_map) {
        Some(v) => v,
        None => return Err(Errno::Inval),
    };
    let map: HashMap<u16, u16> = match read_ports(&texts) {
        Some(m) => m,
        None => return Err(Errno::Inval),
    };
    match ctxs.find(ctx_id) {
        Some(c) => {
            if c.vsock_config == VsockConfig::Disabled {
                return Err(Errno::NoDev);
            }
            if c.net_index != 0 {
                return Err(Errno::Inval);
            }
            c.tsi_port_map = Some(map);
            Ok(0)
        },
        None => Err(Errno::NoEnt),
    }
}

/// No two ports of the guest are mapped to one port of the host.
pub proof fn a_port_map_is_one_to_one(texts: Seq<Seq<char>>)
    ensures
        ports_of(texts) matches Some(m) ==> m.is_injective(),
    decreases texts.len(),
{
    if texts.len() > 0 {
        a_port_map_is_one_to_one(texts.drop_last());
        if let (Some(m), Some((host, guest))) = (
            ports_of(texts.drop_last()),
            port_pair_of(texts.last()),
        ) {
            if !m.contains_key(guest) && !m.contains_value(host) {
                assert(m.insert(guest, host).is_injective());
            }
        }
    }
}

} // verus!
