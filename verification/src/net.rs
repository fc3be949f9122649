//! Network interfaces.

use vstd::prelude::*;

use crate::config::{
    ContextConfig, Host, NetBackend, NetInterface, NetworkInterfaceConfig, Os, Settings,
    VirtioNetBackend,
};
use crate::contexts::{put, refused, utf8, utf8_text, Contexts, Ctxs, Outcome};
use crate::errno::Errno;
use crate::machine::bytes_in;
use crate::text::{decimal, decimal_of, join2};

verus! {

/// Send the magic that a proxy in its vfkit mode expects after connecting.
pub const NET_FLAG_VFKIT: u32 = 0x1;

/// Run a DHCP client in the guest.
pub const NET_FLAG_DHCP_CLIENT: u32 = 0x2;

pub const NET_FLAG_ALL: u32 = 0x3;

pub const NET_FEATURE_CSUM: u32 = 0x1;

pub const NET_FEATURE_GUEST_CSUM: u32 = 0x2;

pub const NET_FEATURE_GUEST_TSO4: u32 = 0x80;

pub const NET_FEATURE_GUEST_TSO6: u32 = 0x100;

pub const NET_FEATURE_GUEST_UFO: u32 = 0x400;

pub const NET_FEATURE_HOST_TSO4: u32 = 0x800;

pub const NET_FEATURE_HOST_TSO6: u32 = 0x1000;

pub const NET_FEATURE_HOST_UFO: u32 = 0x4000;

pub const NET_ALL_FEATURES: u32 = 0x5d83;

/// The features by which the guest receives more than one packet at a time.
pub const NET_GUEST_OFFLOADS: u32 = 0x580;

/// The masks are made of the flags and features they stand for.
pub proof fn net_masks_are_their_parts()
    ensures
        NET_FLAG_ALL == NET_FLAG_VFKIT | NET_FLAG_DHCP_CLIENT,
        NET_ALL_FEATURES == NET_FEATURE_CSUM | NET_FEATURE_GUEST_CSUM | NET_FEATURE_GUEST_TSO4
            | NET_FEATURE_GUEST_TSO6 | NET_FEATURE_GUEST_UFO | NET_FEATURE_HOST_TSO4
            | NET_FEATURE_HOST_TSO6 | NET_FEATURE_HOST_UFO,
        NET_GUEST_OFFLOADS == NET_FEATURE_GUEST_TSO4 | NET_FEATURE_GUEST_TSO6
            | NET_FEATURE_GUEST_UFO,
{
    assert(0x3u32 == 0x1u32 | 0x2u32 && 0x5d83u32 == 0x1u32 | 0x2u32 | 0x80u32 | 0x100u32 | 0x400u32
        | 0x800u32 | 0x1000u32 | 0x4000u32 && 0x580u32 == 0x80u32 | 0x100u32 | 0x400u32)
        by (bit_vector);
}

/// The settings with one more interface, named after its place.
pub open spec fn with_interface(
    s: Settings,
    backend: NetBackend,
    mac: Seq<u8>,
    features: u32,
    dhcp: bool,
) -> Settings {
    Settings {
        net: s.net.push(
            NetInterface {
                iface_id: "eth"@ + decimal_of(s.net_index as nat),
                backend,
                mac,
                features,
            },
        ),
        net_index: (s.net_index + 1) as u8,
        dhcp_client: s.dhcp_client || dhcp,
        ..s
    }
}

/// There is room for one more interface.
pub open spec fn has_interface_room(c: Ctxs, id: u32) -> bool {
    c.settings.contains_key(id) ==> c.settings[id].net_index < u8::MAX
}

/// Add an interface to the context.
fn create_virtio_net(
    c: &mut ContextConfig,
    backend: VirtioNetBackend,
    mac: [u8; 6],
    features: u32,
    dhcp: bool,
)
    requires
        old(c)@.net_index < u8::MAX,
    ensures
        final(c)@ == with_interface(old(c)@, backend@, mac@, features, dhcp),
{
    let iface_id = join2("eth", decimal(c.net_index as u64).as_str());
    c.net_index = c.net_index + 1;
    c.net.push(NetworkInterfaceConfig { iface_id, backend, mac, features });
    if dhcp {
        c.dhcp_client = true;
    }
    assert(c@.net =~= old(c)@.net.push(c@.net.last()));
}

fn add_interface(
    ctxs: &mut Contexts,
    ctx_id: u32,
    backend: VirtioNetBackend,
    mac: [u8; 6],
    features: u32,
    dhcp: bool,
) -> (r: Result<i32, Errno>)
    requires
        has_interface_room(old(ctxs)@, ctx_id),
    ensures
        (final(ctxs)@, r) == put(
            old(ctxs)@,
            ctx_id,
            |s: Settings| with_interface(s, backend@, mac@, features, dhcp),
        ),
{
    match ctxs.find(ctx_id) {
        Some(c) => {
            create_virtio_net(c, backend, mac, features, dhcp);
            Ok(0)
        },
        None => Err(Errno::NoEnt),
    }
}

/// The path of a socket; one that is not text counts as none.
pub open spec fn socket_path(path: Option<Seq<u8>>) -> Option<Seq<char>> {
    match path {
        Some(bytes) => utf8_text(bytes),
        None => None,
    }
}

fn socket_text(path: Option<&[u8]>) -> (r: Option<String>)
    ensures
        crate::config::text_in(r) == socket_path(bytes_in(path)),
{
    match path {
        Some(bytes) => utf8(bytes),
        None => None,
    }
}

pub open spec fn unixstream_added(
    c: Ctxs,
    host: Host,
    id: u32,
    path: Option<Seq<u8>>,
    fd: i32,
    mac: Seq<u8>,
    features: u32,
    flags: u32,
) -> Outcome {
    let dhcp = flags & NET_FLAG_DHCP_CLIENT != 0;
    if flags & !NET_FLAG_DHCP_CLIENT != 0 || features & !NET_ALL_FEATURES != 0 {
        refused(c, Errno::Inval)
    } else {
        match socket_path(path) {
            Some(p) => if fd >= 0 {
                refused(c, Errno::Inval)
            } else {
                put(
                    c,
                    id,
                    |s: Settings|
                        with_interface(s, NetBackend::UnixstreamPath(p), mac, features, dhcp),
                )
            },
            None => if fd < 0 || host.os == Os::Windows {
                refused(c, Errno::Inval)
            } else {
                put(
                    c,
                    id,
                    |s: Settings|
                        with_interface(s, NetBackend::UnixstreamFd(fd), mac, features, dhcp),
                )
            },
        }
    }
}

/// Add an interface behind a stream socket: a path, or a descriptor, but not
/// both.
pub fn krun_add_net_unixstream(
    ctxs: &mut Contexts,
    host: &Host,
    ctx_id: u32,
    path: Option<&[u8]>,
    fd: i32,
    mac: [u8; 6],
    features: u32,
    flags: u32,
) -> (r: Result<i32, Errno>)
    requires
        has_interface_room(old(ctxs)@, ctx_id),
    ensures
        (final(ctxs)@, r) == unixstream_added(
            old(ctxs)@,
            *host,
            ctx_id,
            bytes_in(path),
            fd,
            mac@,
            features,
            flags,
        ),
{
    let path: Option<String> = socket_text(path);
    if fd >= 0 && path.is_some() {
        return Err(Errno::Inval);
    }
    if fd < 0 && path.is_none() {
        return Err(Errno::Inval);
    }
    let backend = match path {
        Some(p) => VirtioNetBackend::UnixstreamPath(p),
        None => if host.os == Os::Windows {
            return Err(Errno::Inval);
        } else {
            VirtioNetBackend::UnixstreamFd(fd)
        },
    };
    if flags & !NET_FLAG_DHCP_CLIENT != 0 {
        return Err(Errno::Inval);
    }
    if features & !NET_ALL_FEATURES != 0 {
        return Err(Errno::Inval);
    }
    add_interface(ctxs, ctx_id, backend, mac, features, flags & NET_FLAG_DHCP_CLIENT != 0)
}

pub open spec fn unixgram_added(
    c: Ctxs,
    host: Host,
    id: u32,
    path: Option<Seq<u8>>,
    fd: i32,
    mac: Seq<u8>,
    features: u32,
    flags: u32,
) -> Outcome {
    let magic = flags & NET_FLAG_VFKIT != 0;
    let dhcp = flags & NET_FLAG_DHCP_CLIENT != 0;
    if host.os == Os::Windows {
        refused(c, Errno::NotSup)
    } else if flags & !NET_FLAG_ALL != 0 || features & !NET_ALL_FEATURES != 0 {
        refused(c, Errno::Inval)
    } else {
        match socket_path(path) {
            Some(p) => if fd >= 0 {
                refused(c, Errno::Inval)
            } else {
                put(
                    c,
                    id,
                    |s: Settings|
                        with_interface(s, NetBackend::UnixgramPath(p, magic), mac, features, dhcp),
                )
            },
            None => if fd < 0 {
                refused(c, Errno::Inval)
            } else {
                put(
                    c,
                    id,
                    |s: Settings|
                        with_interface(s, NetBackend::UnixgramFd(fd), mac, features, dhcp),
                )
            },
        }
    }
}

/// Add an interface behind a datagram socket: a path, or a descriptor, but not
/// both. Windows has no such sockets.
pub fn krun_add_net_unixgram(
    ctxs: &mut Contexts,
    host: &Host,
    ctx_id: u32,
    path: Option<&[u8]>,
    fd: i32,
    mac: [u8; 6],
    features: u32,
    flags: u32,
) -> (r: Result<i32, Errno>)
    requires
        has_interface_room(old(ctxs)@, ctx_id),
    ensures
        (final(ctxs)@, r) == unixgram_added(
            old(ctxs)@,
            *host,
            ctx_id,
            bytes_in(path),
            fd,
            mac@,
            features,
            flags,
        ),
{
    if host.os == Os::Windows {
        return Err(Errno::NotSup);
    }
    let path: Option<String> = socket_text(path);
    if fd >= 0 && path.is_some() {
        return Err(Errno::Inval);
    }
    if fd < 0 && path.is_none() {
        return Err(Errno::Inval);
    }
    if features & !NET_ALL_FEATURES != 0 {
        return Err(Errno::Inval);
    }
    if flags & !NET_FLAG_ALL != 0 {
        return Err(Errno::Inval);
    }
    let backend = match path {
        Some(p) => VirtioNetBackend::UnixgramPath(p, flags & NET_FLAG_VFKIT != 0),
        None => VirtioNetBackend::UnixgramFd(fd),
    };
    add_interface(ctxs, ctx_id, backend, mac, features, flags & NET_FLAG_DHCP_CLIENT != 0)
}

pub open spec fn tap_added(
    c: Ctxs,
    host: Host,
    id: u32,
    tap_name: Seq<u8>,
    mac: Seq<u8>,
    features: u32,
    flags: u32,
) -> Outcome {
    let dhcp = flags & NET_FLAG_DHCP_CLIENT != 0;
    if host.os != Os::Linux || features & !NET_ALL_FEATURES != 0 || flags & !NET_FLAG_DHCP_CLIENT
        != 0 {
        refused(c, Errno::Inval)
    } else if features & NET_GUEST_OFFLOADS != 0 && features & NET_FEATURE_GUEST_CSUM == 0 {
        refused(c, Errno::Inval)
    } else {
        match utf8_text(tap_name) {
            Some(name) => put(
                c,
                id,
                |s: Settings| with_interface(s, NetBackend::Tap(name), mac, features, dhcp),
            ),
            None => refused(c, Errno::Inval),
        }
    }
}

/// Add an interface behind a tap device, which only Linux has. A guest that
/// receives more than one packet at a time must also check sums itself.
pub fn krun_add_net_tap(
    ctxs: &mut Contexts,
    host: &Host,
    ctx_id: u32,
    tap_name: &[u8],
    mac: [u8; 6],
    features: u32,
    flags: u32,
) -> (r: Result<i32, Errno>)
    requires
        has_interface_room(old(ctxs)@, ctx_id),
    ensures
        (final(ctxs)@, r) == tap_added(
            old(ctxs)@,
            *host,
            ctx_id,
            tap_name@,
            mac@,
            features,
            flags,
        ),
{
    if host.os != Os::Linux {
        return Err(Errno::Inval);
    }
    let name: String = match utf8(tap_name) {
        Some(t) => t,
        None => return Err(Errno::Inval),
    };
    if features & !NET_ALL_FEATURES != 0 {
        return Err(Errno::Inval);
    }
    if features & NET_GUEST_OFFLOADS != 0 && features & NET_FEATURE_GUEST_CSUM == 0 {
        return Err(Errno::Inval);
    }
    if flags & !NET_FLAG_DHCP_CLIENT != 0 {
        return Err(Errno::Inval);
    }
    add_interface(
        ctxs,
        ctx_id,
        VirtioNetBackend::Tap(name),
        mac,
        features,
        flags & NET_FLAG_DHCP_CLIENT != 0,
    )
}

/// Interfaces have names of their own: a configuration's interfaces are
/// counted from eth0 up.
pub open spec fn interfaces_counted(s: Settings) -> bool {
    &&& s.net_index == s.net.len()
    &&& forall|i: int|
        0 <= i < s.net.len() ==> (#[trigger] s.net[i]).iface_id == "eth"@ + decimal_of(i as nat)
}

/// Adding an interface keeps the count.
pub proof fn interfaces_are_counted(
    s: Settings,
    backend: NetBackend,
    mac: Seq<u8>,
    features: u32,
    dhcp: bool,
)
    requires
        interfaces_counted(s),
        s.net_index < u8::MAX,
    ensures
        interfaces_counted(with_interface(s, backend, mac, features, dhcp)),
{
}

} // verus!
