//! What the calls that configure a guest leave behind: each sets what it was
//! given, leaves every other setting of that guest and every other guest as
//! they were, and where it is refused changes nothing.

use vstd::prelude::*;
use vstd::utf8::{decode_utf8, valid_utf8};

use crate::config::{
    BlockDevice, BlockRoot, CacheType, Console, FsDevice, Host, Kernel, KernelFormat, NetBackend,
    NetInterface, Os, Settings, VmConfig, VsockConfig,
};
use crate::contexts::{Ctxs, Outcome};
use crate::errno::Errno;
use crate::guest::{block_root_text, workdir_set};
use crate::machine::{
    gid_set, kernel_set, nested_virt_set, path_set, split_irqchip_set, uid_set, vm_config_set,
    PathSetting,
};
use crate::net::{tap_added, unixgram_added, unixstream_added};
use crate::nitro::{console_output_set, enclave_of};
use crate::overlay::{Content, Entry};
use crate::peripherals::{console_added, display_added, gpu_options_set, input_added};
use crate::sockets::{vsock_added, vsock_port_added};
use crate::storage::{disk_added, find_fs, root_disk_remounted, virtiofs_added};

verus! {

/// The call set one guest's settings and touched no other guest.
pub open spec fn took(r: Outcome, c: Ctxs, id: u32, s: Settings) -> bool {
    r == (Ctxs { next: c.next, settings: c.settings.insert(id, s) }, Ok::<i32, Errno>(0))
}

/// The call changed nothing.
pub open spec fn turned_down(r: Outcome, c: Ctxs, error: Errno) -> bool {
    r == (c, Err::<i32, Errno>(error))
}

/// What a text that may be missing reads as.
pub open spec fn read(bytes: Option<Seq<u8>>) -> Option<Seq<char>> {
    match bytes {
        Some(b) => Some(decode_utf8(b)),
        None => None,
    }
}

pub open spec fn is_text(bytes: Option<Seq<u8>>) -> bool {
    bytes matches Some(b) ==> valid_utf8(b)
}

/// Paths and names are kept as they were given.
pub proof fn paths_are_kept(c: Ctxs, id: u32, path: Seq<u8>)
    ensures
        ({
            let s = c.settings[id];
            let t = decode_utf8(path);
            let calls = seq![
                workdir_set(c, id, path),
                path_set(c, id, PathSetting::Firmware, Some(path)),
                path_set(c, id, PathSetting::TeeConfigFile, Some(path)),
                path_set(c, id, PathSetting::ControlSocket, Some(path)),
                path_set(c, id, PathSetting::Snapshot, Some(path)),
                path_set(c, id, PathSetting::KernelConsole, Some(path)),
            ];
            let sets = seq![
                Settings { workdir: Some(t), ..s },
                Settings { firmware_config: Some(t), ..s },
                Settings { tee_config_file: Some(t), ..s },
                Settings { control_socket_path: Some(t), ..s },
                Settings { snapshot_dir: Some(t), ..s },
                Settings { kernel_console: Some(t), ..s },
            ];
            forall|i: int|
                0 <= i < 6 ==> {
                    &&& !valid_utf8(path) ==> turned_down(#[trigger] calls[i], c, Errno::Inval)
                    &&& valid_utf8(path) && !c.settings.contains_key(id) ==> turned_down(
                        calls[i],
                        c,
                        Errno::NoEnt,
                    )
                    &&& valid_utf8(path) && c.settings.contains_key(id) ==> took(
                        calls[i],
                        c,
                        id,
                        sets[i],
                    )
                }
        }),
{
}

/// A console's output is set once.
pub proof fn the_console_output_is_set_once(c: Ctxs, id: u32, path: Seq<u8>)
    requires
        valid_utf8(path),
        c.settings.contains_key(id),
    ensures
        ({
            let s = c.settings[id];
            let r = console_output_set(c, id, path);
            if s.nitro_console_output is None {
                took(r, c, id, Settings { nitro_console_output: Some(decode_utf8(path)), ..s })
            } else {
                turned_down(r, c, Errno::Inval)
            }
        }),
{
}

/// Switches and identities are kept as they were given.
pub proof fn switches_are_kept(c: Ctxs, host: Host, id: u32, on: bool, n: u32, vm: VmConfig)
    requires
        c.settings.contains_key(id),
    ensures
        ({
            let s = c.settings[id];
            &&& took(nested_virt_set(c, id, on), c, id, Settings { nested_enabled: on, ..s })
            &&& took(uid_set(c, id, n), c, id, Settings { vmm_uid: Some(n), ..s })
            &&& took(gid_set(c, id, n), c, id, Settings { vmm_gid: Some(n), ..s })
            &&& took(vm_config_set(c, id, vm, true), c, id, Settings { vm_config: vm, ..s })
            &&& turned_down(vm_config_set(c, id, vm, false), c, Errno::Inval)
            &&& if on && host.arch != crate::config::Arch::X86_64 {
                turned_down(split_irqchip_set(c, host, id, on), c, Errno::Inval)
            } else {
                took(split_irqchip_set(c, host, id, on), c, id, Settings { split_irqchip: on, ..s })
            }
        }),
{
}

/// A kernel is kept with its image, its format by number, its initramfs and
/// its command line; a confidential guest has none.
pub proof fn a_kernel_is_kept(
    c: Ctxs,
    host: Host,
    id: u32,
    path: Seq<u8>,
    format: u32,
    initramfs: Seq<u8>,
    size: u64,
    cmdline: Option<Seq<u8>>,
)
    requires
        c.settings.contains_key(id),
        valid_utf8(path),
        valid_utf8(initramfs),
        is_text(cmdline),
    ensures
        ({
            let s = c.settings[id];
            let bare = kernel_set(c, host, id, path, format, None, None, cmdline);
            let with = kernel_set(
                c,
                host,
                id,
                path,
                format,
                None,
                Some((initramfs, Some(size))),
                cmdline,
            );
            let lost = kernel_set(c, host, id, path, format, None, Some((initramfs, None)), cmdline);
            let formats = seq![
                KernelFormat::Raw,
                KernelFormat::Elf,
                KernelFormat::PeGz,
                KernelFormat::ImageBz2,
                KernelFormat::ImageGz,
                KernelFormat::ImageZstd,
            ];
            let known = format < 6 && (format == 0 ==> host.arch
                == crate::config::Arch::Aarch64);
            &&& host.features.tee ==> turned_down(bare, c, Errno::OpNotSupp)
            &&& !host.features.tee && !known ==> turned_down(bare, c, Errno::Inval)
            &&& !host.features.tee && known ==> {
                &&& turned_down(lost, c, Errno::Inval)
                &&& took(
                    bare,
                    c,
                    id,
                    Settings {
                        external_kernel: Some(
                            Kernel {
                                path: decode_utf8(path),
                                format: formats[format as int],
                                initramfs_path: None,
                                initramfs_size: 0,
                                cmdline: read(cmdline),
                            },
                        ),
                        ..s
                    },
                )
                &&& took(
                    with,
                    c,
                    id,
                    Settings {
                        external_kernel: Some(
                            Kernel {
                                path: decode_utf8(path),
                                format: formats[format as int],
                                initramfs_path: Some(decode_utf8(initramfs)),
                                initramfs_size: size,
                                cmdline: read(cmdline),
                            },
                        ),
                        ..s
                    },
                )
            }
        }),
{
}

/// A disk is put behind those that the guest has, with everything that was
/// said of it.
pub proof fn a_disk_is_kept(
    c: Ctxs,
    host: Host,
    id: u32,
    block_id: Seq<u8>,
    path: Seq<u8>,
    cache_type: CacheType,
    format: u32,
    read_only: bool,
    direct_io: bool,
    sync_mode: u32,
)
    requires
        c.settings.contains_key(id),
    ensures
        ({
            let s = c.settings[id];
            let r = disk_added(
                c,
                host,
                id,
                block_id,
                path,
                cache_type,
                format,
                read_only,
                direct_io,
                sync_mode,
            );
            if valid_utf8(block_id) && valid_utf8(path) && format < host.devices.image_formats
                && sync_mode < host.devices.sync_modes {
                took(
                    r,
                    c,
                    id,
                    Settings {
                        block_cfgs: s.block_cfgs.push(
                            BlockDevice {
                                block_id: decode_utf8(block_id),
                                cache_type,
                                path: decode_utf8(path),
                                format,
                                read_only,
                                direct_io,
                                sync_mode,
                            },
                        ),
                        ..s
                    },
                )
            } else {
                turned_down(r, c, Errno::Inval)
            }
        }),
{
}

/// A shared directory is put behind those that the guest has, with everything
/// that was said of it; no window is one of size zero. Only the root shows the
/// init, and only where there is one and it has not been switched off.
pub proof fn a_shared_directory_is_kept(
    c: Ctxs,
    id: u32,
    init: Option<Seq<u8>>,
    tag: Seq<u8>,
    path: Option<Seq<u8>>,
    shm_size: u64,
    read_only: bool,
)
    requires
        c.settings.contains_key(id),
        valid_utf8(tag),
        is_text(path),
        shm_size <= usize::MAX,
    ensures
        ({
            let s = c.settings[id];
            let (after, r) = virtiofs_added(c, id, init, Some(tag), path, shm_size, read_only);
            let fs = after.settings[id].fs;
            &&& took((after, r), c, id, Settings { fs, ..s })
            &&& fs.len() == s.fs.len() + 1
            &&& fs.drop_last() == s.fs
            &&& fs.last().fs_id == decode_utf8(tag)
            &&& fs.last().shared_dir == read(path)
            &&& fs.last().read_only == read_only
            &&& shm_size == 0 ==> fs.last().shm_size is None
            &&& shm_size > 0 ==> fs.last().shm_size == Some(shm_size as usize)
            &&& decode_utf8(tag) != "/dev/root"@ || init is None || s.disable_implicit_init
                ==> fs.last().entries.len() == 0
            &&& decode_utf8(tag) == "/dev/root"@ && !s.disable_implicit_init ==> (init matches Some(
                payload,
            ) ==> fs.last().entries == seq![
                Entry {
                    name: "init.krun"@,
                    mode: 0o755,
                    one_shot: true,
                    content: Content::File(payload),
                },
            ])
        }),
{
    let s = c.settings[id];
    let fs = virtiofs_added(c, id, init, Some(tag), path, shm_size, read_only).0.settings[id].fs;
    assert(fs.drop_last() =~= s.fs);
}

/// Where the search for a tag ends.
proof fn lemma_found(fs: Seq<FsDevice>, tag: Seq<char>, at: int)
    requires
        0 <= at <= fs.len(),
    ensures
        at <= find_fs(fs, tag, at) <= fs.len(),
        find_fs(fs, tag, at) < fs.len() ==> fs[find_fs(fs, tag, at)].fs_id == tag,
        forall|i: int| at <= i < find_fs(fs, tag, at) ==> (#[trigger] fs[i]).fs_id != tag,
    decreases fs.len() - at,
{
    if at < fs.len() && fs[at].fs_id != tag {
        lemma_found(fs, tag, at + 1);
    }
}

/// An empty directory that is there for something to be mounted on.
pub open spec fn mount_point(name: Seq<char>) -> Entry {
    Entry { name, mode: 0o755, one_shot: false, content: Content::Dir(Seq::empty()) }
}

/// A guest can be made to move to a disk for its root where it has a disk and
/// no root yet. What was said of the disk is kept: its device, its file system
/// type unless that is to be found out, and its mount options. The root that
/// the guest starts on holds the mount points, after the init if there is one.
#[verifier::rlimit(50)]
pub proof fn a_root_disk_is_kept(
    c: Ctxs,
    id: u32,
    init: Option<Seq<u8>>,
    device: Seq<u8>,
    fstype: Option<Seq<u8>>,
    options: Option<Seq<u8>>,
)
    requires
        c.settings.contains_key(id),
        valid_utf8(device),
        is_text(fstype),
        is_text(options),
    ensures
        ({
            let s = c.settings[id];
            let (after, r) = root_disk_remounted(c, id, init, device, fstype, options);
            let now = after.settings[id];
            let rooted = exists|i: int| 0 <= i < s.fs.len() && (#[trigger] s.fs[i]).fs_id
                == "/dev/root"@;
            &&& rooted || s.block_cfgs.len() == 0 ==> turned_down((after, r), c, Errno::Inval)
            &&& !rooted && s.block_cfgs.len() > 0 ==> {
                let e = now.fs.last().entries;
                let mounts = e.skip(e.len() - 4);
                &&& took((after, r), c, id, Settings { fs: now.fs, block_root: now.block_root, ..s })
                // What was said of the disk.
                &&& now.block_root matches Some(b)
                &&& b.device == decode_utf8(device)
                &&& fstype is None ==> b.fstype is None
                &&& read(fstype) == Some("auto"@) ==> b.fstype is None
                &&& fstype is Some && read(fstype) != Some("auto"@) ==> b.fstype == read(fstype)
                &&& b.options == read(options)
                // The root before the move.
                &&& now.fs.drop_last() == s.fs
                &&& now.fs.last().fs_id == "/dev/root"@
                &&& now.fs.last().shared_dir is None
                &&& now.fs.last().shm_size == Some(0x2000_0000usize)
                &&& !now.fs.last().read_only
                &&& mounts == seq![
                    mount_point("dev"@),
                    mount_point("proc"@),
                    mount_point("sys"@),
                    mount_point("newroot"@),
                ]
                &&& init is None || s.disable_implicit_init ==> e.len() == 4
                &&& !s.disable_implicit_init ==> (init matches Some(payload) ==> e.len() == 5
                    && e[0] == (Entry {
                    name: "init.krun"@,
                    mode: 0o755,
                    one_shot: true,
                    content: Content::File(payload),
                }))
            }
        }),
{
    let s = c.settings[id];
    lemma_found(s.fs, "/dev/root"@, 0);
    let (after, r) = root_disk_remounted(c, id, init, device, fstype, options);
    let fs = after.settings[id].fs;
    if r is Ok {
        assert(fs.drop_last() =~= s.fs);
        let e = fs.last().entries;
        assert(e.skip(e.len() - 4) =~= seq![
            mount_point("dev"@),
            mount_point("proc"@),
            mount_point("sys"@),
            mount_point("newroot"@),
        ]);
    }
}

/// The guest is told of its root disk: always of the device, and of the type
/// and the options where they were given.
pub proof fn a_root_disk_is_told(device: Seq<char>, fstype: Seq<char>, options: Seq<char>)
    ensures
        block_root_text(None).len() == 0,
        block_root_text(Some(BlockRoot { device, fstype: None, options: None }))
            == "KRUN_BLOCK_ROOT_DEVICE="@ + device,
        block_root_text(Some(BlockRoot { device, fstype: Some(fstype), options: None }))
            == "KRUN_BLOCK_ROOT_DEVICE="@ + device + " KRUN_BLOCK_ROOT_FSTYPE="@ + fstype,
        block_root_text(Some(BlockRoot { device, fstype: None, options: Some(options) }))
            == "KRUN_BLOCK_ROOT_DEVICE="@ + device + " KRUN_BLOCK_ROOT_OPTIONS="@ + options,
        block_root_text(Some(BlockRoot { device, fstype: Some(fstype), options: Some(options) }))
            == "KRUN_BLOCK_ROOT_DEVICE="@ + device + " KRUN_BLOCK_ROOT_FSTYPE="@ + fstype
            + " KRUN_BLOCK_ROOT_OPTIONS="@ + options,
{
    assert(block_root_text(Some(BlockRoot { device, fstype: None, options: None }))
        =~= "KRUN_BLOCK_ROOT_DEVICE="@ + device);
    assert(block_root_text(Some(BlockRoot { device, fstype: Some(fstype), options: None }))
        =~= "KRUN_BLOCK_ROOT_DEVICE="@ + device + " KRUN_BLOCK_ROOT_FSTYPE="@ + fstype);
    assert(block_root_text(Some(BlockRoot { device, fstype: None, options: Some(options) }))
        =~= "KRUN_BLOCK_ROOT_DEVICE="@ + device + " KRUN_BLOCK_ROOT_OPTIONS="@ + options);
    assert(block_root_text(Some(BlockRoot { device, fstype: Some(fstype), options: Some(options) }))
        =~= "KRUN_BLOCK_ROOT_DEVICE="@ + device + " KRUN_BLOCK_ROOT_FSTYPE="@ + fstype
        + " KRUN_BLOCK_ROOT_OPTIONS="@ + options);
}

/// The flags of a network interface: the first bit asks for the greeting, the
/// second for the guest to ask for its address.
pub open spec fn net_flag(flags: u32, bit: u32) -> bool {
    flags & bit != 0
}

/// An interface was put behind those that the guest has, under the next number,
/// with everything that was said of it.
pub open spec fn took_interface(
    r: Outcome,
    c: Ctxs,
    id: u32,
    backend: NetBackend,
    mac: Seq<u8>,
    features: u32,
    dhcp: bool,
) -> bool {
    let s = c.settings[id];
    took(
        r,
        c,
        id,
        Settings {
            net: s.net.push(
                NetInterface {
                    iface_id: "eth"@ + crate::text::decimal_of(s.net_index as nat),
                    backend,
                    mac,
                    features,
                },
            ),
            net_index: (s.net_index + 1) as u8,
            dhcp_client: s.dhcp_client || dhcp,
            ..s
        },
    )
}

/// A network interface is kept with its backend, which is a path or a
/// descriptor but not both, its address and its features; the features and
/// flags must be known ones, and a tap is there on Linux alone.
#[verifier::rlimit(50)]
pub proof fn interfaces_are_kept(
    c: Ctxs,
    host: Host,
    id: u32,
    path: Seq<u8>,
    fd: i32,
    mac: Seq<u8>,
    features: u32,
    flags: u32,
)
    requires
        c.settings.contains_key(id),
        valid_utf8(path),
    ensures
        ({
            let t = decode_utf8(path);
            let dhcp = net_flag(flags, 2);
            let known = features & !0x5d83u32 == 0;
            let stream = |p: Option<Seq<u8>>|
                unixstream_added(c, host, id, p, fd, mac, features, flags);
            let gram = |p: Option<Seq<u8>>|
                unixgram_added(c, host, id, p, fd, mac, features, flags);
            let tap = tap_added(c, host, id, path, mac, features, flags);
            // Streams.
            &&& !known || flags & !2u32 != 0 ==> turned_down(stream(Some(path)), c, Errno::Inval)
                && turned_down(stream(None), c, Errno::Inval) && turned_down(tap, c, Errno::Inval)
            &&& known && flags & !2u32 == 0 ==> {
                &&& fd >= 0 ==> turned_down(stream(Some(path)), c, Errno::Inval)
                &&& fd < 0 ==> took_interface(
                    stream(Some(path)),
                    c,
                    id,
                    NetBackend::UnixstreamPath(t),
                    mac,
                    features,
                    dhcp,
                )
                &&& fd < 0 || host.os == Os::Windows ==> turned_down(stream(None), c, Errno::Inval)
                &&& fd >= 0 && host.os != Os::Windows ==> took_interface(
                    stream(None),
                    c,
                    id,
                    NetBackend::UnixstreamFd(fd),
                    mac,
                    features,
                    dhcp,
                )
            }
            // Datagrams.
            &&& host.os == Os::Windows ==> turned_down(gram(Some(path)), c, Errno::NotSup)
                && turned_down(gram(None), c, Errno::NotSup)
            &&& host.os != Os::Windows && known && flags & !3u32 == 0 ==> {
                &&& fd >= 0 ==> turned_down(gram(Some(path)), c, Errno::Inval) && took_interface(
                    gram(None),
                    c,
                    id,
                    NetBackend::UnixgramFd(fd),
                    mac,
                    features,
                    dhcp,
                )
                &&& fd < 0 ==> turned_down(gram(None), c, Errno::Inval) && took_interface(
                    gram(Some(path)),
                    c,
                    id,
                    NetBackend::UnixgramPath(t, net_flag(flags, 1)),
                    mac,
                    features,
                    dhcp,
                )
            }
            &&& host.os != Os::Windows && (!known || flags & !3u32 != 0) ==> turned_down(
                gram(None),
                c,
                Errno::Inval,
            )
            // Taps.
            &&& host.os != Os::Linux ==> turned_down(tap, c, Errno::Inval)
            &&& host.os == Os::Linux && known && flags & !2u32 == 0 ==> if features & 0x580 != 0
                && features & 2 == 0 {
                turned_down(tap, c, Errno::Inval)
            } else {
                took_interface(tap, c, id, NetBackend::Tap(t), mac, features, dhcp)
            }
        }),
{
}

/// A guest has one socket device, and its ports are kept with their paths and
/// their side.
pub proof fn sockets_are_kept(
    c: Ctxs,
    host: Host,
    id: u32,
    features: u32,
    port: u32,
    path: Seq<u8>,
    listen: bool,
)
    requires
        c.settings.contains_key(id),
        valid_utf8(path),
        !host.features.aws_nitro,
    ensures
        ({
            let s = c.settings[id];
            let r = vsock_added(c, host, id, features);
            let p = vsock_port_added(c, host, id, port, path, listen, Some(false));
            let known = features & !host.devices.tsi_flags == 0 && (host.os == Os::Linux || features
                & host.devices.tsi_hijack_unix != host.devices.tsi_hijack_unix);
            &&& !known ==> turned_down(r, c, Errno::Inval)
            &&& known && s.vsock_config != VsockConfig::Disabled ==> turned_down(r, c, Errno::Exist)
            &&& known && s.vsock_config == VsockConfig::Disabled ==> took(
                r,
                c,
                id,
                Settings { vsock_config: VsockConfig::Explicit { tsi_flags: features }, ..s },
            )
            &&& s.vsock_config == VsockConfig::Disabled ==> turned_down(p, c, Errno::NoDev)
            &&& s.vsock_config != VsockConfig::Disabled ==> {
                let now = p.0.settings[id].unix_ipc_port_map;
                &&& took(p, c, id, Settings { unix_ipc_port_map: now, ..s })
                &&& now matches Some(m) && m.contains_key(port) && m[port] == (
                    decode_utf8(path),
                    listen,
                ) && forall|k: u32|
                    k != port ==> (#[trigger] m.contains_key(k) <==> (s.unix_ipc_port_map matches Some(
                        o,
                    ) && o.contains_key(k)))
                &&& now matches Some(m) && (s.unix_ipc_port_map matches Some(o) ==> forall|k: u32|
                    k != port && o.contains_key(k) ==> #[trigger] m[k] == o[k])
            }
            &&& listen ==> turned_down(
                vsock_port_added(c, host, id, port, path, listen, Some(true)),
                c,
                Errno::Exist,
            )
            &&& listen ==> turned_down(
                vsock_port_added(c, host, id, port, path, listen, None),
                c,
                Errno::Inval,
            )
        }),
{
}

/// Graphics options, inputs, consoles and displays are kept as they were given.
pub proof fn peripherals_are_kept(
    c: Ctxs,
    host: Host,
    id: u32,
    flags: u32,
    shm: usize,
    input: u64,
    console: Console,
    width: u32,
    height: u32,
)
    requires
        c.settings.contains_key(id),
        host.features.gpu,
    ensures
        ({
            let s = c.settings[id];
            let d = display_added(c, host, id, width, height);
            &&& took(
                gpu_options_set(c, id, flags, None),
                c,
                id,
                Settings { gpu_virgl_flags: Some(flags), ..s },
            )
            &&& took(
                gpu_options_set(c, id, flags, Some(shm)),
                c,
                id,
                Settings { gpu_virgl_flags: Some(flags), gpu_shm_size: Some(shm), ..s },
            )
            &&& took(
                input_added(c, id, input),
                c,
                id,
                Settings { input_backends: s.input_backends.push(input), ..s },
            )
            &&& took(
                console_added(c, id, console),
                c,
                id,
                Settings { virtio_consoles: s.virtio_consoles.push(console), ..s },
            )
            &&& s.displays.len() >= host.devices.max_displays ==> turned_down(d, c, Errno::NoMem)
            &&& s.displays.len() < host.devices.max_displays ==> {
                let now = d.0.settings[id].displays;
                &&& d.1 == Ok::<i32, Errno>(s.displays.len() as i32)
                &&& d.0.settings[id] == (Settings { displays: now, ..s })
                &&& now.len() == s.displays.len() + 1
                &&& now.last().width == width && now.last().height == height
                &&& now.last().edid == crate::config::Edid::Generated(
                    crate::config::EdidParams { refresh_rate: None, physical_size: None },
                )
                &&& forall|i: int| 0 <= i < s.displays.len() ==> #[trigger] now[i] == s.displays[i]
            }
        }),
{
}

/// An enclave is described by the guest's settings: its memory and processors,
/// its first shared directory, what it runs, the one descriptor of its network,
/// and where its output goes; the first of them that is missing is told.
pub proof fn an_enclave_is_described(s: Settings, debug: bool)
    ensures
        ({
            let r = enclave_of(s, debug);
            &&& r matches Ok(e) ==> {
                &&& s.vm_config.mem_size_mib == Some(e.mem_size_mib)
                &&& s.vm_config.vcpu_count == Some(e.vcpus)
                &&& s.fs.len() > 0 && e.rootfs == s.fs[0].shared_dir
                &&& s.exec_path == Some(e.exec_path)
                &&& s.args == Some(e.exec_args)
                &&& s.env == Some(e.exec_env)
                &&& s.nitro_console_output == Some(e.output_path)
                &&& e.debug == debug
                &&& s.net.len() == 0 ==> e.net_unixfd is None
                &&& s.net.len() > 0 ==> s.net.len() == 1 && (e.net_unixfd matches Some(fd)
                    && s.net[0].backend == NetBackend::UnixstreamFd(fd))
            }
            &&& r is Ok <==> s.vm_config.mem_size_mib is Some && s.vm_config.vcpu_count is Some
                && s.fs.len() > 0 && s.exec_path is Some && s.args is Some && s.env is Some
                && s.nitro_console_output is Some && (s.net.len() == 0 || (s.net.len() == 1
                && s.net[0].backend is UnixstreamFd))
        }),
{
}

} // verus!
