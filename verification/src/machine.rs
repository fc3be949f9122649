//! The machine: processors and memory, the kernel, and the switches of the
//! monitor.

use vstd::prelude::*;
use vstd::string::StrSliceExecFns;

use crate::bytes::push_le;
use crate::config::{
    text_in, Arch, CpuFeaturesTemplate, ExternalKernel, Host, Kernel, KernelBundle, KernelFormat,
    Os, Settings, VmConfig,
};
use crate::contexts::{
    array_of, array_texts, changed, put, refused, utf8, utf8_text, utf8_texts, Contexts, Ctxs,
    Outcome,
};
use crate::errno::Errno;
use crate::guest::slice_in;
use crate::mem::le_bytes;
use crate::text::{same, trim, trimmed};

verus! {

// ---------------------------------------------------------------------------
// Processors and memory.
// ---------------------------------------------------------------------------

pub open spec fn vm_config_set(c: Ctxs, id: u32, new: VmConfig, accepted: bool) -> Outcome {
    changed(
        c,
        id,
        |s: Settings|
            if accepted {
                Ok((Settings { vm_config: new, ..s }, 0i32))
            } else {
                Err(Errno::Inval)
            },
    )
}

/// Set the number of processors and the memory. `accepted` is whether the
/// machine model takes the configuration.
pub fn krun_set_vm_config(
    ctxs: &mut Contexts,
    ctx_id: u32,
    num_vcpus: u8,
    ram_mib: u32,
    accepted: bool,
) -> (r: Result<i32, Errno>)
    ensures
        (final(ctxs)@, r) == vm_config_set(
            old(ctxs)@,
            ctx_id,
            (VmConfig {
                vcpu_count: Some(num_vcpus),
                mem_size_mib: Some(ram_mib as usize),
                ht_enabled: Some(false),
                cpu_template: None,
            }),
            accepted,
        ),
{
    match ctxs.find(ctx_id) {
        Some(c) => {
            if !accepted {
                return Err(Errno::Inval);
            }
            c.vm_config = VmConfig {
                vcpu_count: Some(num_vcpus),
                mem_size_mib: Some(ram_mib as usize),
                ht_enabled: Some(false),
                cpu_template: None,
            };
            Ok(0)
        },
        None => Err(Errno::NoEnt),
    }
}

/// "GenuineIntel".
pub open spec fn intel() -> Seq<u8> {
    seq![0x47u8, 0x65, 0x6e, 0x75, 0x69, 0x6e, 0x65, 0x49, 0x6e, 0x74, 0x65, 0x6c]
}

/// The vendor that the processor's identification names, from three of its
/// registers.
pub open spec fn vendor_of(ebx: u32, edx: u32, ecx: u32) -> Seq<u8> {
    le_bytes(ebx as nat, 4) + le_bytes(edx as nat, 4) + le_bytes(ecx as nat, 4)
}

fn is_intel(ebx: u32, edx: u32, ecx: u32) -> (r: bool)
    ensures
        r == (vendor_of(ebx, edx, ecx) == intel()),
{
    let mut v: Vec<u8> = Vec::new();
    push_le(&mut v, ebx as u128, 4);
    push_le(&mut v, edx as u128, 4);
    push_le(&mut v, ecx as u128, 4);
    assert(v@ =~= vendor_of(ebx, edx, ecx));
    let want: Vec<u8> = vec![
        0x47, 0x65, 0x6e, 0x75, 0x69, 0x6e, 0x65, 0x49, 0x6e, 0x74, 0x65, 0x6c,
    ];
    assert(want@ =~= intel());
    proof {
        crate::mem::le_bytes_len(ebx as nat, 4);
        crate::mem::le_bytes_len(edx as nat, 4);
        crate::mem::le_bytes_len(ecx as nat, 4);
    }
    let mut i: usize = 0;
    while i < 12
        invariant
            i <= 12,
            v@ == vendor_of(ebx, edx, ecx),
            v@.len() == 12,
            want@ == intel(),
            want@.len() == 12,
            forall|k: int| 0 <= k < i ==> v@[k] == want@[k],
        decreases 12 - i,
    {
        if v[i] != want[i] {
            assert(vendor_of(ebx, edx, ecx)[i as int] != intel()[i as int]);
            return false;
        }
        i += 1;
    }
    assert(v@ =~= want@);
    true
}

pub open spec fn cpu_template_set(
    c: Ctxs,
    host: Host,
    id: u32,
    cpu_template: u32,
    vendor: Seq<u8>,
    accepted: bool,
) -> Outcome {
    if host.os != Os::Linux || host.arch != Arch::X86_64 {
        refused(c, Errno::NotSup)
    } else if cpu_template != 1 {
        refused(c, Errno::Inval)
    } else if vendor != intel() {
        refused(c, Errno::NotSup)
    } else {
        changed(
            c,
            id,
            |s: Settings|
                if accepted {
                    Ok(
                        (
                            Settings {
                                vm_config: VmConfig {
                                    cpu_template: Some(CpuFeaturesTemplate::PortableV1),
                                    ..s.vm_config
                                },
                                ..s
                            },
                            0i32,
                        ),
                    )
                } else {
                    Err(Errno::Inval)
                },
        )
    }
}

/// Select a stable processor for live migration. The only template is an Intel
/// contract. `ebx`, `edx` and `ecx` are what the processor's identification
/// leaf 0 holds; `accepted` is whether the machine model takes the
/// configuration.
pub fn krun_set_cpu_template(
    ctxs: &mut Contexts,
    host: &Host,
    ctx_id: u32,
    cpu_template: u32,
    ebx: u32,
    edx: u32,
    ecx: u32,
    accepted: bool,
) -> (r: Result<i32, Errno>)
    ensures
        (final(ctxs)@, r) == cpu_template_set(
            old(ctxs)@,
            *host,
            ctx_id,
            cpu_template,
            vendor_of(ebx, edx, ecx),
            accepted,
        ),
{
    if host.os != Os::Linux || host.arch != Arch::X86_64 {
        return Err(Errno::NotSup);
    }
    if cpu_template != 1 {
        return Err(Errno::Inval);
    }
    if !is_intel(ebx, edx, ecx) {
        return Err(Errno::NotSup);
    }
    match ctxs.find(ctx_id) {
        Some(c) => {
            if !accepted {
                return Err(Errno::Inval);
            }
            c.vm_config.cpu_template = Some(CpuFeaturesTemplate::PortableV1);
            Ok(0)
        },
        None => Err(Errno::NoEnt),
    }
}

// ---------------------------------------------------------------------------
// The kernel.
// ---------------------------------------------------------------------------

/// Where a kernel that was mapped into this process lies in the guest.
pub const KERNEL_GUEST_ADDR: u64 = 0x8000_0000;

pub open spec fn kernel_mapped(c: Ctxs, id: u32, mapping: Option<(u64, usize)>) -> Outcome {
    match mapping {
        None => refused(c, Errno::Inval),
        Some((host_addr, size)) => put(
            c,
            id,
            |s: Settings|
                Settings {
                    kernel_bundle: Some(
                        KernelBundle {
                            host_addr,
                            guest_addr: KERNEL_GUEST_ADDR,
                            entry_addr: KERNEL_GUEST_ADDR,
                            size,
                        },
                    ),
                    ..s
                },
        ),
    }
}

/// Treat a raw kernel, mapped into this process at an address with a size, as a
/// bundled kernel. There is no mapping where the file could not be mapped.
pub fn map_kernel(ctxs: &mut Contexts, ctx_id: u32, mapping: Option<(u64, usize)>) -> (r: Result<
    i32,
    Errno,
>)
    ensures
        (final(ctxs)@, r) == kernel_mapped(old(ctxs)@, ctx_id, mapping),
{
    let (host_addr, size) = match mapping {
        Some(m) => m,
        None => return Err(Errno::Inval),
    };
    match ctxs.find(ctx_id) {
        Some(c) => {
            c.kernel_bundle = Some(
                KernelBundle {
                    host_addr,
                    guest_addr: KERNEL_GUEST_ADDR,
                    entry_addr: KERNEL_GUEST_ADDR,
                    size,
                },
            );
            Ok(0)
        },
        None => Err(Errno::NoEnt),
    }
}

/// The format with the number.
pub open spec fn kernel_format_of(host: Host, format: u32) -> Option<KernelFormat> {
    match format {
        0 => if host.arch == Arch::Aarch64 {
            Some(KernelFormat::Raw)
        } else {
            None
        },
        1 => Some(KernelFormat::Elf),
        2 => Some(KernelFormat::PeGz),
        3 => Some(KernelFormat::ImageBz2),
        4 => Some(KernelFormat::ImageGz),
        5 => Some(KernelFormat::ImageZstd),
        _ => None,
    }
}

/// A file next to the kernel: its path, and its size where it could be read.
pub open spec fn sized_file(f: Option<(Seq<u8>, Option<u64>)>) -> Option<
    (Option<Seq<char>>, u64),
> {
    match f {
        None => Some((None, 0)),
        Some((path, size)) => match (utf8_text(path), size) {
            (Some(t), Some(n)) => Some((Some(t), n)),
            _ => None,
        },
    }
}

/// A text that need not be given.
pub open spec fn optional_text(o: Option<Seq<u8>>) -> Option<Option<Seq<char>>> {
    match o {
        None => Some(None),
        Some(bytes) => match utf8_text(bytes) {
            Some(t) => Some(Some(t)),
            None => None,
        },
    }
}

pub open spec fn kernel_set(
    c: Ctxs,
    host: Host,
    id: u32,
    path: Seq<u8>,
    kernel_format: u32,
    mapping: Option<(u64, usize)>,
    initramfs: Option<(Seq<u8>, Option<u64>)>,
    cmdline: Option<Seq<u8>>,
) -> Outcome {
    if host.features.tee {
        refused(c, Errno::OpNotSupp)
    } else {
        match utf8_text(path) {
            None => refused(c, Errno::Inval),
            Some(path) => if kernel_format == 0 && host.arch == Arch::X86_64 {
                kernel_mapped(c, id, mapping)
            } else {
                match (
                    kernel_format_of(host, kernel_format),
                    sized_file(initramfs),
                    optional_text(cmdline),
                ) {
                    (Some(format), Some((initramfs_path, initramfs_size)), Some(cmdline)) => put(
                        c,
                        id,
                        |s: Settings|
                            Settings {
                                external_kernel: Some(
                                    Kernel { path, format, initramfs_path, initramfs_size, cmdline },
                                ),
                                ..s
                            },
                    ),
                    _ => refused(c, Errno::Inval),
                }
            },
        }
    }
}

/// The bytes, where there are any.
pub open spec fn bytes_in(o: Option<&[u8]>) -> Option<Seq<u8>> {
    match o {
        Some(b) => Some(b@),
        None => None,
    }
}

/// A text that need not be given.
pub(crate) fn optional(o: Option<&[u8]>) -> (r: Option<Option<String>>)
    ensures
        match optional_text(bytes_in(o)) {
            Some(t) => r is Some && text_in(r->0) == t,
            None => r is None,
        },
{
    match o {
        None => Some(None),
        Some(bytes) => match utf8(bytes) {
            Some(t) => Some(Some(t)),
            None => None,
        },
    }
}

pub open spec fn file_in(o: Option<(&[u8], Option<u64>)>) -> Option<(Seq<u8>, Option<u64>)> {
    match o {
        Some((path, size)) => Some((path@, size)),
        None => None,
    }
}

fn kernel_format_from(host: &Host, format: u32) -> (r: Option<KernelFormat>)
    ensures
        r == kernel_format_of(*host, format),
{
    match format {
        0 => if host.arch == Arch::Aarch64 {
            Some(KernelFormat::Raw)
        } else {
            None
        },
        1 => Some(KernelFormat::Elf),
        2 => Some(KernelFormat::PeGz),
        3 => Some(KernelFormat::ImageBz2),
        4 => Some(KernelFormat::ImageGz),
        5 => Some(KernelFormat::ImageZstd),
        _ => None,
    }
}

fn sized(f: Option<(&[u8], Option<u64>)>) -> (r: Option<(Option<String>, u64)>)
    ensures
        match sized_file(file_in(f)) {
            Some((path, size)) => r matches Some((p, n)) && text_in(p) == path && n == size,
            None => r is None,
        },
{
    match f {
        None => Some((None, 0)),
        Some((path, size)) => match (utf8(path), size) {
            (Some(t), Some(n)) => Some((Some(t), n)),
            _ => None,
        },
    }
}

/// Boot a kernel from a file. On x86_64 a raw kernel is `mapping`, as in
/// [`map_kernel`]. The initramfs comes with its size, where that could be
/// read.
pub fn krun_set_kernel(
    ctxs: &mut Contexts,
    host: &Host,
    ctx_id: u32,
    kernel_path: &[u8],
    kernel_format: u32,
    mapping: Option<(u64, usize)>,
    initramfs: Option<(&[u8], Option<u64>)>,
    cmdline: Option<&[u8]>,
) -> (r: Result<i32, Errno>)
    ensures
        (final(ctxs)@, r) == kernel_set(
            old(ctxs)@,
            *host,
            ctx_id,
            kernel_path@,
            kernel_format,
            mapping,
            file_in(initramfs),
            bytes_in(cmdline),
        ),
{
    if host.features.tee {
        return Err(Errno::OpNotSupp);
    }
    let path: String = match utf8(kernel_path) {
        Some(t) => t,
        None => return Err(Errno::Inval),
    };
    if kernel_format == 0 && host.arch == Arch::X86_64 {
        return map_kernel(ctxs, ctx_id, mapping);
    }
    let format = match kernel_format_from(host, kernel_format) {
        Some(f) => f,
        None => return Err(Errno::Inval),
    };
    let (initramfs_path, initramfs_size): (Option<String>, u64) = match sized(initramfs) {
        Some(f) => f,
        None => return Err(Errno::Inval),
    };
    let cmdline: Option<String> = match optional(cmdline) {
        Some(t) => t,
        None => return Err(Errno::Inval),
    };
    match ctxs.find(ctx_id) {
        Some(c) => {
            c.external_kernel = Some(
                ExternalKernel { path, format, initramfs_path, initramfs_size, cmdline },
            );
            Ok(0)
        },
        None => Err(Errno::NoEnt),
    }
}

/// A path to one of a context's settings.
#[derive(Debug, Clone, Copy, PartialEq, Eq, Structural)]
pub enum PathSetting {
    Firmware,
    TeeConfigFile,
    ControlSocket,
    Snapshot,
    KernelConsole,
}

impl PathSetting {
    /// The settings with the text in its place.
    pub open spec fn placed(self, s: Settings, t: Seq<char>) -> Settings {
        match self {
            PathSetting::Firmware => Settings { firmware_config: Some(t), ..s },
            PathSetting::TeeConfigFile => Settings { tee_config_file: Some(t), ..s },
            PathSetting::ControlSocket => Settings { control_socket_path: Some(t), ..s },
            PathSetting::Snapshot => Settings { snapshot_dir: Some(t), ..s },
            PathSetting::KernelConsole => Settings { kernel_console: Some(t), ..s },
        }
    }
}

pub open spec fn path_set(
    c: Ctxs,
    id: u32,
    setting: PathSetting,
    path: Option<Seq<u8>>,
) -> Outcome {
    match path {
        None => refused(c, Errno::Inval),
        Some(bytes) => match utf8_text(bytes) {
            None => refused(c, Errno::Inval),
            Some(t) => put(c, id, |s: Settings| setting.placed(s, t)),
        },
    }
}

fn set_path(ctxs: &mut Contexts, ctx_id: u32, setting: PathSetting, path: Option<&[u8]>) -> (r:
    Result<i32, Errno>)
    ensures
        (final(ctxs)@, r) == path_set(old(ctxs)@, ctx_id, setting, bytes_in(path)),
{
    let bytes = match path {
        Some(b) => b,
        None => return Err(Errno::Inval),
    };
    let t: String = match utf8(bytes) {
        Some(t) => t,
        None => return Err(Errno::Inval),
    };
    match ctxs.find(ctx_id) {
        Some(c) => {
            match setting {
                PathSetting::Firmware => c.firmware_config = Some(t),
                PathSetting::TeeConfigFile => c.tee_config_file = Some(t),
                PathSetting::ControlSocket => c.control_socket_path = Some(t),
                PathSetting::Snapshot => c.snapshot_dir = Some(t),
                PathSetting::KernelConsole => c.kernel_console = Some(t),
            }
            Ok(0)
        },
        None => Err(Errno::NoEnt),
    }
}

/// Boot a firmware.
pub fn krun_set_firmware(ctxs: &mut Contexts, ctx_id: u32, firmware_path: &[u8]) -> (r: Result<
    i32,
    Errno,
>)
    ensures
        (final(ctxs)@, r) == path_set(
            old(ctxs)@,
            ctx_id,
            PathSetting::Firmware,
            Some(firmware_path@),
        ),
{
    set_path(ctxs, ctx_id, PathSetting::Firmware, Some(firmware_path))
}

/// The configuration of an encrypted guest.
pub fn krun_set_tee_config_file(ctxs: &mut Contexts, ctx_id: u32, filepath: &[u8]) -> (r: Result<
    i32,
    Errno,
>)
    ensures
        (final(ctxs)@, r) == path_set(
            old(ctxs)@,
            ctx_id,
            PathSetting::TeeConfigFile,
            Some(filepath@),
        ),
{
    set_path(ctxs, ctx_id, PathSetting::TeeConfigFile, Some(filepath))
}

/// Where the control socket is made.
pub fn krun_set_control_socket(
    ctxs: &mut Contexts,
    ctx_id: u32,
    socket_path: Option<&[u8]>,
) -> (r: Result<i32, Errno>)
    ensures
        (final(ctxs)@, r) == path_set(
            old(ctxs)@,
            ctx_id,
            PathSetting::ControlSocket,
            bytes_in(socket_path),
        ),
{
    set_path(ctxs, ctx_id, PathSetting::ControlSocket, socket_path)
}

/// Boot as a clone from a snapshot directory.
pub fn krun_set_snapshot(ctxs: &mut Contexts, ctx_id: u32, snapshot_dir: Option<&[u8]>) -> (r:
    Result<i32, Errno>)
    ensures
        (final(ctxs)@, r) == path_set(
            old(ctxs)@,
            ctx_id,
            PathSetting::Snapshot,
            bytes_in(snapshot_dir),
        ),
{
    set_path(ctxs, ctx_id, PathSetting::Snapshot, snapshot_dir)
}

/// The console that the kernel writes to.
pub fn krun_set_kernel_console(ctxs: &mut Contexts, ctx_id: u32, console_id: &[u8]) -> (r: Result<
    i32,
    Errno,
>)
    ensures
        (final(ctxs)@, r) == path_set(
            old(ctxs)@,
            ctx_id,
            PathSetting::KernelConsole,
            Some(console_id@),
        ),
{
    set_path(ctxs, ctx_id, PathSetting::KernelConsole, Some(console_id))
}

// ---------------------------------------------------------------------------
// Switches.
// ---------------------------------------------------------------------------

pub open spec fn nested_virt_set(c: Ctxs, id: u32, enabled: bool) -> Outcome {
    put(c, id, |s: Settings| Settings { nested_enabled: enabled, ..s })
}

pub fn krun_set_nested_virt(ctxs: &mut Contexts, ctx_id: u32, enabled: bool) -> (r: Result<
    i32,
    Errno,
>)
    ensures
        (final(ctxs)@, r) == nested_virt_set(old(ctxs)@, ctx_id, enabled),
{
    match ctxs.find(ctx_id) {
        Some(c) => {
            c.nested_enabled = enabled;
            Ok(0)
        },
        None => Err(Errno::NoEnt),
    }
}

/// Whether a module's parameter says that nesting is on.
pub open spec fn says_nested(contents: Seq<char>) -> bool {
    let t = trimmed(contents);
    t == "1"@ || (t.len() == 1 && (t[0] as u32 == 0x59 || t[0] as u32 == 0x79))
}

fn reads_nested(contents: &str) -> (r: bool)
    ensures
        r == says_nested(contents@),
{
    let t = trim(contents);
    if same(t, "1") {
        return true;
    }
    t.unicode_len() == 1 && (t.get_char(0) as u32 == 0x59 || t.get_char(0) as u32 == 0x79)
}

/// Whether nested virtualization can be had. On macOS the hypervisor says so,
/// unless asking it failed; on Linux the parameters of the modules do, those
/// that could be read.
pub fn krun_check_nested_virt(host: &Host, hypervisor: Option<bool>, parameters: &[String]) -> (r:
    Result<i32, Errno>)
    ensures
        r == match host.os {
            Os::MacOs => match hypervisor {
                Some(yes) => Ok::<i32, Errno>(if yes { 1i32 } else { 0i32 }),
                None => Err(Errno::Inval),
            },
            Os::Linux => if exists|i: int|
                0 <= i < parameters@.len() && says_nested(#[trigger] parameters@[i]@) {
                Ok(1i32)
            } else {
                Ok(0i32)
            },
            Os::Windows => Err(Errno::OpNotSupp),
        },
{
    match host.os {
        Os::MacOs => match hypervisor {
            Some(yes) => Ok(if yes { 1 } else { 0 }),
            None => Err(Errno::Inval),
        },
        Os::Linux => {
            let mut i: usize = 0;
            while i < parameters.len()
                invariant
                    i <= parameters@.len(),
                    host.os == Os::Linux,
                    forall|k: int| 0 <= k < i ==> !says_nested(#[trigger] parameters@[k]@),
                decreases parameters@.len() - i,
            {
                if reads_nested(parameters[i].as_str()) {
                    return Ok(1);
                }
                i += 1;
            }
            Ok(0)
        },
        Os::Windows => Err(Errno::OpNotSupp),
    }
}

pub open spec fn split_irqchip_set(c: Ctxs, host: Host, id: u32, enable: bool) -> Outcome {
    if enable && host.arch != Arch::X86_64 {
        refused(c, Errno::Inval)
    } else {
        put(c, id, |s: Settings| Settings { split_irqchip: enable, ..s })
    }
}

pub fn krun_split_irqchip(ctxs: &mut Contexts, host: &Host, ctx_id: u32, enable: bool) -> (r:
    Result<i32, Errno>)
    ensures
        (final(ctxs)@, r) == split_irqchip_set(old(ctxs)@, *host, ctx_id, enable),
{
    if enable && host.arch != Arch::X86_64 {
        return Err(Errno::Inval);
    }
    match ctxs.find(ctx_id) {
        Some(c) => {
            c.split_irqchip = enable;
            Ok(0)
        },
        None => Err(Errno::NoEnt),
    }
}

pub open spec fn smbios_oem_strings_set(
    c: Ctxs,
    id: u32,
    oem_strings: Option<Seq<Vec<u8>>>,
) -> Outcome {
    match oem_strings {
        None => refused(c, Errno::Inval),
        Some(array) => match utf8_texts(array_of(array)) {
            None => refused(c, Errno::Inval),
            Some(texts) => put(
                c,
                id,
                |s: Settings|
                    Settings {
                        smbios_oem_strings: if texts.len() == 0 {
                            None
                        } else {
                            Some(texts)
                        },
                        ..s
                    },
            ),
        },
    }
}

/// Set the strings that the firmware tables show; an empty array takes them
/// away.
pub fn krun_set_smbios_oem_strings(
    ctxs: &mut Contexts,
    ctx_id: u32,
    oem_strings: Option<&[Vec<u8>]>,
) -> (r: Result<i32, Errno>)
    ensures
        (final(ctxs)@, r) == smbios_oem_strings_set(old(ctxs)@, ctx_id, slice_in(oem_strings)),
{
    let array = match oem_strings {
        Some(array) => array,
        None => return Err(Errno::Inval),
    };
    let texts: Vec<String> = match array_texts(array) {
        Some(v) => v,
        None => return Err(Errno::Inval),
    };
    match ctxs.find(ctx_id) {
        Some(c) => {
            c.smbios_oem_strings = if texts.len() == 0 {
                None
            } else {
                Some(texts)
            };
            Ok(0)
        },
        None => Err(Errno::NoEnt),
    }
}

/// A user or group to become.
pub open spec fn uid_set(c: Ctxs, id: u32, uid: u32) -> Outcome {
    put(c, id, |s: Settings| Settings { vmm_uid: Some(uid), ..s })
}

pub fn krun_setuid(ctxs: &mut Contexts, ctx_id: u32, uid: u32) -> (r: Result<i32, Errno>)
    ensures
        (final(ctxs)@, r) == uid_set(old(ctxs)@, ctx_id, uid),
{
    match ctxs.find(ctx_id) {
        Some(c) => {
            c.vmm_uid = Some(uid);
            Ok(0)
        },
        None => Err(Errno::NoEnt),
    }
}

pub open spec fn gid_set(c: Ctxs, id: u32, gid: u32) -> Outcome {
    put(c, id, |s: Settings| Settings { vmm_gid: Some(gid), ..s })
}

pub fn krun_setgid(ctxs: &mut Contexts, ctx_id: u32, gid: u32) -> (r: Result<i32, Errno>)
    ensures
        (final(ctxs)@, r) == gid_set(old(ctxs)@, ctx_id, gid),
{
    match ctxs.find(ctx_id) {
        Some(c) => {
            c.vmm_gid = Some(gid);
            Ok(0)
        },
        None => Err(Errno::NoEnt),
    }
}

/// The descriptor that shuts the guest down.
pub fn krun_get_shutdown_eventfd(ctxs: &Contexts, host: &Host, ctx_id: u32) -> (r: Result<
    i64,
    Errno,
>)
    ensures
        r == if !ctxs@.settings.contains_key(ctx_id) {
            Err::<i64, Errno>(Errno::NoEnt)
        } else {
            match ctxs@.settings[ctx_id].shutdown_efd {
                None => Err(Errno::Inval),
                Some(fd) => if host.os == Os::Windows {
                    Err(Errno::NotSup)
                } else {
                    Ok(fd)
                },
            }
        },
{
    match ctxs.get(ctx_id) {
        None => Err(Errno::NoEnt),
        Some(c) => match c.shutdown_efd {
            None => Err(Errno::Inval),
            Some(fd) => if host.os == Os::Windows {
                Err(Errno::NotSup)
            } else {
                Ok(fd)
            },
        },
    }
}

/// The largest number of processors, where the hypervisor gave one.
pub fn krun_get_max_vcpus(count: Option<u32>) -> (r: Result<i32, Errno>)
    ensures
        match count {
            Some(n) => r == Ok::<i32, Errno>(n as i32),
            None => r == Err::<i32, Errno>(Errno::Inval),
        },
{
    match count {
        Some(n) => Ok(
            #[verifier::truncate]
            (n as i32),
        ),
        None => Err(Errno::Inval),
    }
}

/// Whether the build has the feature with the number.
pub open spec fn feature_of(host: Host, feature: u64) -> Option<bool> {
    let f = host.features;
    match feature {
        0 => Some(f.net),
        1 => Some(f.blk),
        2 => Some(f.gpu),
        4 => Some(f.input),
        6 => Some(f.tee),
        7 => Some(f.amd_sev),
        8 => Some(f.tdx),
        9 => Some(f.aws_nitro),
        10 => Some(f.virgl_resource_map2),
        11 => Some(f.init_blob),
        _ => None,
    }
}

/// Whether the build has the feature with the number.
pub fn krun_has_feature(host: &Host, feature: u64) -> (r: Result<i32, Errno>)
    ensures
        match feature_of(*host, feature) {
            Some(yes) => r == Ok::<i32, Errno>(if yes { 1i32 } else { 0i32 }),
            None => r == Err::<i32, Errno>(Errno::Inval),
        },
{
    let f = host.features;
    let supported: bool = match feature {
        0 => f.net,
        1 => f.blk,
        2 => f.gpu,
        4 => f.input,
        6 => f.tee,
        7 => f.amd_sev,
        8 => f.tdx,
        9 => f.aws_nitro,
        10 => f.virgl_resource_map2,
        11 => f.init_blob,
        _ => return Err(Errno::Inval),
    };
    Ok(if supported { 1 } else { 0 })
}

} // verus!
