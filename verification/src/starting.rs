//! What a guest is started with: what its settings make of the kernel's command
//! line, which steps its start takes, and what is told of it from outside.

use vstd::prelude::*;
use vstd::utf8::{decode_utf8, valid_utf8};

use crate::config::{
    Arch, BlockRoot, CpuFeaturesTemplate, Edid, EdidParams, Host, KernelBundle, Os, Settings,
    VmConfig, VsockConfig,
};
use crate::contexts::{array_of, freed, utf8_texts, Ctxs};
use crate::errno::Errno;
use crate::guest::{collapsed, env_set, exec_set, quoted, rlimits_set, variables_of};
use crate::logging::{filter_of, last_error_of, style_of, target_of, LogTarget};
use crate::machine::{cpu_template_set, feature_of, kernel_mapped, says_nested};
use crate::peripherals::{with_edid, with_params};
use crate::settings::{took, turned_down};
use crate::start::{
    block_steps, krun_env_of, machine_steps, payload_steps, process_name_of, setting_steps,
    steps_of, tee_steps, triples_of, vsock_of, StartStep,
};
use crate::text::joined;
use crate::texts::{holds, joining_goes_in_order};

verus! {

// ---------------------------------------------------------------------------
// What is run.
// ---------------------------------------------------------------------------

/// A list of arguments is told with each in quotes, blanks between them, in
/// their order.
pub proof fn arguments_are_quoted(first: Seq<char>, rest: Seq<Seq<char>>)
    ensures
        collapsed(Seq::empty()).len() == 0,
        collapsed(seq![first]) == "\""@ + first + "\""@,
        rest.len() > 0 ==> collapsed(seq![first] + rest) == "\""@ + first + "\""@ + " "@
            + collapsed(rest),
{
    let q = |s: Seq<char>| quoted(s);
    let all = seq![first] + rest;
    joining_goes_in_order(quoted(first), rest.map_values(q), " "@);
    assert(seq![first].map_values(q) =~= seq![quoted(first)]);
    assert(all.map_values(q) =~= seq![quoted(first)] + rest.map_values(q));
    assert(Seq::<Seq<char>>::empty().map_values(q) =~= Seq::empty());
    assert(quoted(first) + " "@ + collapsed(rest) =~= "\""@ + first + "\""@ + " "@ + collapsed(rest));
}

/// The host's own variables are told one after the other, each as its name, an
/// equals sign and its value in quotes, after a blank.
pub proof fn variables_are_told(vars: Seq<(String, String)>, next: (String, String))
    ensures
        variables_of(Seq::empty()).len() == 0,
        variables_of(vars.push(next)) == variables_of(vars) + " "@ + next.0@ + "="@ + "\""@
            + next.1@ + "\""@,
{
    assert(vars.push(next).drop_last() =~= vars);
    assert(variables_of(vars.push(next)) =~= variables_of(vars) + " "@ + next.0@ + "="@ + "\""@
        + next.1@ + "\""@);
}

/// A program is kept with its path, its arguments and its environment: the one
/// that was given, or that of the host. Limits are kept in one pair of quotes.
pub proof fn a_program_is_kept(
    c: Ctxs,
    id: u32,
    path: Seq<u8>,
    argv: Seq<Vec<u8>>,
    envp: Seq<Vec<u8>>,
    vars: Seq<(String, String)>,
)
    requires
        c.settings.contains_key(id),
        valid_utf8(path),
        utf8_texts(array_of(argv)) is Some,
        utf8_texts(array_of(envp)) is Some,
    ensures
        ({
            let s = c.settings[id];
            let args = utf8_texts(array_of(argv))->0;
            let env = utf8_texts(array_of(envp))->0;
            let t = decode_utf8(path);
            &&& took(
                exec_set(c, id, path, Some(argv), Some(envp), vars),
                c,
                id,
                Settings {
                    exec_path: Some(t),
                    args: Some(collapsed(args)),
                    env: Some(collapsed(env)),
                    ..s
                },
            )
            &&& took(
                exec_set(c, id, path, None, None, vars),
                c,
                id,
                Settings {
                    exec_path: Some(t),
                    args: Some(Seq::empty()),
                    env: Some(variables_of(vars)),
                    ..s
                },
            )
            &&& took(
                env_set(c, id, Some(envp), vars),
                c,
                id,
                Settings { env: Some(collapsed(env)), ..s },
            )
            &&& took(
                env_set(c, id, None, vars),
                c,
                id,
                Settings { env: Some(variables_of(vars)), ..s },
            )
            &&& took(
                rlimits_set(c, id, Some(argv)),
                c,
                id,
                Settings { rlimits: Some("\""@ + joined(args, ","@) + "\""@), ..s },
            )
            &&& turned_down(rlimits_set(c, id, None), c, Errno::Inval)
        }),
{
}

/// The strings of an array are its first 4096, each as the text that it is.
pub proof fn arrays_are_read_in_order(items: Seq<Vec<u8>>, i: int)
    requires
        0 <= i < items.len(),
        i < 4096,
    ensures
        array_of(items).len() == (if items.len() < 4096 {
            items.len()
        } else {
            4096
        }),
        array_of(items)[i] == items[i]@,
        !valid_utf8(items[i]@) ==> utf8_texts(array_of(items)) is None,
        utf8_texts(array_of(items)) matches Some(t) ==> t.len() == array_of(items).len() && t[i]
            == decode_utf8(items[i]@),
{
    let a = array_of(items);
    assert(a[i] == items[i]@);
}

/// What the guest's init is told, setting by setting, in this order.
pub proof fn the_init_is_told_its_settings(
    s: Settings,
    path: Seq<char>,
    dir: Seq<char>,
    device: Seq<char>,
    limits: Seq<char>,
    env: Seq<char>,
)
    requires
        s.exec_path == Some(path),
        s.workdir == Some(dir),
        s.block_root == Some(BlockRoot { device, fstype: None, options: None }),
        s.rlimits == Some(limits),
        s.env == Some(env),
    ensures
        krun_env_of(s) == " "@ + "KRUN_INIT="@ + path + " "@ + "KRUN_WORKDIR="@ + dir + " "@
            + "KRUN_BLOCK_ROOT_DEVICE="@ + device + " "@ + "KRUN_RLIMITS="@ + limits + " "@ + env,
{
    assert(krun_env_of(s) =~= " "@ + "KRUN_INIT="@ + path + " "@ + "KRUN_WORKDIR="@ + dir + " "@
        + "KRUN_BLOCK_ROOT_DEVICE="@ + device + " "@ + "KRUN_RLIMITS="@ + limits + " "@ + env);
}

/// What was not set is not told.
pub proof fn the_init_is_told_nothing_else(s: Settings)
    requires
        s.exec_path is None,
        s.workdir is None,
        s.block_root is None,
        s.rlimits is None,
        s.env is None,
    ensures
        krun_env_of(s) == "     "@,
{
    reveal_strlit(" ");
    reveal_strlit("     ");
    assert(krun_env_of(s) =~= "     "@);
}

// ---------------------------------------------------------------------------
// The start.
// ---------------------------------------------------------------------------

/// Which steps a start takes: every one that a setting asks for, and none that
/// none does. The machine is built and then run, and running comes last.
#[verifier::rlimit(50)]
pub proof fn a_start_takes_the_steps_asked_for(host: Host, s: Settings, i: int)
    requires
        s.external_kernel is Some,
        !host.features.tee,
        0 <= i < s.block_cfgs.len(),
        s.block_cfgs.len() <= usize::MAX,
    ensures
        ({
            let t = steps_of(host, s);
            &&& t.last() == StartStep::Run
            &&& t.contains(StartStep::Build)
            &&& t.contains(StartStep::SetKernelCmdline)
            &&& t.contains(StartStep::PublishRam)
            &&& host.features.blk ==> t[i] == StartStep::AddBlock(i as usize)
            &&& s.vsock_config != VsockConfig::Disabled ==> t.contains(StartStep::SetVsock)
            &&& s.gpu_virgl_flags matches Some(f) ==> t.contains(StartStep::SetVirglFlags(f))
            &&& s.gpu_shm_size matches Some(n) ==> t.contains(StartStep::SetGpuShm(n))
            &&& host.os != Os::Windows ==> (s.vmm_gid matches Some(g) ==> t.contains(
                StartStep::SetGid(g),
            ))
            &&& host.os != Os::Windows ==> (s.vmm_uid matches Some(u) ==> t.contains(
                StartStep::SetUid(u),
            ))
            &&& host.features.fork && s.snapshot_dir is Some ==> t.contains(StartStep::Restore)
            &&& s.control_socket_path is Some ==> t.contains(StartStep::StartControl)
        }),
{
    let t = steps_of(host, s);
    let b = block_steps(host, s);
    let g = setting_steps(host, s);
    let m = machine_steps(host, s);
    assert(payload_steps(s).len() == 0 && tee_steps(host, s).len() == 0);
    assert(t =~= b + g + m);
    lemma_setting_steps(host, s);
    lemma_machine_steps(host, s);
    assert(t.last() == m.last());
    assert forall|x: StartStep| g.contains(x) || m.contains(x) implies #[trigger] t.contains(x) by {
        if g.contains(x) {
            let k = choose|k: int| 0 <= k < g.len() && g[k] == x;
            assert(t[b.len() + k] == x);
        } else {
            let k = choose|k: int| 0 <= k < m.len() && m[k] == x;
            assert(t[b.len() + g.len() + k] == x);
        }
    }
}

#[verifier::rlimit(50)]
proof fn lemma_setting_steps(host: Host, s: Settings)
    ensures
        ({
            let g = setting_steps(host, s);
            &&& g.contains(StartStep::SetKernelCmdline)
            &&& s.vsock_config != VsockConfig::Disabled ==> g.contains(StartStep::SetVsock)
            &&& s.gpu_virgl_flags matches Some(f) ==> g.contains(StartStep::SetVirglFlags(f))
            &&& s.gpu_shm_size matches Some(n) ==> g.contains(StartStep::SetGpuShm(n))
            &&& host.os != Os::Windows ==> (s.vmm_gid matches Some(x) ==> g.contains(
                StartStep::SetGid(x),
            ))
            &&& host.os != Os::Windows ==> (s.vmm_uid matches Some(x) ==> g.contains(
                StartStep::SetUid(x),
            ))
        }),
{
    reveal(crate::start::step_if);
    reveal(setting_steps);
    let g = setting_steps(host, s);
    let one = |on: bool|
        if on {
            1int
        } else {
            0
        };
    let k1 = one(s.vsock_config != VsockConfig::Disabled);
    let k2 = one(s.gpu_virgl_flags is Some);
    let k3 = one(s.gpu_shm_size is Some);
    let k4 = one(s.vmm_gid is Some && host.os != Os::Windows);
    assert(g[0] == StartStep::SetKernelCmdline);
    if k1 == 1 {
        assert(g[1] == StartStep::SetVsock);
    }
    if let Some(f) = s.gpu_virgl_flags {
        assert(g[1 + k1] == StartStep::SetVirglFlags(f));
    }
    if let Some(n) = s.gpu_shm_size {
        assert(g[1 + k1 + k2] == StartStep::SetGpuShm(n));
    }
    if host.os != Os::Windows {
        if let Some(x) = s.vmm_gid {
            assert(g[1 + k1 + k2 + k3] == StartStep::SetGid(x));
        }
        if let Some(x) = s.vmm_uid {
            assert(g[1 + k1 + k2 + k3 + k4] == StartStep::SetUid(x));
        }
    }
}

proof fn lemma_machine_steps(host: Host, s: Settings)
    ensures
        ({
            let m = machine_steps(host, s);
            &&& m.last() == StartStep::Run
            &&& m.len() > 0
            &&& m.contains(StartStep::Build)
            &&& m.contains(StartStep::PublishRam)
            &&& host.features.fork && s.snapshot_dir is Some ==> m.contains(StartStep::Restore)
            &&& s.control_socket_path is Some ==> m.contains(StartStep::StartControl)
        }),
{
    reveal(crate::start::step_if);
    reveal(machine_steps);
    let m = machine_steps(host, s);
    let r: int = if host.features.fork && s.snapshot_dir is Some {
        1
    } else {
        0
    };
    assert(r == 1 ==> m[0] == StartStep::Restore);
    assert(m[r] == StartStep::Build && m[r + 1] == StartStep::PublishRam);
    if s.control_socket_path is Some {
        assert(m[r + 2] == StartStep::StartControl);
    }
}

/// A guest without a kernel of its own starts with the bundled one, and not at
/// all where there is none; a confidential one needs its configuration.
pub proof fn a_start_needs_a_kernel(host: Host, s: Settings)
    requires
        s.block_cfgs.len() == 0,
    ensures
        ({
            let t = steps_of(host, s);
            let own = s.external_kernel is Some || s.kernel_bundle is Some || s.firmware_config is Some;
            &&& !own && s.krunfw ==> t[0] == StartStep::LoadPayload
            &&& !own && !s.krunfw ==> t[0] == StartStep::Fail(Errno::NoEnt)
            &&& own && host.features.tee && s.tee_config_file is None ==> t[0] == StartStep::Fail(
                Errno::Inval,
            )
            &&& own && host.features.tee && s.tee_config_file is Some ==> t[0]
                == StartStep::SetTeeConfig
            &&& own && !host.features.tee ==> t[0] == StartStep::SetKernelCmdline
        }),
{
    reveal(crate::start::step_if);
    reveal(setting_steps);
    reveal(machine_steps);
}

/// The socket device has the guest's ports and rules, and is the third host.
pub proof fn the_socket_device_has_the_settings(s: Settings)
    ensures
        s.vsock_config == VsockConfig::Disabled ==> vsock_of(s) is None,
        s.vsock_config matches VsockConfig::Explicit { tsi_flags } ==> (vsock_of(s) matches Some(d)
            && d.guest_cid == 3 && d.tsi_flags == tsi_flags && d.host_port_map == s.tsi_port_map
            && d.unix_ipc_port_map == s.unix_ipc_port_map && d.egress_cidrs == s.egress_cidrs
            && d.egress_hosts == s.egress_hosts && d.egress_resolvers == s.egress_resolvers),
{
}

/// The process is named after the guest's host name.
pub proof fn the_process_is_named_after_the_guest(h: Seq<char>)
    ensures
        process_name_of(Some(h)) == "VM:"@ + h,
        process_name_of(None) == "libkrun VM"@,
{
}

/// The regions of a guest's memory are told three numbers at a time.
pub proof fn regions_are_told_in_threes(r: Seq<(u64, u64, u64)>, n: int, i: int)
    requires
        0 <= i < n <= r.len(),
    ensures
        triples_of(r, n).len() == 3 * n,
        triples_of(r, n)[3 * i] == r[i].0,
        triples_of(r, n)[3 * i + 1] == r[i].1,
        triples_of(r, n)[3 * i + 2] == r[i].2,
    decreases n,
{
    lemma_triples_len(r, n - 1);
    if i < n - 1 {
        regions_are_told_in_threes(r, n - 1, i);
    }
}

proof fn lemma_triples_len(r: Seq<(u64, u64, u64)>, n: int)
    requires
        0 <= n <= r.len(),
    ensures
        triples_of(r, n).len() == 3 * n,
    decreases n,
{
    if n > 0 {
        lemma_triples_len(r, n - 1);
    }
}

// ---------------------------------------------------------------------------
// The machine.
// ---------------------------------------------------------------------------

/// The bundled kernel is kept with where it lies and how long it is; it is
/// loaded, and entered, at 2 GiB.
pub proof fn the_bundled_kernel_is_kept(c: Ctxs, id: u32, host_addr: u64, size: usize)
    requires
        c.settings.contains_key(id),
    ensures
        took(
            kernel_mapped(c, id, Some((host_addr, size))),
            c,
            id,
            Settings {
                kernel_bundle: Some(
                    KernelBundle {
                        host_addr,
                        guest_addr: 0x8000_0000,
                        entry_addr: 0x8000_0000,
                        size,
                    },
                ),
                ..c.settings[id]
            },
        ),
        turned_down(kernel_mapped(c, id, None), c, Errno::Inval),
{
}

/// There is one processor template, for Intel processors on Linux.
pub proof fn the_template_is_for_one_vendor(
    c: Ctxs,
    host: Host,
    id: u32,
    template: u32,
    vendor: Seq<u8>,
)
    requires
        c.settings.contains_key(id),
    ensures
        ({
            let s = c.settings[id];
            let r = cpu_template_set(c, host, id, template, vendor, true);
            let right = host.os == Os::Linux && host.arch == Arch::X86_64;
            // GenuineIntel.
            let intel = vendor == seq![71u8, 101, 110, 117, 105, 110, 101, 73, 110, 116, 101, 108];
            &&& !right ==> turned_down(r, c, Errno::NotSup)
            &&& right && template != 1 ==> turned_down(r, c, Errno::Inval)
            &&& right && template == 1 && !intel ==> turned_down(r, c, Errno::NotSup)
            &&& right && template == 1 && intel ==> took(
                r,
                c,
                id,
                Settings {
                    vm_config: VmConfig {
                        cpu_template: Some(CpuFeaturesTemplate::PortableV1),
                        ..s.vm_config
                    },
                    ..s
                },
            )
        }),
{
}

/// Whether a parameter says that guests may be nested: a one, or a yes.
pub proof fn nesting_is_a_one_or_a_yes(text: Seq<char>)
    requires
        crate::texts::trim(text),
    ensures
        says_nested(text) <==> text.len() == 1 && (text[0] == '1' || text[0] as u32 == 0x59
            || text[0] as u32 == 0x79),
{
    crate::texts::lemma_trim(text);
    reveal_strlit("1");
    if text.len() == 1 && text[0] == '1' {
        assert(text =~= "1"@);
    }
}

/// Features of the build, by number.
pub proof fn features_have_numbers(host: Host)
    ensures
        feature_of(host, 0) == Some(host.features.net),
        feature_of(host, 1) == Some(host.features.blk),
        feature_of(host, 2) == Some(host.features.gpu),
        feature_of(host, 4) == Some(host.features.input),
        feature_of(host, 6) == Some(host.features.tee),
        feature_of(host, 7) == Some(host.features.amd_sev),
        feature_of(host, 8) == Some(host.features.tdx),
        feature_of(host, 9) == Some(host.features.aws_nitro),
        feature_of(host, 10) == Some(host.features.virgl_resource_map2),
        feature_of(host, 11) == Some(host.features.init_blob),
        feature_of(host, 3) is None,
        feature_of(host, 5) is None,
        forall|n: u64| n > 11 ==> #[trigger] feature_of(host, n) is None,
{
}

/// Changing one thing that a display says of itself leaves the others, and the
/// other displays; one that was given whole cannot be changed.
pub proof fn a_display_is_described(
    s: Settings,
    d: u32,
    fixed: Errno,
    change: spec_fn(EdidParams) -> EdidParams,
    blob: Seq<u8>,
)
    requires
        d < s.displays.len(),
    ensures
        ({
            let before = s.displays[d as int];
            let r = with_params(s, d, fixed, change);
            let w = with_edid(s, d, Some(blob));
            &&& before.edid is Provided ==> r == Err::<(Settings, i32), Errno>(fixed)
            &&& before.edid matches Edid::Generated(p) ==> (r matches Ok((now, v)) && v == 0 && now
                == (Settings { displays: now.displays, ..s }) && now.displays.len()
                == s.displays.len() && now.displays[d as int].edid == Edid::Generated(change(p))
                && now.displays[d as int].width == before.width && now.displays[d as int].height
                == before.height && forall|i: int|
                0 <= i < s.displays.len() && i != d ==> #[trigger] now.displays[i]
                    == s.displays[i])
            &&& w matches Ok((now, v)) && v == 0 && now == (Settings {
                displays: now.displays,
                ..s
            }) && now.displays[d as int].edid == Edid::Provided(blob) && now.displays[d as int].width
                == before.width && forall|i: int|
                0 <= i < s.displays.len() && i != d ==> #[trigger] now.displays[i] == s.displays[i]
            &&& with_edid(s, d, None) == Err::<(Settings, i32), Errno>(Errno::Inval)
        }),
        forall|n: u32| n >= s.displays.len() ==> #[trigger] with_params(s, n, fixed, change) == Err::<
            (Settings, i32),
            Errno,
        >(Errno::Inval),
{
}

// ---------------------------------------------------------------------------
// Logs.
// ---------------------------------------------------------------------------

/// Logging, by number: levels from nothing to everything, the target, which is
/// not the standard input, and when to use colors.
pub proof fn logging_goes_by_number(host: Host, fd: i32, level: u32)
    requires
        host.os != Os::Windows,
    ensures
        filter_of(0) == "off"@,
        filter_of(1) == "error"@,
        filter_of(2) == "warn"@,
        filter_of(3) == "info"@,
        filter_of(4) == "debug"@,
        level > 4 ==> filter_of(level) == "trace"@,
        fd == -1 ==> target_of(host, fd) == Some(LogTarget::Standard),
        target_of(host, 0) is None,
        target_of(host, 1) == Some(LogTarget::Stdout),
        target_of(host, 2) == Some(LogTarget::Stderr),
        fd > 2 ==> target_of(host, fd) == Some(LogTarget::Pipe(fd)),
        fd < -1 ==> target_of(host, fd) is None,
        style_of(0) == Some("auto"@),
        style_of(1) == Some("always"@),
        style_of(2) == Some("never"@),
        level > 2 ==> style_of(level) is None,
{
}

/// The last error is told as it is, unless it could not be told as a string
/// that ends with a zero.
pub proof fn the_last_error_is_told(message: Seq<char>)
    ensures
        !holds(message, 0) ==> last_error_of(message) == message,
        holds(message, 0) ==> last_error_of(message)
            == "libkrun error contained an interior NUL byte"@,
{
    crate::snapshot::lemma_find_code(message, 0, 0);
    if holds(message, 0) {
        let i = choose|i: int| 0 <= i < message.len() && #[trigger] message[i] as u32 == 0;
        crate::texts::lemma_first(message, 0, 0, i);
    }
}

/// A freed guest is gone, and no other.
pub proof fn freeing_takes_one_guest(c: Ctxs, id: u32, other: u32)
    ensures
        c.settings.contains_key(id) ==> ({
            let (after, r) = freed(c, id);
            &&& r == Ok::<i32, Errno>(0)
            &&& !after.settings.contains_key(id)
            &&& other != id ==> after.settings.contains_key(other) == c.settings.contains_key(other)
                && after.settings[other] == c.settings[other]
            &&& after.next == c.next
        }),
        !c.settings.contains_key(id) ==> turned_down(freed(c, id), c, Errno::NoEnt),
{
}

} // verus!
