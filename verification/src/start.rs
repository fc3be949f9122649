//! Starting a guest: the steps from a configuration to a running microVM, and
//! what each of them answers when it fails.

use std::collections::HashMap;

use vstd::prelude::*;
use vstd::string::StringExecFns;

use crate::config::{
    texts_in, Arch, ContextConfig, Host, IpAddr, Os, Settings, VsockConfig,
};
use crate::contexts::{freed, refused, Contexts, Ctxs};
use crate::errno::{failures_are_negative, Errno, Numbers};
use crate::guest::{block_root_text, labelled};
use crate::logging::{last_error_of, LastError};
use crate::text::{join2, join3};

verus! {

broadcast use vstd::std_specs::hash::group_hash_axioms;

// ---------------------------------------------------------------------------
// What the guest is told.
// ---------------------------------------------------------------------------

/// The three parts of the kernel's command line.
#[derive(Debug)]
pub struct KernelCmdlineConfig {
    pub prolog: String,
    pub krun_env: String,
    pub epilog: String,
}

/// The path of the init in the guest.
pub open spec fn init_path() -> Seq<char> {
    "/init.krun"@
}

/// The settings that the init reads, each after a blank.
pub open spec fn krun_env_of(s: Settings) -> Seq<char> {
    " "@ + labelled("KRUN_INIT="@, s.exec_path) + " "@ + labelled("KRUN_WORKDIR="@, s.workdir)
        + " "@ + block_root_text(s.block_root) + " "@ + labelled("KRUN_RLIMITS="@, s.rlimits) + " "@
        + labelled(Seq::empty(), s.env)
}

/// The command line: what every guest gets and the init's path; the settings
/// that the init reads; and the program's arguments.
pub fn kernel_cmdline(c: &ContextConfig, default: &str) -> (r: KernelCmdlineConfig)
    ensures
        r.prolog@ == default@ + " init="@ + init_path(),
        r.krun_env@ == krun_env_of(c@),
        r.epilog@ == " -- "@ + labelled(Seq::empty(), c@.args),
{
    let prolog = join3(default, " init=", "/init.krun");
    let mut krun_env = join2(" ", c.get_exec_path().as_str());
    krun_env.append(" ");
    krun_env.append(c.get_workdir().as_str());
    krun_env.append(" ");
    krun_env.append(c.get_block_root().as_str());
    krun_env.append(" ");
    krun_env.append(c.get_rlimits().as_str());
    krun_env.append(" ");
    krun_env.append(c.get_env().as_str());
    let epilog = join2(" -- ", c.get_args().as_str());
    KernelCmdlineConfig { prolog, krun_env, epilog }
}

/// The name that the process takes, where the environment names a host.
pub open spec fn process_name_of(hostname: Option<Seq<char>>) -> Seq<char> {
    match hostname {
        Some(h) => "VM:"@ + h,
        None => "libkrun VM"@,
    }
}

/// The name that the process takes.
pub fn process_name(hostname: Option<&str>) -> (r: String)
    ensures
        r@ == process_name_of(
            match hostname {
                Some(h) => Some(h@),
                None => None,
            },
        ),
{
    match hostname {
        Some(h) => join2("VM:", h),
        None => String::from_str("libkrun VM"),
    }
}

// ---------------------------------------------------------------------------
// The socket device.
// ---------------------------------------------------------------------------

/// The guest's number on the socket device.
pub const GUEST_CID: u32 = 3;

#[derive(Debug)]
pub struct VsockDeviceConfig {
    pub vsock_id: String,
    pub guest_cid: u32,
    pub host_port_map: Option<HashMap<u16, u16>>,
    pub unix_ipc_port_map: Option<HashMap<u32, (String, bool)>>,
    pub tsi_flags: u32,
    pub egress_cidrs: Option<Vec<(IpAddr, u8)>>,
    pub egress_hosts: Option<Vec<String>>,
    pub egress_resolvers: Option<Vec<IpAddr>>,
}

/// The socket device, as a value.
pub struct VsockDevice {
    pub vsock_id: Seq<char>,
    pub guest_cid: u32,
    pub host_port_map: Option<Map<u16, u16>>,
    pub unix_ipc_port_map: Option<Map<u32, (Seq<char>, bool)>>,
    pub tsi_flags: u32,
    pub egress_cidrs: Option<Seq<(IpAddr, u8)>>,
    pub egress_hosts: Option<Seq<Seq<char>>>,
    pub egress_resolvers: Option<Seq<IpAddr>>,
}

impl View for VsockDeviceConfig {
    type V = VsockDevice;

    open spec fn view(&self) -> VsockDevice {
        VsockDevice {
            vsock_id: self.vsock_id@,
            guest_cid: self.guest_cid,
            host_port_map: match self.host_port_map {
                Some(m) => Some(m@),
                None => None,
            },
            unix_ipc_port_map: match self.unix_ipc_port_map {
                Some(m) => Some(m@.map_values(|v: (String, bool)| (v.0@, v.1))),
                None => None,
            },
            tsi_flags: self.tsi_flags,
            egress_cidrs: match self.egress_cidrs {
                Some(v) => Some(v@),
                None => None,
            },
            egress_hosts: match self.egress_hosts {
                Some(v) => Some(texts_in(v@)),
                None => None,
            },
            egress_resolvers: match self.egress_resolvers {
                Some(v) => Some(v@),
                None => None,
            },
        }
    }
}

/// The socket device of a configuration that has one.
pub open spec fn vsock_of(s: Settings) -> Option<VsockDevice> {
    match s.vsock_config {
        VsockConfig::Disabled => None,
        VsockConfig::Explicit { tsi_flags } => Some(
            VsockDevice {
                vsock_id: "vsock0"@,
                guest_cid: GUEST_CID,
                host_port_map: s.tsi_port_map,
                unix_ipc_port_map: s.unix_ipc_port_map,
                tsi_flags,
                egress_cidrs: s.egress_cidrs,
                egress_hosts: s.egress_hosts,
                egress_resolvers: s.egress_resolvers,
            },
        ),
    }
}

/// Take the socket device, its ports and its policy out of the configuration.
pub fn vsock_device(c: &mut ContextConfig) -> (r: Option<VsockDeviceConfig>)
    ensures
        match vsock_of(old(c)@) {
            Some(d) => r is Some && r->0@ == d,
            None => r is None,
        },
        final(c)@ == (Settings {
            egress_cidrs: None,
            egress_hosts: None,
            egress_resolvers: None,
            tsi_port_map: None,
            unix_ipc_port_map: None,
            ..old(c)@
        }),
{
    let egress_cidrs = c.egress_cidrs.take();
    let egress_hosts = c.egress_hosts.take();
    let egress_resolvers = c.egress_resolvers.take();
    let host_port_map = c.tsi_port_map.take();
    let unix_ipc_port_map = c.unix_ipc_port_map.take();
    match c.vsock_config {
        VsockConfig::Disabled => None,
        VsockConfig::Explicit { tsi_flags } => Some(
            VsockDeviceConfig {
                vsock_id: String::from_str("vsock0"),
                guest_cid: GUEST_CID,
                host_port_map,
                unix_ipc_port_map,
                tsi_flags,
                egress_cidrs,
                egress_hosts,
                egress_resolvers,
            },
        ),
    }
}

// ---------------------------------------------------------------------------
// The steps.
// ---------------------------------------------------------------------------

/// A step of starting a guest.
#[derive(Debug, Clone, Copy, PartialEq, Eq, Structural)]
pub enum StartStep {
    /// Load the bundled kernel.
    LoadPayload,
    /// Give up.
    Fail(Errno),
    /// Add the disk with the number.
    AddBlock(usize),
    SetTeeConfig,
    SetKernelCmdline,
    SetVsock,
    SetVirglFlags(u32),
    SetGpuShm(usize),
    SetGid(u32),
    SetUid(u32),
    /// Take the state of the guest from the snapshot directory.
    Restore,
    Build,
    PublishRam,
    StartControl,
    StartWorker,
    /// Serve events, for as long as that works.
    Run,
}

/// One step, where the condition holds.
#[verifier::opaque]
pub open spec fn step_if(condition: bool, step: StartStep) -> Seq<StartStep> {
    if condition {
        seq![step]
    } else {
        Seq::empty()
    }
}

/// The kernel: what was configured, or else the bundled one.
pub open spec fn payload_steps(s: Settings) -> Seq<StartStep> {
    if s.external_kernel is None && s.kernel_bundle is None && s.firmware_config is None {
        seq![
            if s.krunfw {
                StartStep::LoadPayload
            } else {
                StartStep::Fail(Errno::NoEnt)
            },
        ]
    } else {
        Seq::empty()
    }
}

/// The disks, in order.
pub open spec fn block_steps(host: Host, s: Settings) -> Seq<StartStep> {
    if host.features.blk {
        Seq::new(s.block_cfgs.len(), |i: int| StartStep::AddBlock(i as usize))
    } else {
        Seq::empty()
    }
}

/// An encrypted guest needs its configuration.
pub open spec fn tee_steps(host: Host, s: Settings) -> Seq<StartStep> {
    if host.features.tee {
        seq![
            if s.tee_config_file is Some {
                StartStep::SetTeeConfig
            } else {
                StartStep::Fail(Errno::Inval)
            },
        ]
    } else {
        Seq::empty()
    }
}

/// The settings that are passed on as they are, and the privileges that are
/// dropped: the group first, as the user may not change it any more.
#[verifier::opaque]
pub open spec fn setting_steps(host: Host, s: Settings) -> Seq<StartStep> {
    seq![StartStep::SetKernelCmdline] + step_if(
        s.vsock_config != VsockConfig::Disabled,
        StartStep::SetVsock,
    ) + step_if(s.gpu_virgl_flags is Some, StartStep::SetVirglFlags(s.gpu_virgl_flags->0))
        + step_if(s.gpu_shm_size is Some, StartStep::SetGpuShm(s.gpu_shm_size->0)) + step_if(
        s.vmm_gid is Some && host.os != Os::Windows,
        StartStep::SetGid(s.vmm_gid->0),
    ) + step_if(
        s.vmm_uid is Some && host.os != Os::Windows,
        StartStep::SetUid(s.vmm_uid->0),
    )
}

/// The machine, its control socket, and the workers that it needs.
#[verifier::opaque]
pub open spec fn machine_steps(host: Host, s: Settings) -> Seq<StartStep> {
    step_if(host.features.fork && s.snapshot_dir is Some, StartStep::Restore) + seq![
        StartStep::Build,
        StartStep::PublishRam,
    ] + step_if(s.control_socket_path is Some, StartStep::StartControl) + step_if(
        host.os == Os::MacOs && s.gpu_virgl_flags is Some,
        StartStep::StartWorker,
    ) + step_if(host.arch == Arch::X86_64 && s.split_irqchip, StartStep::StartWorker) + step_if(
        host.os == Os::Windows && !s.split_irqchip,
        StartStep::StartWorker,
    ) + step_if(host.features.amd_sev || host.features.tdx, StartStep::StartWorker) + seq![
        StartStep::Run,
    ]
}

/// All the steps, in order. The first that fails is the last.
pub open spec fn steps_of(host: Host, s: Settings) -> Seq<StartStep> {
    payload_steps(s) + block_steps(host, s) + tee_steps(host, s) + setting_steps(host, s)
        + machine_steps(host, s)
}

fn push_if(steps: &mut Vec<StartStep>, condition: bool, step: StartStep)
    ensures
        final(steps)@ == old(steps)@ + step_if(condition, step),
{
    proof {
        reveal(step_if);
    }
    if condition {
        steps.push(step);
    }
    assert(steps@ =~= old(steps)@ + step_if(condition, step));
}

proof fn lemma_assoc(a: Seq<StartStep>, b: Seq<StartStep>, c: Seq<StartStep>)
    ensures
        a + b + c == a + (b + c),
{
    assert(a + b + c =~= a + (b + c));
}

fn push_settings(steps: &mut Vec<StartStep>, host: &Host, c: &ContextConfig)
    ensures
        final(steps)@ == old(steps)@ + setting_steps(*host, c@),
{
    proof {
        reveal(setting_steps);
    }
    let ghost before = steps@;
    let ghost s = c@;
    steps.push(StartStep::SetKernelCmdline);
    let ghost a1 = seq![StartStep::SetKernelCmdline];
    assert(steps@ =~= before + a1);
    let vsock: bool = c.vsock_config != VsockConfig::Disabled;
    push_if(steps, vsock, StartStep::SetVsock);
    let ghost x2 = step_if(vsock, StartStep::SetVsock);
    if let Some(flags) = c.gpu_virgl_flags {
        push_if(steps, true, StartStep::SetVirglFlags(flags));
    }
    let ghost x3 = step_if(
        s.gpu_virgl_flags is Some,
        StartStep::SetVirglFlags(s.gpu_virgl_flags->0),
    );
    if let Some(size) = c.gpu_shm_size {
        push_if(steps, true, StartStep::SetGpuShm(size));
    }
    let ghost x4 = step_if(s.gpu_shm_size is Some, StartStep::SetGpuShm(s.gpu_shm_size->0));
    if let Some(gid) = c.vmm_gid {
        push_if(steps, host.os != Os::Windows, StartStep::SetGid(gid));
    }
    let ghost x5 = step_if(
        s.vmm_gid is Some && host.os != Os::Windows,
        StartStep::SetGid(s.vmm_gid->0),
    );
    if let Some(uid) = c.vmm_uid {
        push_if(steps, host.os != Os::Windows, StartStep::SetUid(uid));
    }
    let ghost x6 = step_if(
        s.vmm_uid is Some && host.os != Os::Windows,
        StartStep::SetUid(s.vmm_uid->0),
    );
    proof {
        lemma_no_step(before + a1 + x2, StartStep::SetVirglFlags(s.gpu_virgl_flags->0));
        lemma_no_step(before + a1 + x2 + x3, StartStep::SetGpuShm(s.gpu_shm_size->0));
        lemma_no_step(before + a1 + x2 + x3 + x4, StartStep::SetGid(s.vmm_gid->0));
        lemma_no_step(before + a1 + x2 + x3 + x4 + x5, StartStep::SetUid(s.vmm_uid->0));
        lemma_assoc(before, a1, x2);
        lemma_assoc(before, a1 + x2, x3);
        lemma_assoc(before, a1 + x2 + x3, x4);
        lemma_assoc(before, a1 + x2 + x3 + x4, x5);
        lemma_assoc(before, a1 + x2 + x3 + x4 + x5, x6);
    }
}

proof fn lemma_no_step(steps: Seq<StartStep>, step: StartStep)
    ensures
        steps + step_if(false, step) == steps,
{
    reveal(step_if);
    assert(steps + step_if(false, step) =~= steps);
}

fn push_machine(steps: &mut Vec<StartStep>, host: &Host, c: &ContextConfig)
    ensures
        final(steps)@ == old(steps)@ + machine_steps(*host, c@),
{
    proof {
        reveal(machine_steps);
    }
    let ghost before = steps@;
    let restore: bool = host.features.fork && c.snapshot_dir.is_some();
    push_if(steps, restore, StartStep::Restore);
    let ghost a1 = step_if(restore, StartStep::Restore);
    steps.push(StartStep::Build);
    steps.push(StartStep::PublishRam);
    let ghost a2 = a1 + seq![StartStep::Build, StartStep::PublishRam];
    assert(steps@ =~= before + a2);
    let control: bool = c.control_socket_path.is_some();
    push_if(steps, control, StartStep::StartControl);
    let ghost x3 = step_if(control, StartStep::StartControl);
    let graphics: bool = host.os == Os::MacOs && c.gpu_virgl_flags.is_some();
    push_if(steps, graphics, StartStep::StartWorker);
    let ghost x4 = step_if(graphics, StartStep::StartWorker);
    let irqchip: bool = host.arch == Arch::X86_64 && c.split_irqchip;
    push_if(steps, irqchip, StartStep::StartWorker);
    let ghost x5 = step_if(irqchip, StartStep::StartWorker);
    let windows: bool = host.os == Os::Windows && !c.split_irqchip;
    push_if(steps, windows, StartStep::StartWorker);
    let ghost x6 = step_if(windows, StartStep::StartWorker);
    let encrypted: bool = host.features.amd_sev || host.features.tdx;
    push_if(steps, encrypted, StartStep::StartWorker);
    let ghost x7 = step_if(encrypted, StartStep::StartWorker);
    push_if(steps, true, StartStep::Run);
    proof {
        assert(step_if(true, StartStep::Run) == seq![StartStep::Run]) by {
            reveal(step_if);
        }
        lemma_assoc(before, a2, x3);
        lemma_assoc(before, a2 + x3, x4);
        lemma_assoc(before, a2 + x3 + x4, x5);
        lemma_assoc(before, a2 + x3 + x4 + x5, x6);
        lemma_assoc(before, a2 + x3 + x4 + x5 + x6, x7);
        lemma_assoc(before, a2 + x3 + x4 + x5 + x6 + x7, seq![StartStep::Run]);
    }
}

/// The steps that start the guest.
pub fn start_steps(host: &Host, c: &ContextConfig) -> (r: Vec<StartStep>)
    ensures
        r@ == steps_of(*host, c@),
{
    let mut steps: Vec<StartStep> = Vec::new();
    let ghost s = c@;
    if c.external_kernel.is_none() && c.kernel_bundle.is_none() && c.firmware_config.is_none() {
        steps.push(
            if c.krunfw {
                StartStep::LoadPayload
            } else {
                StartStep::Fail(Errno::NoEnt)
            },
        );
    }
    assert(steps@ =~= payload_steps(s));
    if host.features.blk {
        let mut i: usize = 0;
        let ghost all = Seq::new(s.block_cfgs.len(), |i: int| StartStep::AddBlock(i as usize));
        assert(steps@ =~= payload_steps(s) + all.take(0));
        while i < c.block_cfgs.len()
            invariant
                i <= c.block_cfgs@.len(),
                s == c@,
                all == Seq::new(s.block_cfgs.len(), |i: int| StartStep::AddBlock(i as usize)),
                steps@ == payload_steps(s) + all.take(i as int),
            decreases c.block_cfgs@.len() - i,
        {
            steps.push(StartStep::AddBlock(i));
            assert(steps@ =~= payload_steps(s) + all.take(i + 1));
            i += 1;
        }
        assert(all.take(i as int) =~= all);
    }
    assert(steps@ =~= payload_steps(s) + block_steps(*host, s));
    if host.features.tee {
        steps.push(
            if c.tee_config_file.is_some() {
                StartStep::SetTeeConfig
            } else {
                StartStep::Fail(Errno::Inval)
            },
        );
    }
    assert(steps@ =~= payload_steps(s) + block_steps(*host, s) + tee_steps(*host, s));
    push_settings(&mut steps, host, c);
    push_machine(&mut steps, host, c);
    steps
}

/// A guest that can be started: its configuration, and the steps to take.
#[derive(Debug)]
pub struct Start {
    pub config: ContextConfig,
    pub steps: Vec<StartStep>,
}

/// Take the context out, to start it. `event_manager` is what came of making
/// the loop that serves events; without it the context stays. An earlier
/// failure is forgotten first.
pub fn krun_start_enter(
    ctxs: &mut Contexts,
    last: &mut LastError,
    host: &Host,
    ctx_id: u32,
    event_manager: Result<(), String>,
) -> (r: Result<Start, Errno>)
    ensures
        match event_manager {
            Err(e) => {
                &&& final(ctxs)@ == old(ctxs)@
                &&& r matches Err(errno) && errno == Errno::Inval
                &&& final(last)@ == Some(last_error_of("unable to create event manager: "@ + e@))
            },
            Ok(_) => {
                &&& final(ctxs)@ == freed(old(ctxs)@, ctx_id).0
                &&& final(last)@ is None
                &&& if old(ctxs)@.settings.contains_key(ctx_id) {
                    r matches Ok(start) && start.config@ == old(ctxs)@.settings[ctx_id]
                        && start.steps@ == steps_of(*host, old(ctxs)@.settings[ctx_id])
                } else {
                    r matches Err(errno) && errno == Errno::NoEnt
                }
            },
        },
{
    last.clear();
    match event_manager {
        Err(e) => {
            let text = join2("unable to create event manager: ", e.as_str());
            last.set(text.as_str());
            return Err(Errno::Inval);
        },
        Ok(_) => {},
    }
    match ctxs.take(ctx_id) {
        Some(config) => {
            let steps = start_steps(host, &config);
            Ok(Start { config, steps })
        },
        None => Err(Errno::NoEnt),
    }
}

impl StartStep {
    /// What the step answers when it fails. The operating system's own number
    /// is the answer where it refused a change of user or group.
    pub open spec fn errno_of(self, os_errno: i32) -> Errno {
        match self {
            StartStep::LoadPayload => Errno::NoEnt,
            StartStep::Fail(errno) => errno,
            StartStep::SetGid(_) | StartStep::SetUid(_) => Errno::Os(os_errno),
            _ => Errno::Inval,
        }
    }

    /// What the step's failure leaves as the description of the last error.
    pub open spec fn described(self, dir: Option<Seq<char>>, error: Seq<char>) -> Option<Seq<char>> {
        match self {
            StartStep::Restore => match dir {
                Some(d) => Some("restore checkpoint from "@ + d + ": "@ + error),
                None => None,
            },
            StartStep::Build => Some("build microVM: "@ + error),
            _ => None,
        }
    }

    /// What the step's failure answers. `dir` is the snapshot directory, and
    /// `error` what went wrong. A failure that is described is the last one.
    pub fn failure(&self, last: &mut LastError, dir: Option<&str>, error: &str, os_errno: i32) -> (r:
        Errno)
        ensures
            r == self.errno_of(os_errno),
            final(last)@ == match self.described(
                match dir {
                    Some(d) => Some(d@),
                    None => None,
                },
                error@,
            ) {
                Some(text) => Some(last_error_of(text)),
                None => old(last)@,
            },
    {
        match self {
            StartStep::Restore => match dir {
                Some(d) => {
                    let mut s = join3("restore checkpoint from ", d, ": ");
                    s.append(error);
                    last.set(s.as_str());
                },
                None => {},
            },
            StartStep::Build => {
                let s = join2("build microVM: ", error);
                last.set(s.as_str());
            },
            _ => {},
        }
        match self {
            StartStep::LoadPayload => Errno::NoEnt,
            StartStep::Fail(errno) => *errno,
            StartStep::SetGid(_) => Errno::Os(os_errno),
            StartStep::SetUid(_) => Errno::Os(os_errno),
            _ => Errno::Inval,
        }
    }
}

/// A start that returns has failed, and says so: the last step serves events
/// until that fails, and the answer to the failure of any step is negative.
pub proof fn a_start_ends_in_an_error(
    host: Host,
    s: Settings,
    k: int,
    os_errno: i32,
    numbers: Numbers,
)
    requires
        numbers.wf(),
        os_errno > 0,
        0 <= k < steps_of(host, s).len(),
    ensures
        steps_of(host, s).last() == StartStep::Run,
        -steps_of(host, s)[k].errno_of(os_errno).number(numbers) < 0,
{
    let a = payload_steps(s) + block_steps(host, s) + tee_steps(host, s);
    let b = setting_steps(host, s);
    let c = machine_steps(host, s);
    assert(steps_of(host, s) =~= a + b + c);
    assert forall|i: int| 0 <= i < a.len() implies (#[trigger] a[i] matches StartStep::Fail(e)
        ==> e !is Os) by {}
    lemma_setting_steps(host, s);
    lemma_machine_steps(host, s);
    failures_are_negative(steps_of(host, s)[k].errno_of(os_errno), numbers);
}

/// A start takes its context out whatever becomes of it: the number is then
/// unknown, to a second start as to anyone who would free it, and no other
/// context is touched.
pub proof fn a_started_context_is_gone(c: Ctxs, id: u32, other: u32)
    requires
        other != id,
    ensures
        ({
            let after = freed(c, id).0;
            &&& !after.settings.contains_key(id)
            &&& freed(after, id) == refused(after, Errno::NoEnt)
            &&& after.settings.contains_key(other) == c.settings.contains_key(other)
            &&& after.settings.contains_key(other) ==> after.settings[other] == c.settings[other]
        }),
{
}

/// Privileges are dropped before the machine is built, and the group before
/// the user.
pub proof fn privileges_go_before_the_machine(host: Host, s: Settings, i: int, j: int)
    requires
        0 <= i < steps_of(host, s).len(),
        0 <= j < steps_of(host, s).len(),
        steps_of(host, s)[j] == StartStep::Build,
    ensures
        steps_of(host, s)[i] is SetGid || steps_of(host, s)[i] is SetUid ==> i < j,
        forall|k: int|
            0 <= k < steps_of(host, s).len() && steps_of(host, s)[i] is SetGid
                && #[trigger] steps_of(host, s)[k] is SetUid ==> i < k,
{
    let a = payload_steps(s) + block_steps(host, s) + tee_steps(host, s);
    let b = setting_steps(host, s);
    let c = machine_steps(host, s);
    assert(steps_of(host, s) =~= a + b + c);
    assert forall|k: int| 0 <= k < a.len() implies !(#[trigger] a[k] is SetGid) && !(a[k] is SetUid)
        && a[k] != StartStep::Build by {}
    lemma_setting_steps(host, s);
    lemma_machine_steps(host, s);
}

/// No step changes the user or the group, or builds the machine, or is bound
/// to fail.
spec fn plain(steps: Seq<StartStep>) -> bool {
    forall|k: int|
        0 <= k < steps.len() ==> !(#[trigger] steps[k] is SetGid) && !(steps[k] is SetUid)
            && steps[k] != StartStep::Build && !(steps[k] is Fail)
}

proof fn lemma_setting_steps(host: Host, s: Settings)
    ensures
        forall|k: int|
            0 <= k < setting_steps(host, s).len() ==> #[trigger] setting_steps(host, s)[k]
                != StartStep::Build && !(setting_steps(host, s)[k] is Fail),
        forall|k: int, l: int|
            0 <= k < setting_steps(host, s).len() && 0 <= l < setting_steps(host, s).len()
                && #[trigger] setting_steps(host, s)[k] is SetGid && #[trigger] setting_steps(
                host,
                s,
            )[l] is SetUid ==> k < l,
{
    reveal(setting_steps);
    let a1 = seq![StartStep::SetKernelCmdline];
    let x2 = step_if(s.vsock_config != VsockConfig::Disabled, StartStep::SetVsock);
    let x3 = step_if(
        s.gpu_virgl_flags is Some,
        StartStep::SetVirglFlags(s.gpu_virgl_flags->0),
    );
    let x4 = step_if(s.gpu_shm_size is Some, StartStep::SetGpuShm(s.gpu_shm_size->0));
    let g = step_if(
        s.vmm_gid is Some && host.os != Os::Windows,
        StartStep::SetGid(s.vmm_gid->0),
    );
    let u = step_if(
        s.vmm_uid is Some && host.os != Os::Windows,
        StartStep::SetUid(s.vmm_uid->0),
    );
    assert(plain(x2) && plain(x3) && plain(x4) && (forall|k: int|
        0 <= k < g.len() ==> #[trigger] g[k] is SetGid) && (forall|k: int|
        0 <= k < u.len() ==> #[trigger] u[k] is SetUid)) by {
        reveal(step_if);
    }
    assert(plain(a1));
    lemma_plain_sum(a1, x2);
    lemma_plain_sum(a1 + x2, x3);
    lemma_plain_sum(a1 + x2 + x3, x4);
    let front = a1 + x2 + x3 + x4;
    assert(setting_steps(host, s) == front + g + u);
}

proof fn lemma_machine_steps(host: Host, s: Settings)
    ensures
        forall|k: int|
            0 <= k < machine_steps(host, s).len() ==> !(#[trigger] machine_steps(host, s)[k] is SetGid)
                && !(machine_steps(host, s)[k] is SetUid) && !(machine_steps(host, s)[k] is Fail),
        machine_steps(host, s).len() > 0,
        machine_steps(host, s).last() == StartStep::Run,
{
    reveal(machine_steps);
    let a1 = step_if(host.features.fork && s.snapshot_dir is Some, StartStep::Restore);
    let a2 = seq![StartStep::Build, StartStep::PublishRam];
    let x3 = step_if(s.control_socket_path is Some, StartStep::StartControl);
    let x4 = step_if(
        host.os == Os::MacOs && s.gpu_virgl_flags is Some,
        StartStep::StartWorker,
    );
    let x5 = step_if(host.arch == Arch::X86_64 && s.split_irqchip, StartStep::StartWorker);
    let x6 = step_if(host.os == Os::Windows && !s.split_irqchip, StartStep::StartWorker);
    let x7 = step_if(host.features.amd_sev || host.features.tdx, StartStep::StartWorker);
    assert(privileged(a1) && privileged(x3) && privileged(x4) && privileged(x5) && privileged(x6)
        && privileged(x7)) by {
        reveal(step_if);
    }
    let run = seq![StartStep::Run];
    assert(privileged(a2) && privileged(run));
    lemma_privileged_sum(a1, a2);
    lemma_privileged_sum(a1 + a2, x3);
    lemma_privileged_sum(a1 + a2 + x3, x4);
    lemma_privileged_sum(a1 + a2 + x3 + x4, x5);
    lemma_privileged_sum(a1 + a2 + x3 + x4 + x5, x6);
    lemma_privileged_sum(a1 + a2 + x3 + x4 + x5 + x6, x7);
    lemma_privileged_sum(a1 + a2 + x3 + x4 + x5 + x6 + x7, run);
    assert(machine_steps(host, s) == a1 + a2 + x3 + x4 + x5 + x6 + x7 + run);
    assert(privileged(machine_steps(host, s)));
}

proof fn lemma_privileged_sum(a: Seq<StartStep>, b: Seq<StartStep>)
    requires
        privileged(a),
        privileged(b),
    ensures
        privileged(a + b),
{
}

proof fn lemma_plain_sum(a: Seq<StartStep>, b: Seq<StartStep>)
    requires
        plain(a),
        plain(b),
    ensures
        plain(a + b),
{
}

/// No step changes the user or the group, or is bound to fail.
spec fn privileged(steps: Seq<StartStep>) -> bool {
    forall|k: int|
        0 <= k < steps.len() ==> !(#[trigger] steps[k] is SetGid) && !(steps[k] is SetUid)
            && !(steps[k] is Fail)
}

// ---------------------------------------------------------------------------
// The memory of running guests.
// ---------------------------------------------------------------------------

/// The memory regions of the running guests, each as its guest address, its
/// address in this process, and its length.
pub struct GuestRamRegions {
    map: HashMap<u32, Vec<(u64, u64, u64)>>,
}

impl View for GuestRamRegions {
    type V = Map<u32, Seq<(u64, u64, u64)>>;

    closed spec fn view(&self) -> Map<u32, Seq<(u64, u64, u64)>> {
        self.map@.map_values(|v: Vec<(u64, u64, u64)>| v@)
    }
}

/// The numbers of the first `n` regions, three of each.
pub open spec fn triples_of(regions: Seq<(u64, u64, u64)>, n: int) -> Seq<u64>
    decreases n,
{
    if n <= 0 {
        Seq::empty()
    } else {
        let r = regions[n - 1];
        triples_of(regions, n - 1) + seq![r.0, r.1, r.2]
    }
}

impl GuestRamRegions {
    pub fn new() -> (r: Self)
        ensures
            r@ == Map::<u32, Seq<(u64, u64, u64)>>::empty(),
    {
        let r = GuestRamRegions { map: HashMap::new() };
        assert(r@ =~= Map::<u32, Seq<(u64, u64, u64)>>::empty());
        r
    }

    /// Publish the regions of a guest, if it has any.
    pub fn publish(&mut self, ctx_id: u32, regions: Vec<(u64, u64, u64)>)
        ensures
            final(self)@ == if regions@.len() > 0 {
                old(self)@.insert(ctx_id, regions@)
            } else {
                old(self)@
            },
    {
        if regions.len() > 0 {
            self.map.insert(ctx_id, regions);
        }
        proof {
            if regions@.len() > 0 {
                assert(self@ =~= old(self)@.insert(ctx_id, regions@));
            }
        }
    }

    /// How many regions the guest has, and the numbers of the first
    /// `max_regions` of them, where the caller has room for them. It must have
    /// room for the count.
    pub fn krun_get_guest_ram(
        &self,
        ctx_id: u32,
        has_count: bool,
        has_room: bool,
        max_regions: u32,
    ) -> (r: Result<(u64, Vec<u64>), Errno>)
        ensures
            if !has_count {
                r is Err && r->Err_0 == Errno::Inval
            } else if !self@.contains_key(ctx_id) {
                r is Err && r->Err_0 == Errno::NoEnt
            } else {
                let regions = self@[ctx_id];
                let n = if !has_room {
                    0
                } else if max_regions < regions.len() {
                    max_regions as int
                } else {
                    regions.len() as int
                };
                r matches Ok((count, numbers)) && count == regions.len() && numbers@ == triples_of(
                    regions,
                    n,
                )
            },
    {
        if !has_count {
            return Err(Errno::Inval);
        }
        match self.map.get(&ctx_id) {
            None => Err(Errno::NoEnt),
            Some(regions) => {
                assert(self@[ctx_id] == regions@);
                let n: usize = if !has_room {
                    0
                } else if (max_regions as usize) < regions.len() {
                    max_regions as usize
                } else {
                    regions.len()
                };
                let mut out: Vec<u64> = Vec::new();
                let mut i: usize = 0;
                while i < n
                    invariant
                        i <= n <= regions@.len(),
                        out@ == triples_of(regions@, i as int),
                    decreases n - i,
                {
                    let (gpa, hva, len) = regions[i];
                    let ghost before = out@;
                    out.push(gpa);
                    out.push(hva);
                    out.push(len);
                    assert(out@ =~= before + seq![gpa, hva, len]);
                    i += 1;
                }
                Ok((regions.len() as u64, out))
            },
        }
    }
}

} // verus!
