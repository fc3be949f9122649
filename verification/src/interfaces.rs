//! The edges of the machine: what a tick of a hart does, what a result does to
//! the registers, what commands and their answers look like, and what is kept
//! of the calls that add devices.

use vstd::prelude::*;
use vstd::utf8::{decode_utf8, valid_utf8};

use crate::config::{
    Console, FsDevice, Host, IpAddr, Os, Port, Settings, VhostUserDevice, VmConfig, VsockConfig,
};
use crate::contexts::Ctxs;
use crate::control::{
    is_word, steps_to, upper_code, verb_of, Operation, Platform, Reply, Step, Verb,
};
use crate::conversions::{operand, register};
use crate::cpu::{fetched, mmio_completed, stepped, ticked, Hart, Observed};
use crate::csr::csr_value;
use crate::decode::{
    decoded, decoded_compressed, funct3_of, funct5_of, funct7_of, opcode_of, rd_of, rs1_of, rs2_of,
    Instr, LoadOp, StoreOp,
};
use crate::egress::{addresses_of, capped, egress_policy_set, ranges_of};
use crate::errno::Errno;
use crate::exec::{executed, load_executed, store_executed};
use crate::fpu::{fma_of, fp_executed, rm_of, with_result, FpResult};
use crate::manifest::RestorePlan;
use crate::overlay::{overlaid, Entry};
use crate::peripherals::{
    console_port_inout_added, console_port_tty_added, find_zero, queue_sizes_of,
    vhost_user_device_added,
};
use crate::prepared_saves::{begun, cancelled, reserved, status_of, Slot, Status};
use crate::restore::{restore_steps, RestoreStep};
use crate::settings::{took, turned_down};
use crate::softfloat::Fmt;
use crate::storage::{default_sync, find_fs, with_overlay};
use crate::trap::{next_interrupt, trapped, Exception};
use crate::{Clock, IrqLine, PrivMode, VmExit};

verus! {

/// The lines by their bits: software, timer and external interrupts stand four
/// bits apart, and the machine's two above the supervisor's.
pub proof fn lines_have_their_bits()
    ensures
        IrqLine::SSoft.position() == 1,
        IrqLine::STimer.position() == IrqLine::SSoft.position() + 4,
        IrqLine::SExt.position() == IrqLine::STimer.position() + 4,
        IrqLine::MSoft.position() == IrqLine::SSoft.position() + 2,
        IrqLine::MTimer.position() == IrqLine::STimer.position() + 2,
        IrqLine::MExt.position() == IrqLine::SExt.position() + 2,
{
}

/// A clock of its own counts instructions, by a power of two of them; a shared
/// one tells the time that it holds.
pub proof fn clocks_tell_the_time(c: Clock, instret: u64, held: u64)
    requires
        c.wf(),
    ensures
        c matches Clock::Deterministic { shift } ==> c.reading(instret, held) == instret as nat
            / vstd::arithmetic::power2::pow2(shift as nat),
        c is External ==> c.reading(instret, held) == held,
{
    if let Clock::Deterministic { shift } = c {
        vstd::bits::lemma_u64_shr_is_div(instret, shift as u64);
    }
}

/// One tick: an interrupt that is due is taken first, then one instruction is
/// carried out; where that fails, its exception is taken, with the address of
/// the instruction.
pub proof fn a_tick_takes_interrupts_first(h: Hart, o: Observed)
    ensures
        ({
            let h1 = match next_interrupt(h) {
                Some(c) => trapped(h, c | 0x8000_0000_0000_0000, 0, h.pc),
                None => h,
            };
            let (h2, r) = stepped(h1, h1.pc, o);
            let (out, exit) = ticked(h, o);
            match r {
                Ok(x) => out == h2 && exit == x,
                Err(e) => exit is None && out == trapped(h2, e.code_of(), e.tval_of(), h1.pc),
            }
        }),
{
}

/// A device's datum ends the load that waits for it: it is put in the register
/// that was named, and the hart goes on behind the load.
pub proof fn a_waiting_load_is_completed(h: Hart, data: u64)
    requires
        h.pending matches Some(p) && p.rd < 32,
        h.x.len() == 32,
        h.f.len() == 32,
    ensures
        ({
            let p = h.pending->0;
            let g = mmio_completed(h, data);
            &&& g.pending is None
            &&& g.pc == p.next_pc
            &&& g.ram == h.ram
            &&& !p.freg ==> g.f == h.f && g.csrs == h.csrs && (p.rd != 0 ==> g.x[p.rd as int]
                == crate::cpu::extended(data, p.size as int, p.sign)) && forall|i: int|
                0 <= i < 32 && (i != p.rd || i == 0) ==> #[trigger] g.x[i] == h.x[i]
            &&& p.freg ==> g.x == h.x && forall|i: int|
                0 <= i < 32 && i != p.rd ==> #[trigger] g.f[i] == h.f[i]
            &&& p.freg && p.size == 8 ==> g.f[p.rd as int] == data
        }),
{
}

/// A floating-point result goes to its register, and its flags are added to
/// those that are set; a move raises none.
pub proof fn results_go_to_their_register(h: Hart, rd: u8, bits: u64, flags: u32)
    requires
        rd < 32,
        h.x.len() == 32,
        h.f.len() == 32,
        flags < 32,
    ensures
        ({
            let a = with_result(h, rd, FpResult::F { bits, flags });
            let b = with_result(h, rd, FpResult::X { val: bits, flags });
            let c = with_result(h, rd, FpResult::MoveF(bits));
            let d = with_result(h, rd, FpResult::MoveX(bits));
            &&& a.f == h.f.update(rd as int, bits) && a.x == h.x
            &&& b.f == h.f && (rd != 0 ==> b.x == h.x.update(rd as int, bits)) && (rd == 0 ==> b.x
                == h.x)
            &&& c.f == h.f.update(rd as int, bits) && c.x == h.x && c.csrs.fcsr == h.csrs.fcsr
            &&& d.f == h.f && (rd != 0 ==> d.x == h.x.update(rd as int, bits)) && d.csrs == h.csrs
            &&& flags == 0 ==> a.csrs.fcsr == h.csrs.fcsr && b.csrs.fcsr == h.csrs.fcsr
            &&& flags != 0 ==> a.csrs.fcsr == h.csrs.fcsr | (flags as u64 & 0x1f) && b.csrs.fcsr
                == a.csrs.fcsr
            &&& a.ram == h.ram && a.pc == h.pc && a.csrs.mstatus == h.csrs.mstatus | 0x6000 | 0x6000
        }),
{
}

/// The fused instructions by opcode: which of the product and the addend change
/// their sign.
pub proof fn fused_instructions_have_their_signs(h: Hart, raw: u32, next: u64)
    requires
        h.csrs.mstatus & 0x6000 != 0,
        funct7_of(raw) % 4 <= 1,
        rm_of(h.csrs.fcsr, funct3_of(raw)) is Some,
    ensures
        ({
            let f = if funct7_of(raw) % 4 == 0 {
                Fmt::Single
            } else {
                Fmt::Double
            };
            let (a, b, c) = (
                operand(f, h.f[rs1_of(raw) as int]),
                operand(f, h.f[rs2_of(raw) as int]),
                operand(f, h.f[funct5_of(raw) as int]),
            );
            let given = |r: (nat, u32)|
                fp_executed(h, raw, next).0 == with_result(
                    h,
                    rd_of(raw),
                    FpResult::F { bits: register(f, r.0), flags: r.1 },
                );
            let op = opcode_of(raw);
            &&& op == 0x43 ==> given(fma_of(f, a, b, c, false, false))
            &&& op == 0x47 ==> given(fma_of(f, a, b, c, false, true))
            &&& op == 0x4b ==> given(fma_of(f, a, b, c, true, false))
            &&& op == 0x4f ==> given(fma_of(f, a, b, c, true, true))
        }),
{
    reveal(fp_executed);
    crate::conversions::lemma_operand(h.f[rs1_of(raw) as int]);
    crate::conversions::lemma_operand(h.f[rs2_of(raw) as int]);
    crate::conversions::lemma_operand(h.f[funct5_of(raw) as int]);
}

/// With its unit off every floating-point instruction is illegal.
pub proof fn no_unit_no_floating_point(h: Hart, raw: u32, next: u64)
    requires
        h.csrs.mstatus & 0x6000 == 0,
    ensures
        fp_executed(h, raw, next).0 == h,
        fp_executed(h, raw, next).1 matches Err(e) && e == Exception::IllegalInstruction(
            raw as u64,
        ),
{
    reveal(fp_executed);
}

/// The counters: cycles and instructions are counted alike and the time is the
/// clock's; each is there for the lower modes where the higher ones let it be.
pub proof fn counters_are_read(h: Hart, o: Observed)
    requires
        h.prv == PrivMode::M,
    ensures
        csr_value(h, 0xc00, o) == Some(h.instret),
        csr_value(h, 0xc02, o) == Some(h.instret),
        csr_value(h, 0xb00, o) == Some(h.instret),
        csr_value(h, 0xb02, o) == Some(h.instret),
        csr_value(h, 0xc01, o) == Some(h.clock.reading(h.instret, o.time)),
        csr_value(h, 0xf14, o) == Some(h.csrs.mhartid),
{
    reveal(csr_value);
    crate::privileged::lemma_mode_bits(0xc00);
    crate::privileged::lemma_mode_bits(0xc01);
    crate::privileged::lemma_mode_bits(0xc02);
    crate::privileged::lemma_mode_bits(0xb00);
    crate::privileged::lemma_mode_bits(0xb02);
    crate::privileged::lemma_mode_bits(0xf14);
}

// ---------------------------------------------------------------------------
// Commands.
// ---------------------------------------------------------------------------

/// Which commands a platform knows.
pub proof fn platforms_know_commands(p: Platform)
    ensures
        p.provides(Verb::Pause) && p.provides(Verb::Resume) && p.provides(Verb::Status),
        p.provides(Verb::Balloon) == p.balloon,
        p.provides(Verb::Checkpoint) == p.snapshot,
        p.provides(Verb::Restore) == p.snapshot,
        p.provides(Verb::Save) == p.snapshot,
        p.provides(Verb::PrepareSave) == p.deferred_save,
        p.provides(Verb::FinishSave) == p.deferred_save,
        p.provides(Verb::CancelSave) == p.deferred_save,
        p.provides(Verb::Fork) == p.fork,
        p.provides(Verb::RollbackFork) == p.fork,
        p.provides(Verb::ForkContinue) == p.fork_continue,
        p.provides(Verb::ForkContinuePaged) == p.fork_continue_paged,
{
}

/// A command is carried out with its argument, or answered at once: where it is
/// not known, and where it needs an argument that it does not have.
#[verifier::rlimit(50)]
pub proof fn commands_are_carried_out(line: Seq<char>, p: Platform, s: Step)
    requires
        steps_to(line, p, s),
    ensures
        ({
            let arg = crate::control::argument(line);
            let verb = crate::control::verb_of(crate::control::verb_word(line));
            let none = arg.len() == 0;
            &&& verb is None ==> s == Step::Answer(Reply::UnknownCommand)
            &&& verb matches Some(v) ==> {
                &&& !p.provides(v) ==> s == Step::Answer(Reply::UnknownCommand)
                &&& p.provides(v) ==> match v {
                    Verb::Pause => s == Step::Perform(Operation::Pause),
                    Verb::Resume => s == Step::Perform(Operation::Resume),
                    Verb::Status => s == Step::Perform(Operation::Status),
                    Verb::Checkpoint => if none {
                        s == Step::Answer(Reply::CheckpointIdRequired)
                    } else {
                        s matches Step::Perform(Operation::Checkpoint(id)) && id@ == arg
                    },
                    Verb::Restore => if none {
                        s == Step::Answer(Reply::CheckpointIdRequired)
                    } else {
                        s matches Step::Perform(Operation::Restore(id)) && id@ == arg
                    },
                    Verb::Save => if none {
                        s == Step::Answer(Reply::SnapshotDirRequired)
                    } else {
                        s matches Step::Perform(Operation::Save(d)) && d@ == arg
                    },
                    Verb::PrepareSave => if none {
                        s == Step::Answer(Reply::SnapshotDirRequired)
                    } else {
                        s matches Step::Perform(Operation::PrepareSave(d)) && d@ == arg
                    },
                    Verb::FinishSave => s matches Step::Perform(Operation::FinishSave(d)) && d@
                        == arg,
                    Verb::CancelSave => s matches Step::Perform(Operation::CancelSave(d)) && d@
                        == arg,
                    Verb::Fork => if none {
                        s == Step::Answer(Reply::ForkDirRequired)
                    } else {
                        s matches Step::Perform(Operation::Fork(d)) && d@ == arg
                    },
                    Verb::ForkContinue => if none {
                        s == Step::Answer(Reply::ForkDirRequired)
                    } else {
                        s matches Step::Perform(Operation::ForkContinue { dir, paged }) && dir@
                            == arg && !paged
                    },
                    Verb::ForkContinuePaged => if none {
                        s == Step::Answer(Reply::ForkDirRequired)
                    } else {
                        s matches Step::Perform(Operation::ForkContinue { dir, paged }) && dir@
                            == arg && paged
                    },
                    Verb::RollbackFork => if none {
                        s == Step::Answer(Reply::ForkDirRequired)
                    } else {
                        s matches Step::Perform(Operation::RollbackFork(d)) && d@ == arg
                    },
                    Verb::Balloon => if none {
                        s == Step::Perform(Operation::BalloonQuery)
                    } else {
                        match crate::control::number_of(arg, 0xffff_ffff) {
                            Some(n) => s matches Step::Perform(Operation::BalloonSet(mib)) && mib
                                == n,
                            None => s == Step::Answer(Reply::BalloonArgument),
                        }
                    },
                }
            }
        }),
{
    if let Some(v) = crate::control::verb_of(crate::control::verb_word(line)) {
        let arg = crate::control::argument(line);
        if v == Verb::Balloon && arg.len() == 0 {
            assert(crate::control::unsigned_part(arg).len() == 0);
        }
    }
}

/// A restore reads the checkpoint first, and then gets memory as the manifest
/// says: from an image, from a guardian, or from the process that was forked.
pub proof fn restores_get_memory_as_they_say(plan: RestorePlan, os: Os, forkable: bool)
    ensures
        ({
            let s = restore_steps(plan, os, forkable);
            &&& s.len() >= 2 && s[0] == RestoreStep::ReadCheckpoint
            &&& plan is Portable && os == Os::Windows ==> s.last() == RestoreStep::LoadMemory
            &&& plan is Portable && os == Os::Linux && forkable ==> s.last()
                == RestoreStep::PromoteMemory
            &&& plan is Portable && os == Os::Linux && !forkable ==> s.last()
                == RestoreStep::MapMemory
            &&& plan is Portable && os == Os::MacOs ==> s.last() == RestoreStep::MapMemory
            &&& plan is Portable ==> s[1] == RestoreStep::OpenMemory && s[2]
                == RestoreStep::MeasureMemory
            &&& plan is Guardian ==> s[1] == RestoreStep::ConnectGuardian && s[2]
                == RestoreStep::CreatePagedMemory
            &&& plan is Fork ==> s[1] == RestoreStep::CowMapMemory
        }),
{
}

/// One save is prepared at a time: a slot is taken once, what is ready is handed
/// out once, to the name that it was prepared under, and a cancelled slot is
/// free again.
pub proof fn one_save_is_prepared_at_a_time<T>(slot: Slot<T>, id: Seq<char>, other: Seq<char>)
    requires
        other != id,
    ensures
        slot is None ==> reserved(slot, id).1 && status_of(reserved(slot, id).0, id) == Some(
            Status::Preparing,
        ) && status_of(reserved(slot, id).0, other) is None,
        slot is Some ==> reserved(slot, id) == (slot, false),
        status_of(slot, id) == Some(Status::Ready) ==> begun(slot, id).1 is Some && status_of(
            begun(slot, id).0,
            id,
        ) == Some(Status::Finishing) && cancelled(slot, id) == (None::<
            (Seq<char>, crate::prepared_saves::Entry<T>),
        >, true) && begun(slot, other) == (slot, None::<T>) && begun(
            begun(slot, id).0,
            id,
        ).1 is None,
        status_of(slot, id) != Some(Status::Ready) ==> begun(slot, id) == (slot, None::<T>)
            && cancelled(slot, id) == (slot, false),
{
}

// ---------------------------------------------------------------------------
// Devices.
// ---------------------------------------------------------------------------

/// A device in another process is kept with its kind, its socket, its name
/// unless that is empty, and its queues.
pub proof fn outside_devices_are_kept(
    c: Ctxs,
    host: Host,
    id: u32,
    kind: u32,
    path: Seq<u8>,
    name: Seq<u8>,
    queues: u16,
    sizes: Seq<u16>,
)
    requires
        c.settings.contains_key(id),
        host.features.vhost_user,
        valid_utf8(path),
        valid_utf8(name),
        queues > 0,
        sizes.len() >= queues,
    ensures
        ({
            let s = c.settings[id];
            let p = decode_utf8(path);
            let r = vhost_user_device_added(
                c,
                host,
                id,
                kind,
                path,
                Some(name),
                queues,
                Some(sizes),
            );
            &&& p.len() == 0 ==> turned_down(r, c, Errno::Inval)
            &&& p.len() > 0 ==> took(
                r,
                c,
                id,
                Settings {
                    vhost_user_devices: s.vhost_user_devices.push(
                        VhostUserDevice {
                            device_type: kind,
                            socket_path: p,
                            name: if decode_utf8(name).len() > 0 {
                                Some(decode_utf8(name))
                            } else {
                                None
                            },
                            num_queues: queues,
                            queue_sizes: sizes.subrange(0, queues as int),
                        },
                    ),
                    ..s
                },
            )
        }),
{
    assert(sizes.take(queues as int) =~= sizes.subrange(0, queues as int));
}

/// A port goes behind the others of its console, which must be one that was
/// made to take ports; a terminal must be one.
pub proof fn console_ports_are_kept(
    c: Ctxs,
    host: Host,
    id: u32,
    console: u32,
    name: Seq<u8>,
    tty: i64,
    input: i64,
    output: i64,
    ports: Seq<Port>,
)
    requires
        c.settings.contains_key(id),
        valid_utf8(name),
        host.os != Os::Windows,
        console < c.settings[id].virtio_consoles.len(),
        c.settings[id].virtio_consoles[console as int] == Console::Explicit(ports),
    ensures
        ({
            let s = c.settings[id];
            let n = decode_utf8(name);
            let with = |p: Port|
                Settings {
                    virtio_consoles: s.virtio_consoles.update(
                        console as int,
                        Console::Explicit(ports.push(p)),
                    ),
                    ..s
                };
            let t = console_port_tty_added(c, host, id, console, Some(name), tty, true);
            &&& tty < 0 ==> turned_down(t, c, Errno::Inval)
            &&& tty >= 0 ==> took(t, c, id, with(Port::Tty { name: n, tty }))
            &&& tty >= 0 ==> turned_down(
                console_port_tty_added(c, host, id, console, Some(name), tty, false),
                c,
                Errno::NotTty,
            )
            &&& took(
                console_port_inout_added(c, id, console, Some(name), input, output),
                c,
                id,
                with(Port::InOut { name: n, input, output }),
            )
        }),
{
}

/// A policy for what the guest may reach is kept list by list; there must be a
/// list, host names need somebody to resolve them, and there must be a socket
/// device.
pub proof fn a_policy_is_kept(
    c: Ctxs,
    id: u32,
    cidrs: Seq<(Vec<u8>, Option<IpAddr>)>,
    resolvers: Seq<Option<IpAddr>>,
)
    requires
        c.settings.contains_key(id),
        cidrs.len() <= 4096,
        resolvers.len() <= 4096,
        ranges_of(cidrs) is Some,
        addresses_of(resolvers) is Some,
    ensures
        ({
            let s = c.settings[id];
            let r = egress_policy_set(c, id, Some(cidrs), None, Some(resolvers));
            &&& s.vsock_config == VsockConfig::Disabled ==> turned_down(r, c, Errno::NoDev)
            &&& s.vsock_config != VsockConfig::Disabled ==> took(
                r,
                c,
                id,
                Settings {
                    egress_cidrs: ranges_of(cidrs),
                    egress_hosts: None,
                    egress_resolvers: addresses_of(resolvers),
                    ..s
                },
            )
            &&& turned_down(
                egress_policy_set(c, id, None, None, Some(resolvers)),
                c,
                Errno::Inval,
            )
        }),
        addresses_of(resolvers) matches Some(a) && a.len() == resolvers.len() && forall|i: int|
            0 <= i < resolvers.len() ==> resolvers[i] == Some(#[trigger] a[i]),
{
    assert(capped(cidrs) =~= cidrs);
    assert(capped(resolvers) =~= resolvers);
}

/// A new guest has no settings but those that it was made with.
pub proof fn a_new_guest_has_nothing_set(fw: bool, efd: Option<i64>, vm: VmConfig)
    ensures
        ({
            let s = crate::config::unset(fw, efd, vm);
            &&& s.krunfw == fw && s.shutdown_efd == efd && s.vm_config == vm
            &&& s.workdir is None && s.exec_path is None && s.env is None && s.args is None
            &&& s.rlimits is None && s.net_index == 0 && s.net.len() == 0 && !s.dhcp_client
            &&& s.tsi_port_map is None && s.unix_ipc_port_map is None
            &&& s.egress_cidrs is None && s.egress_hosts is None && s.egress_resolvers is None
            &&& s.control_socket_path is None && s.vsock_config == VsockConfig::Disabled
            &&& s.block_cfgs.len() == 0 && s.block_root is None && s.fs.len() == 0
            &&& s.tee_config_file is None && s.gpu_virgl_flags is None && s.gpu_shm_size is None
            &&& s.nitro_console_output is None && s.vmm_uid is None && s.vmm_gid is None
            &&& !s.disable_implicit_init && s.snapshot_dir is None
            &&& s.displays.len() == 0 && s.display_backend is None && s.input_backends.len() == 0
            &&& s.vhost_user_devices.len() == 0 && !s.nested_enabled && !s.split_irqchip
            &&& s.smbios_oem_strings is None && s.external_kernel is None
            &&& s.kernel_bundle is None && s.firmware_config is None && s.kernel_console is None
            &&& s.virtio_consoles.len() == 0 && s.serial_consoles.len() == 0
        }),
{
}

/// The words of the commands, in capitals or not.
#[verifier::rlimit(60)]
pub proof fn commands_have_their_words(word: Seq<char>)
    ensures
        is_word(word, "PAUSE"@) ==> verb_of(word) == Some(Verb::Pause),
        is_word(word, "RESUME"@) ==> verb_of(word) == Some(Verb::Resume),
        is_word(word, "STATUS"@) ==> verb_of(word) == Some(Verb::Status),
        is_word(word, "BALLOON"@) ==> verb_of(word) == Some(Verb::Balloon),
        is_word(word, "CHECKPOINT"@) ==> verb_of(word) == Some(Verb::Checkpoint),
        is_word(word, "RESTORE"@) ==> verb_of(word) == Some(Verb::Restore),
        is_word(word, "SAVE"@) ==> verb_of(word) == Some(Verb::Save),
        is_word(word, "PREPARE_SAVE"@) ==> verb_of(word) == Some(Verb::PrepareSave),
        is_word(word, "FINISH_SAVE"@) ==> verb_of(word) == Some(Verb::FinishSave),
        is_word(word, "CANCEL_SAVE"@) ==> verb_of(word) == Some(Verb::CancelSave),
        is_word(word, "FORK"@) ==> verb_of(word) == Some(Verb::Fork),
        is_word(word, "FORK_CONTINUE"@) ==> verb_of(word) == Some(Verb::ForkContinue),
        is_word(word, "FORK_CONTINUE_PAGED"@) ==> verb_of(word) == Some(Verb::ForkContinuePaged),
        is_word(word, "ROLLBACK_FORK"@) ==> verb_of(word) == Some(Verb::RollbackFork),
{
    reveal_strlit("PAUSE");
    reveal_strlit("RESUME");
    reveal_strlit("STATUS");
    reveal_strlit("BALLOON");
    reveal_strlit("CHECKPOINT");
    reveal_strlit("RESTORE");
    reveal_strlit("SAVE");
    reveal_strlit("PREPARE_SAVE");
    reveal_strlit("FINISH_SAVE");
    reveal_strlit("CANCEL_SAVE");
    reveal_strlit("FORK");
    reveal_strlit("FORK_CONTINUE");
    reveal_strlit("FORK_CONTINUE_PAGED");
    reveal_strlit("ROLLBACK_FORK");
    if word.len() > 0 {
        let c = upper_code(word[0]);
        assert(is_word(word, "RESUME"@) ==> c == 'R' as u32);
        assert(is_word(word, "STATUS"@) ==> c == 'S' as u32);
        assert(is_word(word, "BALLOON"@) ==> c == 'B' as u32);
        assert(is_word(word, "RESTORE"@) ==> c == 'R' as u32);
        assert(is_word(word, "SAVE"@) ==> c == 'S' as u32);
        assert(is_word(word, "FORK"@) ==> c == 'F' as u32);
        assert(is_word(word, "FINISH_SAVE"@) ==> c == 'F' as u32);
        assert(is_word(word, "CANCEL_SAVE"@) ==> c == 'C' as u32);
        assert(is_word(word, "FORK_CONTINUE"@) ==> c == 'F' as u32);
        assert(is_word(word, "ROLLBACK_FORK"@) ==> c == 'R' as u32);
    }
}

/// An entry is laid over the first shared directory of that tag, and over no
/// other; without one there is nowhere to lay it.
pub proof fn entries_are_laid_over_one_directory(
    s: Settings,
    tag: Seq<char>,
    path: Seq<char>,
    new: Entry,
    i: int,
)
    requires
        0 <= i <= s.fs.len(),
        forall|j: int| 0 <= j < i ==> (#[trigger] s.fs[j]).fs_id != tag,
        i < s.fs.len() ==> s.fs[i].fs_id == tag,
    ensures
        ({
            let r = with_overlay(s, tag, path, new);
            &&& i == s.fs.len() ==> r == Err::<(Settings, i32), Errno>(Errno::NoEnt)
            &&& i < s.fs.len() ==> match overlaid(s.fs[i].entries, path, new) {
                Err(e) => r == Err::<(Settings, i32), Errno>(e),
                Ok(grown) => r matches Ok((now, v)) && v == 0 && now == (Settings {
                    fs: now.fs,
                    ..s
                }) && now.fs.len() == s.fs.len() && now.fs[i] == (FsDevice {
                    entries: grown,
                    ..s.fs[i]
                }) && forall|j: int|
                    0 <= j < s.fs.len() && j != i ==> #[trigger] now.fs[j] == s.fs[j],
            }
        }),
{
    lemma_first_share(s.fs, tag, 0, i);
}

proof fn lemma_first_share(fs: Seq<FsDevice>, tag: Seq<char>, at: int, i: int)
    requires
        0 <= at <= i <= fs.len(),
        forall|j: int| at <= j < i ==> (#[trigger] fs[j]).fs_id != tag,
        i < fs.len() ==> fs[i].fs_id == tag,
    ensures
        find_fs(fs, tag, at) == i,
    decreases i - at,
{
    if at < i {
        assert(fs[at].fs_id != tag);
        lemma_first_share(fs, tag, at + 1, i);
    }
}

/// Where nothing else is said, disks are flushed all the way, but on macOS,
/// where that is left to the drive.
pub proof fn disks_are_flushed_by_default(host: Host)
    ensures
        host.os == Os::MacOs ==> default_sync(host) == host.devices.sync_relaxed,
        host.os != Os::MacOs ==> default_sync(host) == host.devices.sync_full,
{
}

/// With no number of queues their sizes end at a zero.
pub proof fn queue_sizes_end_at_a_zero(s: Seq<u16>, n: int)
    requires
        0 <= n < s.len(),
        n < 65536,
        s[n] == 0,
        forall|i: int| 0 <= i < n ==> #[trigger] s[i] != 0,
    ensures
        queue_sizes_of(0, Some(s)) == Some(s.subrange(0, n)),
        queue_sizes_of(0, None) == Some(Seq::<u16>::empty()),
{
    lemma_first_zero(s, 0, n);
    assert(s.take(n) =~= s.subrange(0, n));
}

proof fn lemma_first_zero(s: Seq<u16>, at: int, n: int)
    requires
        0 <= at <= n < s.len(),
        s[n] == 0,
        forall|i: int| at <= i < n ==> #[trigger] s[i] != 0,
    ensures
        find_zero(s, at) == n,
    decreases n - at,
{
    if at < n {
        assert(s[at] != 0);
        lemma_first_zero(s, at + 1, n);
    }
}

// ---------------------------------------------------------------------------
// Instructions.
// ---------------------------------------------------------------------------

/// What is fetched is carried out: a word by the full encoding, a halfword by
/// the compressed one; what cannot be fetched is not.
pub proof fn what_is_fetched_is_carried_out(h: Hart, pc: u64, o: Observed)
    ensures
        ({
            let (h1, r) = fetched(h, pc);
            let out = stepped(h, pc, o);
            match r {
                Err(e) => out.0 == h1 && out.1 == Err::<Option<VmExit>, Exception>(e),
                Ok((raw, len)) => {
                    &&& raw % 4 == 3 ==> out == executed(h1, decoded(raw), raw, pc, len, o)
                    &&& raw % 4 != 3 ==> out == executed(
                        h1,
                        decoded_compressed(raw as u16),
                        raw,
                        pc,
                        len,
                        o,
                    )
                },
            }
        }),
{
}

/// The loads and stores by their names: how many bytes they move, and whether
/// with a sign; the address is a register plus an offset.
pub proof fn loads_and_stores_have_their_sizes(
    h: Hart,
    rd: u8,
    rs1: u8,
    rs2: u8,
    imm: i64,
    raw: u32,
    pc: u64,
    len: u64,
    o: Observed,
)
    ensures
        ({
            let va = h.x[rs1 as int].wrapping_add(imm as u64);
            let next = pc.wrapping_add(len);
            let load = |op: LoadOp| executed(h, Instr::Load { op, rd, rs1, imm }, raw, pc, len, o);
            let store = |op: StoreOp|
                executed(h, Instr::Store { op, rs1, rs2, imm }, raw, pc, len, o);
            let data = h.x[rs2 as int];
            &&& load(LoadOp::Lb) == load_executed(h, va, 1, true, rd, next)
            &&& load(LoadOp::Lh) == load_executed(h, va, 2, true, rd, next)
            &&& load(LoadOp::Lw) == load_executed(h, va, 4, true, rd, next)
            &&& load(LoadOp::Ld) == load_executed(h, va, 8, false, rd, next)
            &&& load(LoadOp::Lbu) == load_executed(h, va, 1, false, rd, next)
            &&& load(LoadOp::Lhu) == load_executed(h, va, 2, false, rd, next)
            &&& load(LoadOp::Lwu) == load_executed(h, va, 4, false, rd, next)
            &&& store(StoreOp::Sb) == store_executed(h, va, 1, data % 0x100, next)
            &&& store(StoreOp::Sh) == store_executed(h, va, 2, data % 0x1_0000, next)
            &&& store(StoreOp::Sw) == store_executed(h, va, 4, data % 0x1_0000_0000, next)
            &&& store(StoreOp::Sd) == store_executed(h, va, 8, data, next)
        }),
{
}

} // verus!
