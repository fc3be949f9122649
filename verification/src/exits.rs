//! What an Arm guest's exits mean, by the numbers of the architecture: the
//! fields of a syndrome, the firmware calls, waiting for the timer, and what a
//! processor starts with.

use vstd::prelude::*;

use crate::hvf_vcpu::{
    access_is_store, access_len, access_reg, class_of, distributor_regs, frozen_offset,
    initial_steps, irqs_of, offsets, trap_reg, Action, Event, InitStep, MmioRead, Phase, SysReg,
    VcpuExit, VcpuFault, VcpuReg, VcpuRun,
};

verus! {

/// The syndrome of a data abort: its class, whether the rest is valid, the size
/// of the access as a power of two, the register, and whether it is a write.
pub open spec fn data_abort(valid: bool, size: int, reg: int, write: bool, middle: int, low: int) -> int {
    0x24 * 0x400_0000 + 0x200_0000 + (if valid {
        0x100_0000int
    } else {
        0
    }) + size * 0x40_0000 + reg * 0x1_0000 + middle * 0x80 + (if write {
        0x40int
    } else {
        0
    }) + low
}

/// The fields of a data abort are found where they are.
#[verifier::rlimit(50)]
pub proof fn data_aborts_are_taken_apart(
    valid: bool,
    size: int,
    reg: int,
    write: bool,
    middle: int,
    low: int,
)
    requires
        0 <= size < 4,
        0 <= reg < 32,
        0 <= middle < 0x200,
        0 <= low < 0x40,
    ensures
        ({
            let s = data_abort(valid, size, reg, write, middle, low) as u64;
            &&& class_of(s) == 0x24
            &&& access_len(s) == (if size == 0 {
                1int
            } else if size == 1 {
                2
            } else if size == 2 {
                4
            } else {
                8
            })
            &&& access_reg(s) == reg
            &&& access_is_store(s) == write
        }),
{
    let s = data_abort(valid, size, reg, write, middle, low);
    let w = if write {
        1int
    } else {
        0
    };
    let foot = middle * 0x80 + w * 0x40 + low;
    let high = 0x24 * 0x10 + 8 + (if valid {
        4int
    } else {
        0
    }) + size;
    lemma_split(s, 0x400_0000, 0x24, s - 0x24 * 0x400_0000);
    lemma_split(s, 0x40_0000, high, reg * 0x1_0000 + foot);
    lemma_split(s, 0x1_0000, high * 0x40 + reg, foot);
    lemma_split(s, 0x40, (high * 0x40 + reg) * 0x400 + middle * 2 + w, low);
    assert(high % 4 == size);
    assert((high * 0x40 + reg) % 0x20 == reg);
}

proof fn lemma_split(x: int, m: int, hi: int, lo: int)
    requires
        x == hi * m + lo,
        0 <= lo < m,
    ensures
        x / m == hi,
{
    vstd::arithmetic::div_mod::lemma_fundamental_div_mod_converse(x, m, hi, lo);
}

/// The trap of a system register: its class, the register that moves, and
/// whether it is read.
pub proof fn register_traps_are_taken_apart(names: int, reg: int, low: int, read: bool)
    requires
        0 <= names < 0x8000,
        0 <= reg < 32,
        0 <= low < 0x10,
    ensures
        ({
            let s = (0x18 * 0x400_0000 + 0x200_0000 + names * 0x400 + reg * 0x20 + 2 * low + (
            if read {
                1int
            } else {
                0
            })) as u64;
            &&& class_of(s) == 0x18
            &&& trap_reg(s) == reg
            &&& (s % 2 == 1) == read
        }),
{
}

/// What an exception of each class asks for first.
#[verifier::rlimit(50)]
pub proof fn exceptions_go_by_class(v: VcpuRun, syndrome: u64, pa: u64)
    requires
        v.phase == Phase::Running,
        !v.masked,
    ensures
        ({
            let c = class_of(syndrome);
            let (w, a) = v.stepped(
                Event::Exited { reason: 1, syndrome, physical_address: pa },
            );
            let (len, reg, rt) = (access_len(syndrome), access_reg(syndrome), trap_reg(syndrome));
            let idle = |advance: bool| VcpuRun { advance, phase: Phase::Idle, ..v };
            // A breakpoint.
            &&& c == 0x3c ==> a == Action::Exit(VcpuExit::Breakpoint) && w == idle(v.advance)
            // Device memory.
            &&& c == 0x24 && !access_is_store(syndrome) ==> a == Action::Exit(
                VcpuExit::MmioRead(pa, len),
            ) && w == (VcpuRun { pending: Some(MmioRead { addr: pa, len, srt: reg }), ..idle(true) })
            &&& c == 0x24 && access_is_store(syndrome) && reg < 31 ==> a == Action::ReadReg(
                VcpuReg::X(reg),
            ) && w.advance
            // System registers.
            &&& c == 0x18 && syndrome % 2 == 1 && rt != 31 ==> a == Action::HandleSysRegRead {
                reg: (syndrome as u32) & v.sysreg_mask,
            } && w.advance
            &&& c == 0x18 && syndrome % 2 == 0 && rt != 31 ==> a == Action::ReadReg(VcpuReg::X(rt))
                && w.advance
            &&& c == 0x18 && syndrome % 2 == 0 && rt == 31 ==> a == Action::HandleSysRegWrite {
                reg: (syndrome as u32) & v.sysreg_mask,
                val: 0,
            } && w.advance
            // Waiting.
            &&& c == 1 ==> a == Action::ReadSysReg(SysReg::CntvCtlEl0)
            // Firmware: only the call that does not return by itself is stepped over.
            &&& c == 0x16 ==> a == Action::ReadReg(VcpuReg::X(0)) && w.advance == v.advance
            &&& c == 0x17 ==> a == Action::ReadReg(VcpuReg::X(0)) && w.advance
            // Nothing else.
            &&& c != 1 && c != 0x16 && c != 0x17 && c != 0x18 && c != 0x24 && c != 0x3c ==> a
                == Action::Fail(VcpuFault::Exception(c))
        }),
{
}

/// The other reasons to exit: the virtual timer, which stays masked from then
/// on, and a request to leave.
pub proof fn other_exits_leave_the_loop(v: VcpuRun, syndrome: u64, pa: u64, pc: u64, reason: u32)
    requires
        v.phase == Phase::Running,
    ensures
        ({
            let on = |reason: u32| v.stepped(
                Event::Exited { reason, syndrome, physical_address: pa },
            );
            &&& on(2) == (
                VcpuRun { masked: true, phase: Phase::Idle, ..v },
                Action::Exit(VcpuExit::VtimerActivated),
            )
            &&& on(0) == (
                VcpuRun { phase: Phase::Idle, ..v },
                Action::Exit(VcpuExit::Canceled),
            )
            &&& reason > 2 ==> on(reason).1 == Action::ReadReg(VcpuReg::Pc) && on(
                reason,
            ).0.stepped(Event::Value(pc)).1 == Action::Fail(VcpuFault::ExitReason { reason, pc })
        }),
{
}

/// A system register that was read is put in its register; one that was written
/// goes to the controller; either then leaves, or fails where nobody knows it.
pub proof fn system_registers_are_served(v: VcpuRun, rt: u32, reg: u32, val: u64)
    ensures
        ({
            let read = VcpuRun { phase: Phase::SysRead { rt, reg }, ..v };
            let write = VcpuRun { phase: Phase::SysWriteValue { reg }, ..v };
            let (r1, a1) = read.stepped(Event::Handled(Some(val)));
            let (w1, b1) = write.stepped(Event::Value(val));
            &&& a1 == Action::WriteReg(VcpuReg::X(rt), val)
            &&& r1.stepped(Event::Done).1 == Action::Exit(VcpuExit::SystemRegister)
            &&& read.stepped(Event::Handled(None)).1 == Action::Fail(
                VcpuFault::SysRegRead { rt, reg },
            )
            &&& b1 == Action::HandleSysRegWrite { reg, val }
            &&& w1.stepped(Event::Accepted(true)).1 == Action::Exit(VcpuExit::SystemRegister)
            &&& w1.stepped(Event::Accepted(false)).1 == Action::Fail(VcpuFault::SysRegWrite { reg })
        }),
{
}

/// The firmware calls, by number: the version is two, power off and reset shut
/// the machine down, and starting a processor tells which, where and with what,
/// and reports success to the caller.
pub proof fn firmware_is_called_by_number(
    v: VcpuRun,
    function: u64,
    mpidr: u64,
    entry: u64,
    context: u64,
)
    requires
        v.phase == Phase::Psci,
    ensures
        ({
            let (w, a) = v.stepped(Event::Value(function));
            &&& function == 0x8400_0000 || function == 0x8400_0006 ==> a == Action::WriteReg(
                VcpuReg::X(0),
                2,
            ) && w.stepped(Event::Done).1 == Action::Exit(VcpuExit::PsciHandled)
            &&& function == 0x8400_0008 || function == 0x8400_0009 ==> a == Action::Exit(
                VcpuExit::Shutdown,
            )
            &&& function == 0xc400_0003 ==> {
                let (w1, a1) = w.stepped(Event::Value(mpidr));
                let (w2, a2) = w1.stepped(Event::Value(entry));
                let (w3, a3) = w2.stepped(Event::Value(context));
                let (w4, a4) = w3.stepped(Event::Done);
                &&& a == Action::ReadReg(VcpuReg::X(1))
                &&& a1 == Action::ReadReg(VcpuReg::X(2))
                &&& a2 == Action::ReadReg(VcpuReg::X(3))
                &&& a3 == Action::WriteReg(VcpuReg::X(0), 0)
                &&& a4 == Action::Exit(VcpuExit::CpuOn(mpidr, entry, context))
            }
            &&& function != 0x8400_0000 && function != 0x8400_0006 && function != 0x8400_0008
                && function != 0x8400_0009 && function != 0xc400_0003 ==> a == Action::Fail(
                VcpuFault::PsciFunction(function),
            )
        }),
{
}

/// Waiting: with the timer off or masked until an event, and else until the
/// timer's value, which is nanoseconds away, or past.
pub proof fn waiting_ends_with_the_timer(v: VcpuRun, ctl: u64, cval: u64, now: u64)
    requires
        v.phase == Phase::WaitCtl,
        0 < v.cntfrq,
    ensures
        ({
            let (w, a) = v.stepped(Event::Value(ctl));
            let (w1, a1) = w.stepped(Event::Value(cval));
            let (w2, a2) = w1.stepped(Event::Value(now));
            let armed = ctl % 2 == 1 && ctl / 2 % 2 == 0;
            let ns = (cval - now) * (1_000_000_000u64 / v.cntfrq);
            &&& w.advance
            &&& !armed ==> a == Action::Exit(VcpuExit::WaitForEvent)
            &&& armed ==> {
                &&& a == Action::ReadSysReg(SysReg::CntvCvalEl0)
                &&& a1 == Action::ReadClock
                &&& now > cval ==> a2 == Action::Exit(VcpuExit::WaitForEventExpired)
                &&& now <= cval && ns < 0x1_0000_0000_0000_0000 ==> a2 == Action::Exit(
                    VcpuExit::WaitForEventTimeout(ns as u64),
                )
                &&& now <= cval && ns >= 0x1_0000_0000_0000_0000 ==> a2 == Action::Fail(
                    VcpuFault::Timeout,
                )
            }
        }),
{
}

/// A processor starts at its entry point with the device tree's address in its
/// first register, at the level that it was given, with its exceptions masked.
pub proof fn processors_start_at_their_entry(nested: bool, entry: u64, fdt: u64)
    ensures
        ({
            let s = initial_steps(nested, entry, fdt);
            let n = s.len() as int;
            &&& s[0] == InitStep::Reg(
                VcpuReg::Cpsr,
                if nested {
                    0x3c9
                } else {
                    0x3c5
                },
            )
            &&& s[n - 2] == InitStep::Reg(VcpuReg::Pc, entry)
            &&& s[n - 1] == InitStep::Reg(VcpuReg::X(0), fdt)
            &&& n == (if nested {
                7int
            } else {
                3
            })
            &&& nested ==> s[1] == InitStep::Sys(SysReg::HcrEl2, 0x8_807c_663f) && s[2]
                == InitStep::Sys(SysReg::CnthctlEl2, 3)
        }),
{
}

/// The interrupt controller's registers that are saved: its control, and for
/// every interrupt its group, priority, configuration, route, unless it is the
/// processor's own, and whether it is enabled.
#[verifier::rlimit(50)]
pub proof fn every_interrupt_is_saved(num: u32, i: int)
    requires
        num <= 1024,
        num % 32 == 0,
        0 <= i < num,
    ensures
        ({
            let r = distributor_regs(num);
            &&& r.contains(0)
            &&& r.contains((0x80 + 4 * (i / 32)) as u32)
            &&& r.contains((0x400 + 4 * (i / 4)) as u32)
            &&& r.contains((0xc00 + 4 * (i / 16)) as u32)
            &&& i >= 32 ==> r.contains((0x6000 + 8 * i) as u32)
            &&& r.contains((0x100 + 4 * (i / 32)) as u32)
            &&& irqs_of((num / 32 - 1) as u64) == num || num == 0
        }),
{
    let n = num as int;
    let r = distributor_regs(num);
    let g = offsets(0x80, 4, 0, n / 32);
    let p = offsets(0x400, 4, 0, n / 4);
    let c = offsets(0xc00, 4, 0, n / 16);
    let t = offsets(0x6000, 8, 32, n);
    let e = offsets(0x100, 4, 0, n / 32);
    let (gl, pl, cl, tl) = (g.len() as int, p.len() as int, c.len() as int, t.len() as int);
    assert(r[0] == 0);
    assert(i / 32 < n / 32 && i / 4 < n / 4 && i / 16 < n / 16);
    assert(r[1 + i / 32] == g[i / 32]);
    assert(r[1 + gl + i / 4] == p[i / 4]);
    assert(r[1 + gl + pl + i / 16] == c[i / 16]);
    if i >= 32 {
        assert(r[1 + gl + pl + cl + (i - 32)] == t[i - 32]);
        assert((32 + (i - 32)) * 8 == 8 * i);
    }
    assert(r[1 + gl + pl + cl + tl + i / 32] == e[i / 32]);
}

/// A machine that was paused does not see the time: the timer is set back by
/// the ticks that went by, as far as it goes.
pub proof fn paused_time_is_taken_off(offset: u64, delta_ns: u64, cntfrq: u64)
    ensures
        ({
            let r = frozen_offset(offset, delta_ns, cntfrq);
            let passed = delta_ns * cntfrq;
            r != u64::MAX ==> (r - offset) * 1_000_000_000 <= passed < (r - offset + 1)
                * 1_000_000_000
        }),
        frozen_offset(offset, delta_ns, cntfrq) >= offset,
{
    assert(delta_ns * cntfrq >= 0) by (nonlinear_arith);
}

} // verus!
