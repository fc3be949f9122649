//! Exceptions, interrupts and the trap-return bookkeeping.

use vstd::prelude::*;

use crate::cpu::{Cpu, Hart};
use crate::csr::{
    Csrs, MSTATUS_MIE, MSTATUS_MPIE, MSTATUS_MPP_MASK, MSTATUS_MPRV, MSTATUS_SIE, MSTATUS_SPIE,
    MSTATUS_SPP,
};
use crate::PrivMode;

verus! {

pub const INTERRUPT_BIT: u64 = 0x8000_0000_0000_0000;

/// Synchronous exceptions. The payload is the xtval value (faulting address,
/// or raw instruction bits for IllegalInstruction).
#[derive(Debug, Clone, Copy, PartialEq, Eq, Structural)]
pub enum Exception {
    InstrAddrMisaligned(u64),
    InstrAccessFault(u64),
    IllegalInstruction(u64),
    Breakpoint(u64),
    LoadAddrMisaligned(u64),
    LoadAccessFault(u64),
    StoreAddrMisaligned(u64),
    StoreAccessFault(u64),
    EcallFromU,
    EcallFromS,
    EcallFromM,
    InstrPageFault(u64),
    LoadPageFault(u64),
    StorePageFault(u64),
}

impl Exception {
    /// The exception's xcause code.
    pub open spec fn code_of(self) -> u64 {
        match self {
            Exception::InstrAddrMisaligned(_) => 0,
            Exception::InstrAccessFault(_) => 1,
            Exception::IllegalInstruction(_) => 2,
            Exception::Breakpoint(_) => 3,
            Exception::LoadAddrMisaligned(_) => 4,
            Exception::LoadAccessFault(_) => 5,
            Exception::StoreAddrMisaligned(_) => 6,
            Exception::StoreAccessFault(_) => 7,
            Exception::EcallFromU => 8,
            Exception::EcallFromS => 9,
            Exception::EcallFromM => 11,
            Exception::InstrPageFault(_) => 12,
            Exception::LoadPageFault(_) => 13,
            Exception::StorePageFault(_) => 15,
        }
    }

    /// The exception's xtval value; environment calls have none.
    pub open spec fn tval_of(self) -> u64 {
        match self {
            Exception::InstrAddrMisaligned(v) => v,
            Exception::InstrAccessFault(v) => v,
            Exception::IllegalInstruction(v) => v,
            Exception::Breakpoint(v) => v,
            Exception::LoadAddrMisaligned(v) => v,
            Exception::LoadAccessFault(v) => v,
            Exception::StoreAddrMisaligned(v) => v,
            Exception::StoreAccessFault(v) => v,
            Exception::InstrPageFault(v) => v,
            Exception::LoadPageFault(v) => v,
            Exception::StorePageFault(v) => v,
            _ => 0,
        }
    }

    /// The environment call made from `mode`.
    pub open spec fn ecall(mode: PrivMode) -> Exception {
        match mode {
            PrivMode::U => Exception::EcallFromU,
            PrivMode::S => Exception::EcallFromS,
            PrivMode::M => Exception::EcallFromM,
        }
    }

    pub fn code(self) -> (r: u64)
        ensures
            r == self.code_of(),
    {
        match self {
            Exception::InstrAddrMisaligned(_) => 0,
            Exception::InstrAccessFault(_) => 1,
            Exception::IllegalInstruction(_) => 2,
            Exception::Breakpoint(_) => 3,
            Exception::LoadAddrMisaligned(_) => 4,
            Exception::LoadAccessFault(_) => 5,
            Exception::StoreAddrMisaligned(_) => 6,
            Exception::StoreAccessFault(_) => 7,
            Exception::EcallFromU => 8,
            Exception::EcallFromS => 9,
            Exception::EcallFromM => 11,
            Exception::InstrPageFault(_) => 12,
            Exception::LoadPageFault(_) => 13,
            Exception::StorePageFault(_) => 15,
        }
    }

    pub fn tval(self) -> (r: u64)
        ensures
            r == self.tval_of(),
    {
        match self {
            Exception::InstrAddrMisaligned(v) => v,
            Exception::InstrAccessFault(v) => v,
            Exception::IllegalInstruction(v) => v,
            Exception::Breakpoint(v) => v,
            Exception::LoadAddrMisaligned(v) => v,
            Exception::LoadAccessFault(v) => v,
            Exception::StoreAddrMisaligned(v) => v,
            Exception::StoreAccessFault(v) => v,
            Exception::InstrPageFault(v) => v,
            Exception::LoadPageFault(v) => v,
            Exception::StorePageFault(v) => v,
            Exception::EcallFromU | Exception::EcallFromS | Exception::EcallFromM => 0,
        }
    }

    pub fn ecall_from(mode: PrivMode) -> (r: Self)
        ensures
            r == Exception::ecall(mode),
    {
        match mode {
            PrivMode::U => Exception::EcallFromU,
            PrivMode::S => Exception::EcallFromS,
            PrivMode::M => Exception::EcallFromM,
        }
    }
}

/// The mode that a stored xPP field names. 2 is never stored: MPP writes are
/// WARL-filtered and trap entry only records real modes.
pub open spec fn priv_of_bits(bits: u64) -> PrivMode {
    if bits == 0 {
        PrivMode::U
    } else if bits == 1 {
        PrivMode::S
    } else {
        PrivMode::M
    }
}

/// Where a trap with `cause` enters: the base, or in vectored mode four bytes
/// per interrupt cause above it.
pub open spec fn vector_of(tvec: u64, cause: u64) -> u64 {
    let base = tvec & !3;
    if tvec & 3 == 1 && cause & INTERRUPT_BIT != 0 {
        base.wrapping_add((4 * (cause & 0x3f)) as u64)
    } else {
        base
    }
}

/// Whether a trap taken in the hart's mode is delegated to S-mode.
pub open spec fn delegated(h: Hart, cause: u64) -> bool {
    let deleg = if cause & INTERRUPT_BIT != 0 {
        h.csrs.mideleg
    } else {
        h.csrs.medeleg
    };
    h.prv != PrivMode::M && deleg & (1u64 << (cause & 0x3f)) != 0
}

/// The hart after taking a trap.
pub open spec fn trapped(h: Hart, cause: u64, tval: u64, epc: u64) -> Hart {
    let m = h.csrs.mstatus;
    if delegated(h, cause) {
        let spp = if h.prv == PrivMode::S {
            MSTATUS_SPP
        } else {
            0
        };
        Hart {
            csrs: Csrs {
                scause: cause,
                sepc: epc & !1,
                stval: tval,
                mstatus: (m & !(MSTATUS_SIE | MSTATUS_SPIE | MSTATUS_SPP)) | (((m >> 1) & 1) << 5)
                    | spp,
                ..h.csrs
            },
            prv: PrivMode::S,
            pc: vector_of(h.csrs.stvec, cause),
            ..h
        }
    } else {
        Hart {
            csrs: Csrs {
                mcause: cause,
                mepc: epc & !1,
                mtval: tval,
                mstatus: (m & !(MSTATUS_MIE | MSTATUS_MPIE | MSTATUS_MPP_MASK)) | (((m >> 3) & 1)
                    << 7) | (h.prv.number() << 11),
                ..h.csrs
            },
            prv: PrivMode::M,
            pc: vector_of(h.csrs.mtvec, cause),
            ..h
        }
    }
}

/// The hart after taking exception `e` at `epc`.
pub open spec fn after_exception(h: Hart, e: Exception, epc: u64) -> Hart {
    trapped(h, e.code_of(), e.tval_of(), epc)
}

/// The hart after taking the interrupt with the given cause code.
pub open spec fn after_interrupt(h: Hart, code: u64) -> Hart {
    trapped(h, code | INTERRUPT_BIT, 0, h.pc)
}

pub open spec fn bit_set(v: u64, i: u64) -> bool {
    v & (1u64 << i) != 0
}

/// The highest-priority M-level interrupt in `pending`:
/// MEI > MSI > MTI > SEI > SSI > STI.
pub open spec fn m_priority(pending: u64) -> Option<u64> {
    if bit_set(pending, 11) {
        Some(11)
    } else if bit_set(pending, 3) {
        Some(3)
    } else if bit_set(pending, 7) {
        Some(7)
    } else {
        s_priority(pending)
    }
}

/// The highest-priority S-level interrupt in `pending`: SEI > SSI > STI.
pub open spec fn s_priority(pending: u64) -> Option<u64> {
    if bit_set(pending, 9) {
        Some(9)
    } else if bit_set(pending, 1) {
        Some(1)
    } else if bit_set(pending, 5) {
        Some(5)
    } else {
        None
    }
}

/// The interrupt that the hart takes next, if any: pending, enabled in mie,
/// and enabled globally at the level it is destined for. An undelegated
/// interrupt comes before every delegated one.
pub open spec fn next_interrupt(h: Hart) -> Option<u64> {
    let pending = (h.csrs.mip | h.mip_ext) & h.csrs.mie;
    let m_enabled = h.prv != PrivMode::M || h.csrs.mstatus & MSTATUS_MIE != 0;
    let s_enabled = h.prv == PrivMode::U || (h.prv == PrivMode::S && h.csrs.mstatus & MSTATUS_SIE
        != 0);
    match m_priority(pending & !h.csrs.mideleg) {
        Some(code) if m_enabled => Some(code),
        _ => if s_enabled {
            s_priority(pending & h.csrs.mideleg)
        } else {
            None
        },
    }
}

/// The hart after `mret`, but for pc.
pub open spec fn after_mret(h: Hart) -> Hart {
    let m = h.csrs.mstatus;
    let mpp = (m >> 11) & 3;
    let new = (m & !(MSTATUS_MIE | MSTATUS_MPIE | MSTATUS_MPP_MASK)) | (((m >> 7) & 1) << 3)
        | MSTATUS_MPIE;
    Hart {
        csrs: Csrs {
            mstatus: if mpp != 3 {
                new & !MSTATUS_MPRV
            } else {
                new
            },
            ..h.csrs
        },
        prv: priv_of_bits(mpp),
        ..h
    }
}

/// The hart after `sret`, but for pc.
pub open spec fn after_sret(h: Hart) -> Hart {
    let m = h.csrs.mstatus;
    Hart {
        csrs: Csrs {
            mstatus: (m & !(MSTATUS_SIE | MSTATUS_SPIE | MSTATUS_SPP | MSTATUS_MPRV)) | (((m >> 5)
                & 1) << 1) | MSTATUS_SPIE,
            ..h.csrs
        },
        prv: priv_of_bits((m >> 8) & 1),
        ..h
    }
}

fn priv_from_bits(bits: u64) -> (r: PrivMode)
    ensures
        r == priv_of_bits(bits),
{
    match bits {
        0 => PrivMode::U,
        1 => PrivMode::S,
        _ => PrivMode::M,
    }
}

proof fn lemma_cause_bits(v: u64)
    by (bit_vector)
    ensures
        v & 0x3f < 64,
        v & 0x3f <= 0x3f,
{
}

fn vector_target(tvec: u64, cause: u64) -> (r: u64)
    ensures
        r == vector_of(tvec, cause),
{
    proof {
        lemma_cause_bits(cause);
    }
    let base: u64 = tvec & !3;
    if tvec & 3 == 1 && cause & INTERRUPT_BIT != 0 {
        base.wrapping_add(4 * (cause & 0x3f))
    } else {
        base
    }
}

fn m_first(pending: u64) -> (r: Option<u64>)
    ensures
        r == m_priority(pending),
{
    if pending & (1u64 << 11u64) != 0 {
        Some(11)
    } else if pending & (1u64 << 3u64) != 0 {
        Some(3)
    } else if pending & (1u64 << 7u64) != 0 {
        Some(7)
    } else {
        s_first(pending)
    }
}

fn s_first(pending: u64) -> (r: Option<u64>)
    ensures
        r == s_priority(pending),
{
    if pending & (1u64 << 9u64) != 0 {
        Some(9)
    } else if pending & (1u64 << 1u64) != 0 {
        Some(1)
    } else if pending & (1u64 << 5u64) != 0 {
        Some(5)
    } else {
        None
    }
}

impl Cpu {
    pub fn take_exception(&mut self, e: Exception, epc: u64)
        requires
            old(self).wf(),
        ensures
            final(self).wf(),
            final(self)@ == after_exception(old(self)@, e, epc),
    {
        self.take_trap(e.code(), e.tval(), epc);
    }

    /// Standard interrupt priority: MEI > MSI > MTI > SEI > SSI > STI.
    /// Returns the interrupt cause code to take, if any.
    pub fn pending_interrupt(&self) -> (r: Option<u64>)
        ensures
            r == next_interrupt(self@),
    {
        let pending: u64 = self.effective_mip_snapshot() & self.csrs.mie;
        let mstatus: u64 = self.csrs.mstatus;
        let m_enabled: bool = self.priv_mode != PrivMode::M || (mstatus & MSTATUS_MIE != 0);
        if m_enabled {
            let code = m_first(pending & !self.csrs.mideleg);
            if code.is_some() {
                return code;
            }
        }
        let s_enabled: bool = self.priv_mode == PrivMode::U || (self.priv_mode == PrivMode::S
            && mstatus & MSTATUS_SIE != 0);
        if s_enabled {
            s_first(pending & self.csrs.mideleg)
        } else {
            None
        }
    }

    pub fn take_interrupt(&mut self, code: u64)
        requires
            old(self).wf(),
        ensures
            final(self).wf(),
            final(self)@ == after_interrupt(old(self)@, code),
    {
        let pc: u64 = self.pc;
        self.take_trap(code | INTERRUPT_BIT, 0, pc);
    }

    fn take_trap(&mut self, cause: u64, tval: u64, epc: u64)
        requires
            old(self).wf(),
        ensures
            final(self).wf(),
            final(self)@ == trapped(old(self)@, cause, tval, epc),
    {
        proof {
            lemma_cause_bits(cause);
        }
        let code: u64 = cause & 0x3f;
        let deleg: u64 = if cause & INTERRUPT_BIT != 0 {
            self.csrs.mideleg
        } else {
            self.csrs.medeleg
        };
        let to_s: bool = self.priv_mode != PrivMode::M && deleg & (1u64 << code) != 0;
        let m: u64 = self.csrs.mstatus;
        if to_s {
            self.csrs.scause = cause;
            self.csrs.sepc = epc & !1;
            self.csrs.stval = tval;
            let sie: u64 = (m >> 1) & 1;
            let spp: u64 = if self.priv_mode == PrivMode::S {
                MSTATUS_SPP
            } else {
                0
            };
            self.csrs.mstatus = (m & !(MSTATUS_SIE | MSTATUS_SPIE | MSTATUS_SPP)) | (sie << 5)
                | spp;
            self.priv_mode = PrivMode::S;
            self.pc = vector_target(self.csrs.stvec, cause);
        } else {
            self.csrs.mcause = cause;
            self.csrs.mepc = epc & !1;
            self.csrs.mtval = tval;
            let mie: u64 = (m >> 3) & 1;
            let mpp: u64 = self.priv_mode.bits() << 11;
            self.csrs.mstatus = (m & !(MSTATUS_MIE | MSTATUS_MPIE | MSTATUS_MPP_MASK)) | (mie << 7)
                | mpp;
            self.priv_mode = PrivMode::M;
            self.pc = vector_target(self.csrs.mtvec, cause);
        }
    }

    /// mret bookkeeping; returns the target pc.
    pub fn do_mret(&mut self) -> (r: u64)
        requires
            old(self).wf(),
        ensures
            final(self).wf(),
            final(self)@ == after_mret(old(self)@),
            r == old(self)@.csrs.mepc,
    {
        let m: u64 = self.csrs.mstatus;
        let mpp: u64 = (m >> 11) & 3;
        let mpie: u64 = (m >> 7) & 1;
        let new: u64 = (m & !(MSTATUS_MIE | MSTATUS_MPIE | MSTATUS_MPP_MASK)) | (mpie << 3)
            | MSTATUS_MPIE;
        self.csrs.mstatus = if mpp != 3 {
            new & !MSTATUS_MPRV
        } else {
            new
        };
        self.priv_mode = priv_from_bits(mpp);
        self.csrs.mepc
    }

    /// sret bookkeeping; returns the target pc.
    pub fn do_sret(&mut self) -> (r: u64)
        requires
            old(self).wf(),
        ensures
            final(self).wf(),
            final(self)@ == after_sret(old(self)@),
            r == old(self)@.csrs.sepc,
    {
        let m: u64 = self.csrs.mstatus;
        let spp: u64 = (m >> 8) & 1;
        let spie: u64 = (m >> 5) & 1;
        self.csrs.mstatus = (m & !(MSTATUS_SIE | MSTATUS_SPIE | MSTATUS_SPP | MSTATUS_MPRV)) | (spie
            << 1) | MSTATUS_SPIE;
        self.priv_mode = priv_from_bits(spp);
        self.csrs.sepc
    }
}

} // verus!
