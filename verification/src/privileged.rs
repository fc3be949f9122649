//! The privileged architecture as software sees it: what a register reads as
//! after it was written, where a trap goes and what it leaves behind, and which
//! interrupt is taken.

use vstd::prelude::*;

use crate::cpu::{with_x, Hart, Observed};
use crate::csr::{csr_value, csr_written};
use crate::decode::{CsrOp, Instr};
use crate::exec::{csr_executed, system_executed};
use crate::mmu::{access_fault_of, page_fault_of, Access};
use crate::semantics::bit_at;
use crate::trap::{delegated, next_interrupt, trapped, Exception};
use crate::PrivMode;

verus! {

/// The number of a mode: user, supervisor and machine are 0, 1 and 3.
pub open spec fn level(p: PrivMode) -> u64 {
    match p {
        PrivMode::U => 0,
        PrivMode::S => 1,
        PrivMode::M => 3,
    }
}

/// The bits of a register that a write sets, of those registers that hold what
/// is written and nothing else.
pub open spec fn kept_bits(addr: u16) -> Option<u64> {
    if addr == 0x10a || addr == 0x140 || addr == 0x142 || addr == 0x143 || addr == 0x30a || addr
        == 0x340 || addr == 0x342 || addr == 0x343 {
        Some(0xffff_ffff_ffff_ffff)
    } else if addr == 0x141 || addr == 0x341 {
        Some(0xffff_ffff_ffff_fffe)
    } else if addr == 0x106 || addr == 0x306 || addr == 0x320 {
        Some(0xffff_ffff)
    } else if addr == 0x302 {
        Some(0xb3ff)
    } else if addr == 0x303 {
        Some(0x222)
    } else if addr == 0x304 {
        Some(0xaaa)
    } else {
        None
    }
}

/// A register that holds what is written reads as what was written last, in
/// the bits that it has, and a write to it changes no other of them.
#[verifier::rlimit(50)]
pub proof fn registers_read_back(h: Hart, addr: u16, other: u16, val: u64, o: Observed)
    requires
        kept_bits(addr) is Some,
        kept_bits(other) is Some,
        h.prv == PrivMode::M,
        other != addr,
    ensures
        csr_written(h, addr, val) matches Some(h1) && csr_value(h1, addr, o) == Some(
            val & kept_bits(addr)->0,
        ) && csr_value(h1, other, o) == csr_value(h, other, o) && csr_value(h, other, o) is Some
            && h1 == (Hart { csrs: h1.csrs, ..h }),
{
    reveal(csr_written);
    reveal(csr_value);
    lemma_register_masks(val, 0);
}

proof fn lemma_register_masks(val: u64, m: u64)
    by (bit_vector)
    ensures
        val & 0xffff_ffff_ffff_ffff == val,
        val & !1 == val & 0xffff_ffff_ffff_fffe,
        ((m & !0x1f) | (val & 0x1f)) & 0x1f == val % 32,
        (((m & !0x1f) | (val & 0x1f)) >> 5) & 7 == (m >> 5) & 7,
        (((m & !0xe0) | ((val & 7) << 5)) >> 5) & 7 == val % 8,
        ((m & !0xe0) | ((val & 7) << 5)) & 0x1f == m & 0x1f,
        (val & 0xff) & 0xff == val % 256,
        (val & 0xff) & 0x1f == val % 32,
        ((val & 0xff) >> 5) & 7 == val / 32 % 8,
        (0x300u16 >> 8) & 3 == 3,
        (0x100u16 >> 8) & 3 == 1,
        (0x344u16 >> 8) & 3 == 3,
        (0x144u16 >> 8) & 3 == 1,
        (0x104u16 >> 8) & 3 == 1,
        (0x10au16 >> 8) & 3 == 1,
        (0x140u16 >> 8) & 3 == 1,
        (0x141u16 >> 8) & 3 == 1,
        (0x142u16 >> 8) & 3 == 1,
        (0x143u16 >> 8) & 3 == 1,
        (0x106u16 >> 8) & 3 == 1,
        (0x30au16 >> 8) & 3 == 3,
        (0x340u16 >> 8) & 3 == 3,
        (0x341u16 >> 8) & 3 == 3,
        (0x342u16 >> 8) & 3 == 3,
        (0x343u16 >> 8) & 3 == 3,
        (0x306u16 >> 8) & 3 == 3,
        (0x320u16 >> 8) & 3 == 3,
        (0x302u16 >> 8) & 3 == 3,
        (0x303u16 >> 8) & 3 == 3,
        (0x304u16 >> 8) & 3 == 3,
{
}

/// A register is there for its own mode and those above it: its address says
/// which. Those from 0xc00 on cannot be written.
pub proof fn registers_have_a_mode(h: Hart, addr: u16, val: u64, o: Observed)
    requires
        addr < 0x1000,
    ensures
        level(h.prv) < addr / 0x100 % 4 ==> csr_value(h, addr, o) is None && csr_written(
            h,
            addr,
            val,
        ) is None,
        addr >= 0xc00 ==> csr_written(h, addr, val) is None,
{
    reveal(csr_written);
    reveal(csr_value);
    lemma_mode_bits(addr);
}

pub(crate) proof fn lemma_mode_bits(addr: u16)
    by (bit_vector)
    ensures
        (addr >> 8) & 3 == addr / 0x100 % 4,
{
}

/// The status register: a write sets the bits that are there, but not the
/// reserved mode in bits 12:11, and leaves the others alone. The supervisor
/// sees and sets its own part of it.
#[verifier::rlimit(50)]
pub proof fn the_status_register_reads_back(h: Hart, val: u64, o: Observed, i: u64)
    requires
        h.prv == PrivMode::M,
        i < 64,
    ensures
        csr_written(h, 0x300, val) matches Some(h1) && csr_value(h1, 0x300, o) matches Some(now)
            && csr_value(h, 0x300, o) matches Some(before) && h1 == (Hart { csrs: h1.csrs, ..h }) && {
            let (reserved, machine) = (
                bit_at(val, 11) == 0 && bit_at(val, 12) == 1,
                i == 1 || i == 3 || i == 5 || i == 7 || i == 8 || i == 13 || i == 14 || (17 <= i
                    <= 22),
            );
            &&& machine ==> bit_at(now, i) == bit_at(val, i)
            &&& i == 11 || i == 12 ==> bit_at(now, i) == bit_at(
                if reserved {
                    before
                } else {
                    val
                },
                i,
            )
            &&& !machine && i != 11 && i != 12 && i != 63 ==> bit_at(now, i) == bit_at(before, i)
            &&& bit_at(now, 63) == (if bit_at(now, 13) == 1 && bit_at(now, 14) == 1 {
                1
            } else {
                bit_at(h1.csrs.mstatus, 63)
            })
        },
        csr_written(h, 0x100, val) matches Some(h1) && csr_value(h1, 0x100, o) matches Some(now)
            && csr_value(h1, 0x300, o) matches Some(full) && csr_value(h, 0x300, o) matches Some(
            before,
        ) && h1 == (Hart { csrs: h1.csrs, ..h }) && {
            let supervisor = i == 1 || i == 5 || i == 8 || i == 13 || i == 14 || i == 18 || i == 19;
            &&& supervisor ==> bit_at(now, i) == bit_at(val, i) && bit_at(full, i) == bit_at(val, i)
            &&& !supervisor && i != 63 ==> bit_at(full, i) == bit_at(before, i)
            &&& !supervisor && i != 63 && i != 32 && i != 33 ==> bit_at(now, i) == 0
        },
{
    reveal(csr_written);
    reveal(csr_value);
    lemma_register_masks(val, 0);
    lemma_status_bits(h.csrs.mstatus, val, i);
}

proof fn lemma_status_bits(m: u64, val: u64, i: u64)
    by (bit_vector)
    requires
        i < 64,
    ensures
        ({
            let n = (m & !0x7e_79aau64) | (val & 0x7e_79aau64);
            let w = if n & 0x1800 == 0x1000 {
                (n & !0x1800u64) | (m & 0x1800)
            } else {
                n
            };
            let now = if w & 0x6000 == 0x6000 {
                w | 0xa_0000_0000u64 | 0x8000_0000_0000_0000u64
            } else {
                w | 0xa_0000_0000u64
            };
            let before = if m & 0x6000 == 0x6000 {
                m | 0xa_0000_0000u64 | 0x8000_0000_0000_0000u64
            } else {
                m | 0xa_0000_0000u64
            };
            let s = (m & !0xc_6122u64) | (val & 0xc_6122u64);
            let full = if s & 0x6000 == 0x6000 {
                s | 0xa_0000_0000u64 | 0x8000_0000_0000_0000u64
            } else {
                s | 0xa_0000_0000u64
            };
            let seen = full & (0xc_6122u64 | 0x3_0000_0000u64 | 0x8000_0000_0000_0000u64);
            let reserved = (val >> 11) & 1 == 0 && (val >> 12) & 1 == 1;
            let machine = i == 1 || i == 3 || i == 5 || i == 7 || i == 8 || i == 13 || i == 14 || (17
                <= i && i <= 22);
            let supervisor = i == 1 || i == 5 || i == 8 || i == 13 || i == 14 || i == 18 || i == 19;
            &&& machine ==> (now >> i) & 1 == (val >> i) & 1
            &&& i == 11 || i == 12 ==> (now >> i) & 1 == (if reserved {
                (before >> i) & 1
            } else {
                (val >> i) & 1
            })
            &&& !machine && i != 11 && i != 12 && i != 63 ==> (now >> i) & 1 == (before >> i) & 1
            &&& (now >> 63) & 1 == (if (now >> 13) & 1 == 1 && (now >> 14) & 1 == 1 {
                1
            } else {
                (w >> 63) & 1
            })
            &&& supervisor ==> (seen >> i) & 1 == (val >> i) & 1 && (full >> i) & 1 == (val >> i) & 1
            &&& !supervisor && i != 63 ==> (full >> i) & 1 == (before >> i) & 1
            &&& !supervisor && i != 63 && i != 32 && i != 33 ==> (seen >> i) & 1 == 0
        }),
{
}

/// The interrupt registers: software sets the supervisor's pending bits from
/// machine mode, and sees the lines beside them; the supervisor's view is what
/// was delegated to it, of which it sets its software interrupt and the
/// enabling bits.
#[verifier::rlimit(50)]
pub proof fn the_interrupt_registers_read_back(h: Hart, val: u64, o: Observed, i: u64)
    requires
        h.prv == PrivMode::M,
        i < 64,
    ensures
        csr_written(h, 0x344, val) matches Some(h1) && csr_value(h1, 0x344, o) matches Some(now)
            && h1 == (Hart { csrs: h1.csrs, ..h }) && (bit_at(now, i) == 1 <==> bit_at(o.lines, i)
            == 1 || (bit_at(val, i) == 1 && (i == 1 || i == 5 || i == 9))),
        csr_written(h, 0x144, val) matches Some(h1) && csr_value(h1, 0x144, o) matches Some(now)
            && csr_value(h, 0x344, o) matches Some(before) && csr_value(h1, 0x344, o) matches Some(
            full,
        ) && h1 == (Hart { csrs: h1.csrs, ..h }) && {
            let mine = bit_at(h.csrs.mideleg, i) == 1;
            &&& bit_at(now, i) == 1 <==> mine && bit_at(full, i) == 1
            &&& i == 1 && mine ==> (bit_at(full, 1) == 1 <==> bit_at(val, 1) == 1 || bit_at(
                o.lines,
                1,
            ) == 1)
            &&& i != 1 || !mine ==> bit_at(full, i) == bit_at(before, i)
        },
        csr_written(h, 0x104, val) matches Some(h1) && csr_value(h1, 0x104, o) matches Some(now)
            && csr_value(h, 0x304, o) matches Some(before) && csr_value(h1, 0x304, o) matches Some(
            full,
        ) && h1 == (Hart { csrs: h1.csrs, ..h }) && {
            let mine = bit_at(h.csrs.mideleg, i) == 1 && i < 12 && i % 2 == 1;
            &&& bit_at(now, i) == 1 <==> bit_at(h.csrs.mideleg, i) == 1 && bit_at(full, i) == 1
            &&& mine ==> bit_at(full, i) == bit_at(val, i)
            &&& !mine ==> bit_at(full, i) == bit_at(before, i)
        },
{
    reveal(csr_written);
    reveal(csr_value);
    lemma_register_masks(val, 0);
    lemma_interrupt_bits(h.csrs.mip, val, o.lines, h.csrs.mideleg, i);
    lemma_interrupt_bits(h.csrs.mie, val, 0, h.csrs.mideleg, i);
}

proof fn lemma_interrupt_bits(mip: u64, val: u64, lines: u64, d: u64, i: u64)
    by (bit_vector)
    requires
        i < 64,
    ensures
        ({
            let own = 0x2u64 & d;
            let full = ((mip & !own) | (val & own)) | lines;
            let mask = d & 0xaaau64;
            let mie = (mip & !mask) | (val & mask);
            let odd = (d >> i) & 1 == 1 && i < 12 && i % 2 == 1;
            &&& ((((val & 0x222u64) | lines) >> i) & 1 == 1) == ((lines >> i) & 1 == 1 || ((val >> i)
                & 1 == 1 && (i == 1 || i == 5 || i == 9)))
            &&& (((full & d) >> i) & 1 == 1) == ((d >> i) & 1 == 1 && (full >> i) & 1 == 1)
            &&& i == 1 && (d >> i) & 1 == 1 ==> ((full >> 1) & 1 == 1) == ((val >> 1) & 1 == 1 || (
            lines >> 1) & 1 == 1)
            &&& i != 1 || (d >> i) & 1 != 1 ==> (full >> i) & 1 == ((mip | lines) >> i) & 1
            &&& (((mie & d) >> i) & 1 == 1) == ((d >> i) & 1 == 1 && (mie >> i) & 1 == 1)
            &&& odd ==> (mie >> i) & 1 == (val >> i) & 1
            &&& !odd ==> (mie >> i) & 1 == (mip >> i) & 1
        }),
{
}

/// A trap vector takes a base and one of two modes; with another mode it keeps
/// the one that it had.
pub proof fn trap_vectors_read_back(h: Hart, val: u64, o: Observed)
    requires
        h.prv == PrivMode::M,
    ensures
        forall|addr: u16|
            addr == 0x105 || addr == 0x305 ==> (#[trigger] csr_written(h, addr, val) matches Some(h1)
                && csr_value(h1, addr, o) matches Some(now) && csr_value(h, addr, o) matches Some(
                before,
            ) && h1 == (Hart { csrs: h1.csrs, ..h }) && now / 4 == val / 4 && now % 4 == (if val % 4
                < 2 {
                val % 4
            } else {
                before % 4
            })),
{
    reveal(csr_written);
    reveal(csr_value);
    lemma_mode_bits(0x105);
    lemma_mode_bits(0x305);
    lemma_vector_bits(h.csrs.stvec, val);
    lemma_vector_bits(h.csrs.mtvec, val);
}

proof fn lemma_vector_bits(t: u64, val: u64)
    by (bit_vector)
    ensures
        val & 3 == val % 4,
        val & !3 == val - val % 4,
        ((val & !3) | (t & 3)) / 4 == val / 4,
        ((val & !3) | (t & 3)) % 4 == t % 4,
        val & 0x3f == val % 64,
        (val & 0x8000_0000_0000_0000u64 != 0u64) == (val >= 0x8000_0000_0000_0000),
        val & !1 == val - val % 2,
{
}

/// Whether a trap goes to the supervisor: never one out of machine mode, and
/// else where the bit of its cause is set among those delegated.
pub open spec fn to_supervisor(h: Hart, cause: u64) -> bool {
    h.prv != PrivMode::M && bit_at(
        if cause >= 0x8000_0000_0000_0000 {
            h.csrs.mideleg
        } else {
            h.csrs.medeleg
        },
        cause % 64,
    ) == 1
}

/// Where a vector leads: to its base, and in its second mode for an interrupt
/// to one instruction per cause.
pub open spec fn vectored(tvec: u64, cause: u64) -> int {
    let base = tvec - tvec % 4;
    if tvec % 4 == 1 && cause >= 0x8000_0000_0000_0000 {
        (base + 4 * (cause % 64)) % 0x1_0000_0000_0000_0000
    } else {
        base as int
    }
}

/// A trap enters the mode that it is delegated to, at that mode's vector, and
/// leaves in that mode's registers its cause, its value, where it came from,
/// the mode that it interrupted and whether that mode's interrupts were on,
/// which are off now. Nothing else changes.
#[verifier::rlimit(50)]
pub proof fn traps_enter_their_mode(h: Hart, cause: u64, tval: u64, epc: u64, i: u64)
    requires
        i < 64,
    ensures
        ({
            let t = trapped(h, cause, tval, epc);
            let (m, n) = (h.csrs.mstatus, t.csrs.mstatus);
            &&& t == (Hart { csrs: t.csrs, prv: t.prv, pc: t.pc, ..h })
            &&& to_supervisor(h, cause) ==> {
                &&& t.prv == PrivMode::S
                &&& t.pc == vectored(h.csrs.stvec, cause)
                &&& t.csrs.scause == cause
                &&& t.csrs.stval == tval
                &&& t.csrs.sepc == epc - epc % 2
                &&& bit_at(n, 1) == 0
                &&& bit_at(n, 5) == bit_at(m, 1)
                &&& bit_at(n, 8) == level(h.prv)
                &&& i != 1 && i != 5 && i != 8 ==> bit_at(n, i) == bit_at(m, i)
                &&& t.csrs == (crate::csr::Csrs {
                    scause: cause,
                    stval: tval,
                    sepc: t.csrs.sepc,
                    mstatus: n,
                    ..h.csrs
                })
            }
            &&& !to_supervisor(h, cause) ==> {
                &&& t.prv == PrivMode::M
                &&& t.pc == vectored(h.csrs.mtvec, cause)
                &&& t.csrs.mcause == cause
                &&& t.csrs.mtval == tval
                &&& t.csrs.mepc == epc - epc % 2
                &&& bit_at(n, 3) == 0
                &&& bit_at(n, 7) == bit_at(m, 3)
                &&& bit_at(n, 11) + 2 * bit_at(n, 12) == level(h.prv)
                &&& i != 3 && i != 7 && i != 11 && i != 12 ==> bit_at(n, i) == bit_at(m, i)
                &&& t.csrs == (crate::csr::Csrs {
                    mcause: cause,
                    mtval: tval,
                    mepc: t.csrs.mepc,
                    mstatus: n,
                    ..h.csrs
                })
            }
        }),
{
    let deleg = if cause >= 0x8000_0000_0000_0000 {
        h.csrs.mideleg
    } else {
        h.csrs.medeleg
    };
    lemma_vector_bits(0, cause);
    lemma_vector_bits(0, epc);
    lemma_vector_bits(0, h.csrs.stvec);
    lemma_vector_bits(0, h.csrs.mtvec);
    lemma_trap_bits(h.csrs.mstatus, level(h.prv), i, deleg, cause % 64);
    assert(delegated(h, cause) == to_supervisor(h, cause));
}

proof fn lemma_trap_bits(m: u64, p: u64, i: u64, d: u64, c: u64)
    by (bit_vector)
    requires
        i < 64,
        p <= 3,
        c < 64,
    ensures
        (d & (1u64 << c) != 0) == ((d >> c) & 1 == 1),
        (d | 0x6000) & 0x6000 == 0x6000,
        1u64 << 1u64 == 0x2,
        1u64 << 3u64 == 0x8,
        1u64 << 20u64 == 0x10_0000,
        1u64 << 21u64 == 0x20_0000,
        1u64 << 22u64 == 0x40_0000,
        ({
            let n = (m & !(0x2u64 | 0x20 | 0x100)) | (((m >> 1) & 1) << 5) | ((p & 1) << 8);
            &&& p == 0 ==> n == (m & !(0x2u64 | 0x20 | 0x100)) | (((m >> 1) & 1) << 5) | 0
            &&& p == 1 ==> n == (m & !(0x2u64 | 0x20 | 0x100)) | (((m >> 1) & 1) << 5) | 0x100
            &&& (n >> 1) & 1 == 0
            &&& (n >> 5) & 1 == (m >> 1) & 1
            &&& (n >> 8) & 1 == p & 1
            &&& p <= 1 ==> p & 1 == p
            &&& i != 1 && i != 5 && i != 8 ==> (n >> i) & 1 == (m >> i) & 1
        }),
        ({
            let n = (m & !(0x8u64 | 0x80 | 0x1800)) | (((m >> 3) & 1) << 7) | (p << 11);
            &&& (n >> 3) & 1 == 0
            &&& (n >> 7) & 1 == (m >> 3) & 1
            &&& (n >> 11) & 1 == p & 1
            &&& ((n >> 11) & 1) + 2 * ((n >> 12) & 1) == p
            &&& i != 3 && i != 7 && i != 11 && i != 12 ==> (n >> i) & 1 == (m >> i) & 1
        }),
{
}

/// The order in which interrupts are taken: external before software before
/// timer, and the machine's before the supervisor's.
pub open spec fn rank(c: u64) -> int {
    if c == 11 {
        0
    } else if c == 3 {
        1
    } else if c == 7 {
        2
    } else if c == 9 {
        3
    } else if c == 1 {
        4
    } else {
        5
    }
}

/// Whether an interrupt can be taken: it is pending and enabled, and the mode
/// that it goes to lies above, or has its interrupts on.
pub open spec fn deliverable(h: Hart, c: u64) -> bool {
    &&& c < 12 && c % 2 == 1
    &&& bit_at(h.csrs.mip, c) == 1 || bit_at(h.mip_ext, c) == 1
    &&& bit_at(h.csrs.mie, c) == 1
    &&& if bit_at(h.csrs.mideleg, c) == 1 {
        h.prv == PrivMode::U || (h.prv == PrivMode::S && bit_at(h.csrs.mstatus, 1) == 1)
    } else {
        h.prv != PrivMode::M || bit_at(h.csrs.mstatus, 3) == 1
    }
}

/// The interrupt that is taken can be taken, and no other that can be comes
/// before it: those of the machine come before those delegated, and among
/// either the order of rank decides. None is taken only where none can be.
#[verifier::rlimit(50)]
pub proof fn the_first_interrupt_is_taken(h: Hart, d: u64)
    requires
        forall|c: u64| c < 64 && #[trigger] bit_at(h.csrs.mideleg, c) == 1 ==> c == 1 || c == 5 || c == 9,
    ensures
        next_interrupt(h) is None ==> !deliverable(h, d),
        next_interrupt(h) matches Some(c) ==> deliverable(h, c) && (deliverable(h, d) ==> {
            let (cs, ds) = (bit_at(h.csrs.mideleg, c), bit_at(h.csrs.mideleg, d));
            cs < ds || (cs == ds && rank(c) <= rank(d))
        }),
{
    let (p, e, q, g) = (h.csrs.mip, h.mip_ext, h.csrs.mie, h.csrs.mideleg);
    lemma_pending_bits(p, e, q, g, 1);
    lemma_pending_bits(p, e, q, g, 3);
    lemma_pending_bits(p, e, q, g, 5);
    lemma_pending_bits(p, e, q, g, 7);
    lemma_pending_bits(p, e, q, g, 9);
    lemma_pending_bits(p, e, q, g, 11);
    lemma_trap_bits(0, 0, 0, h.csrs.mstatus, 1);
    lemma_trap_bits(0, 0, 0, h.csrs.mstatus, 3);
    assert(bit_at(g, 3) != 1 && bit_at(g, 7) != 1 && bit_at(g, 11) != 1);
    if d < 12 && d % 2 == 1 {
        assert(d == 1 || d == 3 || d == 5 || d == 7 || d == 9 || d == 11);
    }
}

proof fn lemma_stays_on(m: u64)
    requires
        m & 0x6000 != 0,
    ensures
        (m | 0x6000) & 0x6000 != 0,
{
    lemma_trap_bits(0, 0, 0, m, 0);
}

proof fn lemma_pending_bits(p: u64, e: u64, q: u64, g: u64, c: u64)
    by (bit_vector)
    requires
        c < 64,
    ensures
        ((((p | e) & q) & !g) & (1u64 << c) != 0) == (((p >> c) & 1 == 1 || (e >> c) & 1 == 1) && (q
            >> c) & 1 == 1 && (g >> c) & 1 != 1),
        ((((p | e) & q) & g) & (1u64 << c) != 0) == (((p >> c) & 1 == 1 || (e >> c) & 1 == 1) && (q
            >> c) & 1 == 1 && (g >> c) & 1 == 1),
        (g >> c) & 1 <= 1,
{
}

/// How a kind of access counts in the codes of its faults.
pub open spec fn kind_code(a: Access) -> u64 {
    match a {
        Access::Fetch => 0,
        Access::Read => 1,
        Access::Write => 3,
    }
}

/// The codes of exceptions: page faults are counted from 12 by the kind of
/// access, environment calls from 8 by mode, and of the eight below, in pairs
/// by the kind of access, misalignment is even and an access fault follows it.
/// A fault of memory names the address.
pub proof fn exceptions_have_their_codes(a: Access, p: PrivMode, va: u64)
    ensures
        page_fault_of(a, va).code_of() == 12 + kind_code(a),
        page_fault_of(a, va).tval_of() == va,
        access_fault_of(a, va).code_of() == (if a == Access::Fetch {
            1
        } else {
            2 * kind_code(a) + if a == Access::Read {
                3int
            } else {
                1
            }
        }),
        access_fault_of(a, va).tval_of() == va,
        Exception::ecall(p).code_of() == 8 + level(p),
        Exception::ecall(p).tval_of() == 0,
        Exception::InstrAddrMisaligned(va).code_of() + 1 == access_fault_of(
            Access::Fetch,
            va,
        ).code_of(),
        Exception::LoadAddrMisaligned(va).code_of() + 1 == access_fault_of(
            Access::Read,
            va,
        ).code_of(),
        Exception::StoreAddrMisaligned(va).code_of() + 1 == access_fault_of(
            Access::Write,
            va,
        ).code_of(),
        Exception::IllegalInstruction(va).code_of() == 2,
        Exception::Breakpoint(va).code_of() == 3,
        Exception::InstrAddrMisaligned(va).tval_of() == va,
        Exception::LoadAddrMisaligned(va).tval_of() == va,
        Exception::StoreAddrMisaligned(va).tval_of() == va,
        Exception::IllegalInstruction(va).tval_of() == va,
        Exception::Breakpoint(va).tval_of() == va,
{
}

/// The instructions on control registers read the register before they write
/// it, write the operand, the register with the operand's bits set, or with
/// them cleared, and with no operand the latter two do not write at all.
pub proof fn register_instructions_read_before_they_write(
    h: Hart,
    rd: u8,
    rs1: u8,
    csr: u16,
    imm: bool,
    raw: u32,
    next: u64,
    o: Observed,
)
    requires
        rs1 < 32,
    ensures
        ({
            let src = if imm {
                rs1 as u64
            } else {
                h.x[rs1 as int]
            };
            let run = |op: CsrOp| csr_executed(h, op, rd, rs1, csr, imm, raw, next, o);
            let on = |op: CsrOp, v: u64|
                match (csr_value(h, csr, o), csr_written(h, csr, v)) {
                    (Some(before), Some(h1)) => run(op).1 == Ok::<Option<crate::VmExit>, Exception>(
                        None,
                    ) && run(op).0 == (Hart {
                        pc: next,
                        instret: h1.instret.wrapping_add(1),
                        ..with_x(h1, rd, before)
                    }),
                    _ => run(op) == (
                        h,
                        Err::<Option<crate::VmExit>, Exception>(
                            Exception::IllegalInstruction(raw as u64),
                        ),
                    ),
                };
            &&& on(CsrOp::Rw, src)
            &&& rs1 != 0 ==> (csr_value(h, csr, o) matches Some(before) ==> on(
                CsrOp::Rs,
                before | src,
            ) && on(CsrOp::Rc, before & !src))
            &&& rs1 == 0 ==> forall|op: CsrOp|
                op != CsrOp::Rw ==> (csr_value(h, csr, o) matches Some(before) ==> #[trigger] run(
                    op,
                ) == (
                    Hart {
                        pc: next,
                        instret: h.instret.wrapping_add(1),
                        ..with_x(h, rd, before)
                    },
                    Ok::<Option<crate::VmExit>, Exception>(None),
                ))
        }),
{
    reveal(csr_executed);
}

/// What only a privileged mode may do: user mode may neither return from a
/// trap, wait, nor fence translations, the supervisor where the machine has
/// not withheld it, and machine mode always; a machine's return is for the
/// machine alone. What is withheld is an illegal instruction.
pub proof fn privileged_instructions_need_their_mode(
    h: Hart,
    raw: u32,
    pc: u64,
    next: u64,
    o: Observed,
)
    ensures
        ({
            let illegal = (
                h,
                Err::<Option<crate::VmExit>, Exception>(Exception::IllegalInstruction(raw as u64)),
            );
            let run = |i: Instr| system_executed(h, i, raw, pc, next, o);
            let may = |place: u64|
                h.prv == PrivMode::M || (h.prv == PrivMode::S && bit_at(h.csrs.mstatus, place) == 0);
            &&& h.prv != PrivMode::M ==> run(Instr::Mret) == illegal
            &&& h.prv == PrivMode::M ==> run(Instr::Mret).1 is Ok && run(Instr::Mret).0.pc
                == h.csrs.mepc
            &&& !may(22) ==> run(Instr::Sret) == illegal
            &&& may(22) ==> run(Instr::Sret).1 is Ok && run(Instr::Sret).0.pc == h.csrs.sepc
            &&& !may(21) ==> run(Instr::Wfi) == illegal
            &&& may(21) ==> run(Instr::Wfi).1 is Ok && run(Instr::Wfi).0 == (Hart {
                pc: next,
                instret: h.instret.wrapping_add(1),
                ..h
            })
            &&& may(21) ==> (run(Instr::Wfi).1 == Ok::<Option<crate::VmExit>, Exception>(
                Some(crate::VmExit::Wfi),
            ) <==> (h.csrs.mip | o.lines) & h.csrs.mie == 0)
            &&& !may(20) ==> run(Instr::SfenceVma) == illegal
            &&& may(20) ==> run(Instr::SfenceVma).1 is Ok
            &&& run(Instr::Ebreak) == (
                h,
                Err::<Option<crate::VmExit>, Exception>(Exception::Breakpoint(pc)),
            )
            &&& !(h.prv == PrivMode::S && h.sbi_mode) ==> run(Instr::Ecall) == (
                h,
                Err::<Option<crate::VmExit>, Exception>(Exception::ecall(h.prv)),
            )
            &&& h.prv == PrivMode::S && h.sbi_mode ==> run(Instr::Ecall) == (
                Hart { pc: next, instret: h.instret.wrapping_add(1), ..h },
                Ok::<Option<crate::VmExit>, Exception>(
                    Some(crate::VmExit::Ecall { from: PrivMode::S }),
                ),
            )
        }),
{
    reveal(system_executed);
    lemma_trap_bits(0, 0, 0, h.csrs.mstatus, 20);
    lemma_trap_bits(0, 0, 0, h.csrs.mstatus, 21);
    lemma_trap_bits(0, 0, 0, h.csrs.mstatus, 22);
    lemma_pending_bits(0, 0, 0, h.csrs.mstatus, 20);
    lemma_pending_bits(0, 0, 0, h.csrs.mstatus, 21);
    lemma_pending_bits(0, 0, 0, h.csrs.mstatus, 22);
}

/// The floating-point control register is its flags, five bits, and above them
/// its rounding mode, three; either can be set and read by itself.
#[verifier::rlimit(50)]
pub proof fn the_control_register_has_two_fields(h: Hart, val: u64, o: Observed)
    requires
        h.csrs.mstatus & 0x6000 != 0,
    ensures
        csr_written(h, 1, val) matches Some(h1) && csr_value(h1, 1, o) == Some(
            (val % 32) as u64,
        ) && csr_value(h1, 2, o) == csr_value(h, 2, o),
        csr_written(h, 2, val) matches Some(h1) && csr_value(h1, 2, o) == Some(
            (val % 8) as u64,
        ) && csr_value(h1, 1, o) == csr_value(h, 1, o),
        csr_written(h, 3, val) matches Some(h1) && csr_value(h1, 3, o) == Some(
            (val % 256) as u64,
        ) && csr_value(h1, 1, o) == Some((val % 32) as u64) && csr_value(h1, 2, o) == Some(
            (val / 32 % 8) as u64,
        ),
{
    let f = h.csrs.fcsr;
    lemma_control_written(h, val);
    lemma_stays_on(h.csrs.mstatus);
    lemma_control_read(h, o);
    lemma_control_read(csr_written(h, 1, val)->0, o);
    lemma_control_read(csr_written(h, 2, val)->0, o);
    lemma_control_read(csr_written(h, 3, val)->0, o);
    lemma_register_masks(val, f);
}

proof fn lemma_control_read(h: Hart, o: Observed)
    requires
        h.csrs.mstatus & 0x6000 != 0,
    ensures
        csr_value(h, 1, o) == Some(h.csrs.fcsr & 0x1f),
        csr_value(h, 2, o) == Some((h.csrs.fcsr >> 5) & 7),
        csr_value(h, 3, o) == Some(h.csrs.fcsr & 0xff),
{
    reveal(csr_value);
    lemma_mode_bits(1);
    lemma_mode_bits(2);
    lemma_mode_bits(3);
}

proof fn lemma_control_written(h: Hart, val: u64)
    requires
        h.csrs.mstatus & 0x6000 != 0,
    ensures
        csr_written(h, 1, val) matches Some(g) && g.csrs.fcsr == (h.csrs.fcsr & !0x1f) | (val
            & 0x1f) && g.csrs.mstatus == h.csrs.mstatus | 0x6000,
        csr_written(h, 2, val) matches Some(g) && g.csrs.fcsr == (h.csrs.fcsr & !0xe0) | ((val & 7)
            << 5) && g.csrs.mstatus == h.csrs.mstatus | 0x6000,
        csr_written(h, 3, val) matches Some(g) && g.csrs.fcsr == val & 0xff && g.csrs.mstatus
            == h.csrs.mstatus | 0x6000,
{
    reveal(csr_written);
    lemma_mode_bits(1);
    lemma_mode_bits(2);
    lemma_mode_bits(3);
}

} // verus!
