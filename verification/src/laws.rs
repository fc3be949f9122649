//! What holds of every hart.

use vstd::prelude::*;

use crate::cpu::{
    extended, lemma_ticked_exit, lines_driven, mmio_completed, ran, ticked, with_x, Hart, Observed,
    Surroundings, KICK_POLL,
};
use crate::csr::{
    csr_value, csr_written, pmpcfg_byte_written, pmpcfg_bytes_written, tvec_written, Csrs,
    MSTATUS_MIE, MSTATUS_MPIE, MSTATUS_MPP_MASK, MSTATUS_MPRV, MSTATUS_SIE, MSTATUS_SPIE,
    MSTATUS_SPP, MSTATUS_WMASK, PMPADDR_MASK, SATP_WMASK,
};
use crate::decode::{imm_s_of, rs1_of, rs2_of, AluOp, AmoOp, CsrOp};
use crate::exec::{
    alu_of, amo_executed, csr_executed, load_executed, magnitude, quotient, remainder, s64,
    store_executed, tohost_exit, wrap64,
};
use crate::fpu::fp_stored;
use crate::mem::{le_value, ram_load, ram_offset, ram_store};
use crate::mmu::{
    access_fault_of, data_priv_of, flushed, lemma_tag_is_real, lemma_walk_aligned, levels_of,
    loaded, page_slot, pmp_cfg_of, pmp_mode, pmp_permitted, pmpaddr_locked_of, ppn_of,
    primed_offset, split_load, split_store, stored, tlb_aligned, translated, vm_active_of,
    walk_from, walked, Access, LoadResult, StoreResult,
};
use crate::trap::{after_mret, after_sret, bit_set, delegated, next_interrupt, trapped, Exception};
use crate::{IrqLine, PrivMode, VmExit};

verus! {

/// Fields of registers, as far as the laws need them.
proof fn lemma_register_bits(before: u64, val: u64, s: u64, word: u64)
    by (bit_vector)
    ensures
        before & 3 <= 1 ==> ((val & !3) | (before & 3)) & 3 <= 1,
        (val & 0xb3ff) & (1u64 << 11) == 0,
        before & 0xff <= 0xff,
        val & 0x9f <= 0xff,
        before <= 7 && val <= 7 ==> ((8 * before) as u64) & 7 == 0 && ((8 * val) as u64) & 7 == 0,
        0u64 >> s == 0,
        ((0u64 >> s) & 0xff) & 0x60 == 0,
        val & PMPADDR_MASK < 0x40_0000_0000_0000,
        before % 0x1000 == 0 ==> (before | (val & 0xfff)) & 0xfff == val & 0xfff,
        ((val >> s) & 0x9f) & 0x60 == 0,
        ((word >> s) & 0xff) & 0x80 == (word >> s) & 0x80,
{
}

// ---------------------------------------------------------------------------
// Arithmetic.
// ---------------------------------------------------------------------------

/// Quotient and remainder belong together: divisor times quotient plus
/// remainder is the dividend, also where the divisor is zero and where the
/// quotient overflows. By a divisor that is not zero the remainder is smaller
/// in magnitude than it, and has the sign of the dividend where it is not
/// zero.
pub proof fn division_adds_up(a: u64, b: u64)
    ensures
        wrap64(alu_of(AluOp::Div, a, b) * b + alu_of(AluOp::Rem, a, b)) == a,
        wrap64(alu_of(AluOp::Divu, a, b) * b + alu_of(AluOp::Remu, a, b)) == a,
        b != 0 ==> {
            let r = s64(alu_of(AluOp::Rem, a, b));
            &&& magnitude(r) < magnitude(s64(b))
            &&& r == 0 || (r < 0) == (s64(a) < 0)
            &&& alu_of(AluOp::Remu, a, b) < b
        },
{
    reveal(alu_of);
    if b != 0 {
        let (x, y) = (s64(a), s64(b));
        assert(0 <= magnitude(x) % magnitude(y) < magnitude(y)) by (nonlinear_arith)
            requires
                magnitude(y) > 0,
        ;
        assert(a % b < b) by (nonlinear_arith)
            requires
                b > 0,
        ;
        assert(s64(wrap64(remainder(x, y))) == remainder(x, y));
    }
    let k = 0x1_0000_0000_0000_0000int;
    if b == 0 {
        assert(alu_of(AluOp::Div, a, b) * b == 0) by (nonlinear_arith)
            requires
                b == 0,
        ;
        assert(alu_of(AluOp::Divu, a, b) * b == 0) by (nonlinear_arith)
            requires
                b == 0,
        ;
    } else {
        assert((a / b) * b + a % b == a) by (nonlinear_arith)
            requires
                b != 0,
        ;
        let (x, y) = (s64(a), s64(b));
        let (q, r) = (quotient(x, y), remainder(x, y));
        let (mx, my) = (magnitude(x), magnitude(y));
        assert((mx / my) * my + mx % my == mx) by (nonlinear_arith)
            requires
                my > 0,
        ;
        assert(q * y + r == x) by {
            let m = mx / my;
            assert((-m) * my == -(m * my)) by (nonlinear_arith);
            assert(m * (-my) == -(m * my)) by (nonlinear_arith);
            assert((-m) * (-my) == m * my) by (nonlinear_arith);
        }
        let w = wrap64(q);
        let v = wrap64(r);
        // Both sides are taken modulo 2^64.
        let i = q / k;
        let j = r / k;
        assert(w == q - i * k) by {
            vstd::arithmetic::div_mod::lemma_fundamental_div_mod(q, k);
            assert(k * i == i * k) by (nonlinear_arith);
        }
        assert(v == r - j * k) by {
            vstd::arithmetic::div_mod::lemma_fundamental_div_mod(r, k);
            assert(k * j == j * k) by (nonlinear_arith);
        }
        let t = b as int - y;
        let c = if t == 0 {
            0int
        } else {
            1int
        };
        assert(t == c * k);
        assert(w * b + v == x + k * (q * c - i * b - j)) by (nonlinear_arith)
            requires
                w == q - i * k,
                v == r - j * k,
                b as int == y + c * k,
                q * y + r == x,
        ;
        let n = q * c - i * b - j;
        let d = if a as int == x {
            0int
        } else {
            1int
        };
        assert(x == a - d * k);
        assert((x + k * n) % k == a as int) by {
            assert(x + k * n == a + k * (n - d)) by (nonlinear_arith)
                requires
                    x == a - d * k,
            ;
            vstd::arithmetic::div_mod::lemma_mod_multiples_vanish(n - d, a as int, k);
            vstd::arithmetic::div_mod::lemma_small_mod(a as nat, k as nat);
        }
    }
}

// ---------------------------------------------------------------------------
// What other threads drive.
// ---------------------------------------------------------------------------

/// A kick that waits when a run starts ends it before the first instruction,
/// with the hart as it was; a run without a budget does not look for it.
pub proof fn a_kick_ends_the_run_at_once(h: Hart, max: nat, e: Surroundings)
    requires
        (e.kicked)(0),
    ensures
        ran(h, 0, max, e) == (
            h,
            if max == 0 {
                VmExit::InstrLimit
            } else {
                VmExit::Interrupted
            },
        ),
{
}

/// A run that finds no kick is not interrupted.
pub proof fn no_kick_no_interruption(h: Hart, i: nat, max: nat, e: Surroundings)
    requires
        forall|j: nat| i <= j < max ==> !#[trigger] (e.kicked)(j),
    ensures
        ran(h, i, max, e).1 != VmExit::Interrupted,
    decreases max - i,
{
    if i < max {
        let h1 = if i % KICK_POLL as nat == 0 {
            Hart { mip_ext: (e.lines)(i), ..h }
        } else {
            h
        };
        lemma_ticked_exit(h1, (e.seen)(i));
        let (h2, exit) = ticked(h1, (e.seen)(i));
        if exit is None {
            no_kick_no_interruption(h2, i + 1, max, e);
        }
    }
}

/// A line drives its bit of mip and no other, whatever the lines hold: raised,
/// it reads as set; lowered, as what software wrote there.
pub proof fn a_line_drives_one_bit(h: Hart, lines: u64, time: u64, line: IrqLine, level: bool)
    ensures
        csr_value(h, 0x344, Observed { lines, time }) matches Some(m) ==> csr_value(
            h,
            0x344,
            Observed { lines: lines_driven(lines, line, level), time },
        ) == Some(
            if level {
                m | (1u64 << line.position())
            } else {
                (m & !(1u64 << line.position())) | (h.csrs.mip & (1u64 << line.position()))
            },
        ),
{
    reveal(csr_value);
    let b = 1u64 << line.position();
    let m = h.csrs.mip;
    assert(m | (lines | b) == (m | lines) | b && m | (lines & !b) == ((m | lines) & !b) | (m & b))
        by (bit_vector);
}

// ---------------------------------------------------------------------------
// Control and status registers.
// ---------------------------------------------------------------------------

/// misa cannot be written.
pub proof fn misa_is_fixed(h: Hart, addr: u16, val: u64)
    ensures
        csr_written(h, 0x301, val) matches Some(h1) ==> h1 == h,
        csr_written(h, addr, val) matches Some(h1) ==> h1.csrs.misa == h.csrs.misa,
{
    reveal(csr_written);
}

/// A trap vector is direct or vectored, whatever is written to it.
pub proof fn a_trap_vector_has_a_mode(before: u64, val: u64)
    requires
        before & 3 <= 1,
    ensures
        tvec_written(before, val) & 3 <= 1,
{
    lemma_register_bits(before, val, 0, 0);
}

/// satp takes the modes that exist, without an address-space number, and
/// forgets every translation when it does; a write with another mode changes
/// nothing.
pub proof fn satp_takes_known_modes(h: Hart, val: u64)
    ensures
        csr_written(h, 0x180, val) matches Some(h1) ==> {
            let mode = val >> 60;
            if mode == 0 || mode == 8 || mode == 9 {
                &&& h1.csrs.satp >> 60 == mode
                &&& (h1.csrs.satp >> 44) & 0xffff == 0
                &&& h1.csrs.satp & 0xfff_ffff_ffff == val & 0xfff_ffff_ffff
                &&& h1 == flushed(h1)
            } else {
                h1 == h
            }
        },
{
    reveal(csr_written);
    assert((val & 0xf000_0fff_ffff_ffff) >> 60 == val >> 60 && ((val & 0xf000_0fff_ffff_ffff) >> 44)
        & 0xffff == 0 && (val & 0xf000_0fff_ffff_ffff) & 0xfff_ffff_ffff == val & 0xfff_ffff_ffff)
        by (bit_vector);
    if let Some(h1) = csr_written(h, 0x180, val) {
        lemma_flush_twice(h);
        if val >> 60 == 0 || val >> 60 == 8 || val >> 60 == 9 {
            let g = Hart { csrs: crate::csr::Csrs { satp: val & SATP_WMASK, ..h.csrs }, ..h };
            lemma_flush_twice(g);
            assert(h1 == flushed(g));
        }
    }
}

proof fn lemma_flush_twice(h: Hart)
    ensures
        flushed(flushed(h)) == flushed(h),
{
    assert(flushed(flushed(h)).tlb =~= flushed(h).tlb);
    assert(flushed(flushed(h)).load_pages =~= flushed(h).load_pages);
    assert(flushed(flushed(h)).store_pages =~= flushed(h).store_pages);
}

/// The previous privilege that mstatus holds is a mode.
pub open spec fn mpp_is_mode(mstatus: u64) -> bool {
    mstatus & MSTATUS_MPP_MASK != 0x1000
}

/// mstatus never holds a previous privilege that is not a mode: writes to
/// registers, traps and returns from them keep it one.
pub proof fn mpp_stays_a_mode(h: Hart, addr: u16, val: u64, cause: u64, tval: u64, epc: u64)
    requires
        mpp_is_mode(h.csrs.mstatus),
    ensures
        csr_written(h, addr, val) matches Some(h1) ==> mpp_is_mode(h1.csrs.mstatus),
        mpp_is_mode(trapped(h, cause, tval, epc).csrs.mstatus),
        mpp_is_mode(after_mret(h).csrs.mstatus),
        mpp_is_mode(after_sret(h).csrs.mstatus),
{
    reveal(csr_written);
    let m = h.csrs.mstatus;
    let n = h.prv.number();
    let w = (m & !MSTATUS_WMASK) | (val & MSTATUS_WMASK);
    assert(m & 0x1800 != 0x1000 && (n == 0 || n == 1 || n == 3) ==> {
        &&& (m | 0x6000) & 0x1800 != 0x1000
        &&& ((m & !0xc_6122) | (val & 0xc_6122)) & 0x1800 != 0x1000
        &&& w & 0x1800 == 0x1000 ==> ((w & !0x1800) | (m & 0x1800)) & 0x1800 != 0x1000
        &&& ((m & !(0x2u64 | 0x20 | 0x100)) | (((m >> 1) & 1) << 5) | 0x100) & 0x1800 != 0x1000
        &&& ((m & !(0x2u64 | 0x20 | 0x100)) | (((m >> 1) & 1) << 5) | 0) & 0x1800 != 0x1000
        &&& ((m & !(0x8u64 | 0x80 | 0x1800)) | (((m >> 3) & 1) << 7) | (n << 11)) & 0x1800 != 0x1000
        &&& ((m & !(0x8u64 | 0x80 | 0x1800)) | (((m >> 7) & 1) << 3) | 0x80) & 0x1800 != 0x1000
        &&& (((m & !(0x8u64 | 0x80 | 0x1800)) | (((m >> 7) & 1) << 3) | 0x80) & !0x2_0000) & 0x1800
            != 0x1000
        &&& ((m & !(0x2u64 | 0x20 | 0x100 | 0x2_0000)) | (((m >> 5) & 1) << 1) | 0x20) & 0x1800
            != 0x1000
    }) by (bit_vector);
}

/// An instruction that sets the instruction counter, in any of the forms and
/// under either of its names, is not counted: the next one reads what was
/// written. One that only reads it is counted.
pub proof fn the_counter_reads_back(
    h: Hart,
    op: CsrOp,
    rd: u8,
    rs1: u8,
    csr: u16,
    imm: bool,
    raw: u32,
    next: u64,
    o: Observed,
)
    requires
        csr == 0xb00 || csr == 0xb02,
    ensures
        ({
            let (h1, r) = csr_executed(h, op, rd, rs1, csr, imm, raw, next, o);
            let src = if imm {
                rs1 as u64
            } else {
                h.x[rs1 as int]
            };
            r is Ok ==> {
                &&& csr_value(h, csr, o) == Some(h.instret)
                &&& h1.instret == if op == CsrOp::Rw {
                    src
                } else if rs1 == 0 {
                    h.instret.wrapping_add(1)
                } else if op == CsrOp::Rs {
                    h.instret | src
                } else {
                    h.instret & !src
                }
                &&& h1.x == with_x(h, rd, h.instret).x
            }
        }),
{
    reveal(csr_executed);
    reveal(csr_written);
    reveal(csr_value);
}

// ---------------------------------------------------------------------------
// Traps.
// ---------------------------------------------------------------------------

/// `mret` undoes a trap to M-mode: the mode, the interrupt enable and all else
/// are what they were, but that the registers of the trap hold its record,
/// that MPIE and MPP are as an `mret` leaves them, and that MPRV is off where
/// the hart goes back below M-mode. The address to return to is where the
/// trap was taken.
pub proof fn mret_undoes_a_trap(h: Hart, cause: u64, tval: u64, epc: u64)
    requires
        !delegated(h, cause),
    ensures
        ({
            let t = trapped(h, cause, tval, epc);
            let m = (h.csrs.mstatus & !MSTATUS_MPP_MASK) | MSTATUS_MPIE;
            &&& t.prv == PrivMode::M
            &&& t.csrs.mstatus & MSTATUS_MIE == 0
            &&& after_mret(t) == (Hart {
                csrs: Csrs {
                    mcause: cause,
                    mepc: epc & !1,
                    mtval: tval,
                    mstatus: if h.prv == PrivMode::M {
                        m
                    } else {
                        m & !MSTATUS_MPRV
                    },
                    ..h.csrs
                },
                pc: t.pc,
                ..h
            })
        }),
{
    let m = h.csrs.mstatus;
    let n = h.prv.number();
    let t = (m & !(MSTATUS_MIE | MSTATUS_MPIE | MSTATUS_MPP_MASK)) | (((m >> 3) & 1) << 7) | (n
        << 11);
    assert(t == trapped(h, cause, tval, epc).csrs.mstatus);
    assert((n == 0 || n == 1 || n == 3) && t == (m & !(0x8u64 | 0x80 | 0x1800)) | (((m >> 3) & 1)
        << 7) | (n << 11) ==> {
        &&& (t >> 11) & 3 == n
        &&& t & 0x8 == 0
        &&& (t & !(0x8u64 | 0x80 | 0x1800)) | (((t >> 7) & 1) << 3) | 0x80 == (m & !0x1800) | 0x80
    }) by (bit_vector);
}

/// `sret` undoes a trap to S-mode in the same way; it turns MPRV off in any
/// case.
pub proof fn sret_undoes_a_delegated_trap(h: Hart, cause: u64, tval: u64, epc: u64)
    requires
        delegated(h, cause),
    ensures
        ({
            let t = trapped(h, cause, tval, epc);
            &&& t.prv == PrivMode::S
            &&& t.csrs.mstatus & MSTATUS_SIE == 0
            &&& after_sret(t) == (Hart {
                csrs: Csrs {
                    scause: cause,
                    sepc: epc & !1,
                    stval: tval,
                    mstatus: (h.csrs.mstatus & !(MSTATUS_SPP | MSTATUS_MPRV)) | MSTATUS_SPIE,
                    ..h.csrs
                },
                pc: t.pc,
                ..h
            })
        }),
{
    let m = h.csrs.mstatus;
    let spp = if h.prv == PrivMode::S {
        MSTATUS_SPP
    } else {
        0
    };
    let t = (m & !(MSTATUS_SIE | MSTATUS_SPIE | MSTATUS_SPP)) | (((m >> 1) & 1) << 5) | spp;
    assert(t == trapped(h, cause, tval, epc).csrs.mstatus);
    assert((spp == 0 || spp == 0x100) && t == (m & !(0x2u64 | 0x20 | 0x100)) | (((m >> 1) & 1) << 5)
        | spp ==> {
        &&& (t >> 8) & 1 == spp >> 8
        &&& spp == 0 ==> spp >> 8 == 0
        &&& spp == 0x100 ==> spp >> 8 == 1
        &&& t & 0x2 == 0
        &&& (t & !(0x2u64 | 0x20 | 0x100 | 0x2_0000)) | (((t >> 5) & 1) << 1) | 0x20 == (m & !(
        0x100u64 | 0x2_0000)) | 0x20
    }) by (bit_vector);
}

/// Traps from M-mode are never delegated, nor can its environment calls be.
pub proof fn machine_mode_keeps_its_traps(h: Hart, cause: u64, val: u64)
    ensures
        h.prv == PrivMode::M ==> !delegated(h, cause),
        csr_written(h, 0x302, val) matches Some(h1) ==> !bit_set(
            h1.csrs.medeleg,
            Exception::EcallFromM.code_of(),
        ),
{
    reveal(csr_written);
    lemma_register_bits(0, val, 0, 0);
}

/// The interrupt that is taken is pending and enabled, and M-mode is only
/// interrupted where it allows that.
pub proof fn a_taken_interrupt_is_due(h: Hart)
    ensures
        next_interrupt(h) matches Some(code) ==> {
            &&& bit_set((h.csrs.mip | h.mip_ext) & h.csrs.mie, code)
            &&& h.prv == PrivMode::M ==> h.csrs.mstatus & MSTATUS_MIE != 0 && !bit_set(
                h.csrs.mideleg,
                code,
            )
        },
{
    let pending = (h.csrs.mip | h.mip_ext) & h.csrs.mie;
    let d = h.csrs.mideleg;
    if let Some(code) = next_interrupt(h) {
        assert(code < 64);
        assert(code < 64 ==> {
            &&& (pending & !d) & (1u64 << code) != 0 ==> pending & (1u64 << code) != 0 && d & (1u64
                << code) == 0
            &&& (pending & d) & (1u64 << code) != 0 ==> pending & (1u64 << code) != 0
        }) by (bit_vector);
    }
}

// ---------------------------------------------------------------------------
// Memory.
// ---------------------------------------------------------------------------

proof fn lemma_split_load_keeps(h: Hart, va: u64, prv: PrivMode, bs: Seq<u8>, size: nat)
    ensures
        split_load(h, va, prv, bs, size).0 == (Hart {
            tlb: split_load(h, va, prv, bs, size).0.tlb,
            ..h
        }),
    decreases size - bs.len(),
{
    reveal(translated);
    if bs.len() < size {
        let b = va.wrapping_add(bs.len() as u64);
        let (h1, r) = translated(h, b, Access::Read, prv, 1);
        if let Ok(pa) = r {
            if let Some(off) = ram_offset(h1.ram_base, h1.ram.len(), pa, 1) {
                lemma_split_load_keeps(h1, va, prv, bs.push(h1.ram[off]), size);
            }
        }
    }
}

proof fn lemma_split_store_keeps(h: Hart, va: u64, prv: PrivMode, pas: Seq<u64>, size: nat)
    ensures
        split_store(h, va, prv, pas, size).0 == (Hart {
            tlb: split_store(h, va, prv, pas, size).0.tlb,
            ..h
        }),
    decreases size - pas.len(),
{
    reveal(translated);
    if pas.len() < size {
        let b = va.wrapping_add(pas.len() as u64);
        let (h1, r) = translated(h, b, Access::Write, prv, 1);
        if let Ok(pa) = r {
            if ram_offset(h1.ram_base, h1.ram.len(), pa, 1) is Some {
                lemma_split_store_keeps(h1, va, prv, pas.push(pa), size);
            }
        }
    }
}

/// A load changes nothing but what is cached of translations.
pub proof fn a_load_only_caches(h: Hart, va: u64, size: int)
    ensures
        ({
            let h1 = loaded(h, va, size).0;
            h1 == (Hart { tlb: h1.tlb, load_pages: h1.load_pages, ..h })
        }),
{
    reveal(loaded);
    reveal(translated);
    let prv = data_priv_of(h);
    lemma_split_load_keeps(h, va, prv, Seq::empty(), size as nat);
}

/// A store that is refused, or that leaves RAM, leaves RAM as it was: also
/// one that spans two pages of which only the second refuses it.
pub proof fn a_refused_store_writes_nothing(h: Hart, va: u64, size: int, val: u64)
    ensures
        ({
            let (h1, r) = stored(h, va, size, val);
            &&& !(r matches Ok(StoreResult::Ram(_))) ==> h1.ram == h.ram
            &&& h1 == (Hart { tlb: h1.tlb, store_pages: h1.store_pages, ram: h1.ram, ..h })
        }),
{
    reveal(stored);
    reveal(translated);
    let prv = data_priv_of(h);
    lemma_split_store_keeps(h, va, prv, Seq::empty(), size as nat);
}

/// A walk reads RAM and the registers, and no cache.
proof fn lemma_walk_from_reads_ram(
    h: Hart,
    f: Hart,
    va: u64,
    access: Access,
    prv: PrivMode,
    lvl: nat,
    base: u64,
)
    requires
        f.ram == h.ram && f.ram_base == h.ram_base && f.csrs == h.csrs && f.pmp_active
            == h.pmp_active,
    ensures
        walk_from(f, va, access, prv, lvl, base) == walk_from(h, va, access, prv, lvl, base),
    decreases lvl,
{
    if lvl > 0 {
        let pte_addr = (base + ((va >> ((12 + 9 * lvl) as u64)) & 0x1ff) * 8) as u64;
        if let Some(pte) = ram_load(h.ram_base, h.ram, pte_addr, 8) {
            lemma_walk_from_reads_ram(
                h,
                f,
                va,
                access,
                prv,
                (lvl - 1) as nat,
                ppn_of(pte) << 12,
            );
        }
    }
}

proof fn lemma_walk_reads_ram(h: Hart, f: Hart, va: u64, access: Access, prv: PrivMode)
    requires
        f.ram == h.ram && f.ram_base == h.ram_base && f.csrs == h.csrs && f.pmp_active
            == h.pmp_active,
    ensures
        walked(f, va, access, prv) == walked(h, va, access, prv),
{
    lemma_walk_from_reads_ram(
        h,
        f,
        va,
        access,
        prv,
        (levels_of(h) - 1) as nat,
        (h.csrs.satp & 0xfff_ffff_ffff) << 12,
    );
}

/// What `va` resolves to by the page tables in RAM and the protection of
/// physical memory, with no cache in between.
pub open spec fn resolved(h: Hart, va: u64, access: Access, prv: PrivMode, width: u64) -> Result<
    u64,
    Exception,
> {
    let r = if vm_active_of(h, prv) {
        match walked(h, va, access, prv) {
            Ok((page, _)) => Ok(page | (va & 0xfff)),
            Err(e) => Err(e),
        }
    } else {
        Ok(va)
    };
    match r {
        Ok(pa) if h.pmp_active && !pmp_permitted(h.csrs, pa, width, access, prv) => Err(
            access_fault_of(access, va),
        ),
        _ => r,
    }
}

/// After a flush nothing of an earlier translation is left: every page is
/// walked anew in the page tables that RAM now holds, nothing is served from a
/// primed page, whatever the size of the access, and the rest of the hart is
/// as it was.
pub proof fn a_flush_forgets_translations(
    h: Hart,
    va: u64,
    access: Access,
    prv: PrivMode,
    size: int,
    width: u64,
)
    requires
        h.wf(),
    ensures
        ({
            let f = flushed(h);
            &&& primed_offset(f, f.load_pages, va, size) is None
            &&& primed_offset(f, f.store_pages, va, size) is None
            &&& crate::cpu::fetch_tag_of(f, va) != f.fetch_tag
            &&& f == (Hart {
                tlb: f.tlb,
                fetch_tag: f.fetch_tag,
                load_pages: f.load_pages,
                store_pages: f.store_pages,
                ..h
            })
            &&& translated(f, va, access, prv, width).1 == resolved(h, va, access, prv, width)
        }),
{
    reveal(translated);
    let f = flushed(h);
    let m = f.csrs.mstatus;
    let n = f.prv.number();
    assert((va >> 12) != u64::MAX && (n <= 3 ==> ((va >> 10) & !3) | n != u64::MAX) && (n <= 3
        ==> ((va >> 8) & !0xf) | (n | ((m >> 16) & 0xc)) != u64::MAX) && ((va >> 8) & !0xf) | (((m
        >> 11) & 3) | ((m >> 16) & 0xc)) != u64::MAX) by (bit_vector);
    assert(0 <= page_slot(va) < 16);
    assert(f.load_pages[page_slot(va)].tag == u64::MAX);
    assert(f.store_pages[page_slot(va)].tag == u64::MAX);
    let i = ((va >> 12) % 64) as int;
    assert(f.tlb[i].vpn == u64::MAX);
    lemma_walk_reads_ram(h, f, va, access, prv);
}

/// Translation keeps what is cached whole pages, and keeps the place in the
/// page.
pub proof fn translation_keeps_the_place_in_the_page(
    h: Hart,
    va: u64,
    access: Access,
    prv: PrivMode,
    size: u64,
)
    requires
        tlb_aligned(h.tlb),
        h.tlb.len() == 64,
    ensures
        ({
            let (h1, r) = translated(h, va, access, prv, size);
            &&& tlb_aligned(h1.tlb)
            &&& h1.tlb.len() == 64
            &&& r matches Ok(pa) ==> pa & 0xfff == va & 0xfff
        }),
{
    reveal(translated);
    let i = ((va >> 12) % 64) as int;
    let p = h.tlb[i].pa_base;
    lemma_register_bits(p, va, 0, 0);
    let lvl = (levels_of(h) - 1) as nat;
    let root = (h.csrs.satp & 0xfff_ffff_ffff) << 12;
    lemma_walk_aligned(h, va, access, prv, lvl, root);
    if let Ok((q, _)) = walked(h, va, access, prv) {
        lemma_register_bits(q, va, 0, 0);
    }
}

proof fn lemma_page_parts(a: u64)
    by (bit_vector)
    ensures
        (a & !0xfff) + (a & 0xfff) == a,
        a & 0xfff <= 0xfff,
{
}

/// A page that a load primed serves later loads from where the translation
/// had led, and a page that a store primed serves later stores so.
pub proof fn primed_pages_agree_with_translation(h: Hart, va: u64, size: int, val: u64)
    requires
        h.wf(),
        h.ram.len() <= usize::MAX,
        1 <= size <= 8,
        primed_offset(h, h.load_pages, va, size) is None,
        primed_offset(h, h.store_pages, va, size) is None,
    ensures
        ({
            let (h1, r) = loaded(h, va, size);
            &&& (primed_offset(h1, h1.load_pages, va, size), r) matches (
                Some(off),
                Ok(LoadResult::Ram(v)),
            ) ==> v == le_value(h1.ram.subrange(off, off + size)) as u64
        }),
        ({
            let (h1, r) = stored(h, va, size, val);
            &&& (primed_offset(h1, h1.store_pages, va, size), r) matches (
                Some(off),
                Ok(StoreResult::Ram(pa)),
            ) ==> off == pa - h.ram_base
        }),
{
    reveal(loaded);
    reveal(stored);
    let prv = data_priv_of(h);
    lemma_split_load_keeps(h, va, prv, Seq::empty(), size as nat);
    lemma_split_store_keeps(h, va, prv, Seq::empty(), size as nat);
    translation_keeps_the_place_in_the_page(h, va, Access::Read, prv, size as u64);
    translation_keeps_the_place_in_the_page(h, va, Access::Write, prv, size as u64);
    crate::mmu::translation_touches_only_the_tlb(h, va, Access::Read, prv, size as u64);
    crate::mmu::translation_touches_only_the_tlb(h, va, Access::Write, prv, size as u64);
    if let Ok(pa) = translated(h, va, Access::Read, prv, size as u64).1 {
        lemma_page_parts(pa);
    }
    if let Ok(pa) = translated(h, va, Access::Write, prv, size as u64).1 {
        lemma_page_parts(pa);
    }
    lemma_page_parts(va);
    assert(0 <= page_slot(va) < 16);
}

// ---------------------------------------------------------------------------
// Loads from devices.
// ---------------------------------------------------------------------------

/// A load from a device has not happened until its data is there: the
/// registers, the pc and the counter are as before. The data then goes where
/// the load asked for it, and the load counts as one instruction.
pub proof fn a_device_load_waits_for_its_data(
    h: Hart,
    va: u64,
    size: int,
    sign: bool,
    rd: u8,
    next: u64,
    data: u64,
)
    requires
        size == 1 || size == 2 || size == 4 || size == 8,
    ensures
        ({
            let (h1, r) = load_executed(h, va, size, sign, rd, next);
            r matches Ok(Some(exit)) ==> {
                let h2 = mmio_completed(h1, data);
                &&& exit is MmioRead
                &&& h1.x == h.x && h1.pc == h.pc && h1.instret == h.instret && h1.ram == h.ram
                &&& h2.x == with_x(h, rd, extended(data, size, sign)).x
                &&& h2.pc == next
                &&& h2.instret == h.instret.wrapping_add(1)
                &&& h2.pending is None
            }
        }),
{
    reveal(load_executed);
    a_load_only_caches(h, va, size);
}

/// A store to exactly the registered `tohost` address is reported with the
/// 64-bit word there, whichever instruction makes it: an integer store, a
/// floating-point store or an atomic read-modify-write.
pub proof fn a_store_to_tohost_is_reported(
    h: Hart,
    va: u64,
    size: int,
    data: u64,
    next: u64,
    raw: u32,
    op: AmoOp,
    rd: u8,
    rs1: u8,
    rs2: u8,
    width: u8,
    pa: u64,
)
    requires
        h.wf(),
        h.tohost == Some(pa),
    ensures
        ({
            let (h1, r) = stored(Hart { reservation: None, ..h }, va, size, data);
            r == Ok::<StoreResult, Exception>(StoreResult::Ram(pa)) ==> store_executed(
                h,
                va,
                size,
                data,
                next,
            ).1 == Ok::<Option<VmExit>, Exception>(Some(word_at(h1, pa)))
        }),
        ({
            let fva = h.x[rs1_of(raw) as int].wrapping_add(imm_s_of(raw) as u64);
            let v = extended(h.f[rs2_of(raw) as int], size, false);
            let (h1, r) = stored(Hart { reservation: None, ..h }, fva, size, v);
            r == Ok::<StoreResult, Exception>(StoreResult::Ram(pa)) ==> fp_stored(h, raw, size).1
                == Ok::<(Option<VmExit>, bool), Exception>((Some(word_at(h1, pa)), false))
        }),
        ({
            let (h1, r) = amo_executed(h, op, rd, rs1, rs2, width);
            op != AmoOp::Lr && op != AmoOp::Sc && r is Ok && translated(
                h,
                h.x[rs1 as int],
                Access::Write,
                data_priv_of(h),
                width as u64,
            ).1 == Ok::<u64, Exception>(pa) ==> r == Ok::<Option<VmExit>, Exception>(
                Some(word_at(h1, pa)),
            )
        }),
{
    reveal(store_executed);
    reveal(fp_stored);
    reveal(amo_executed);
    a_refused_store_writes_nothing(Hart { reservation: None, ..h }, va, size, data);
    let fva = h.x[rs1_of(raw) as int].wrapping_add(imm_s_of(raw) as u64);
    let v = extended(h.f[rs2_of(raw) as int], size, false);
    a_refused_store_writes_nothing(Hart { reservation: None, ..h }, fva, size, v);
    crate::mmu::translation_touches_only_the_tlb(
        h,
        h.x[rs1 as int],
        Access::Write,
        data_priv_of(h),
        width as u64,
    );
    assert(0 <= page_slot(va) < 16);
    assert(h.store_pages[page_slot(va)].tag == u64::MAX);
    lemma_tag_is_real(va, h.csrs.mstatus, h.prv.number());
}

/// The report of a store to `pa`, with the 64-bit word around it.
pub open spec fn word_at(h: Hart, pa: u64) -> VmExit {
    VmExit::Shutdown { code: ram_load(h.ram_base, h.ram, pa & !7, 8)->0 }
}

// ---------------------------------------------------------------------------
// Reservations.
// ---------------------------------------------------------------------------

/// A conditional store succeeds where the reserved word still holds what was
/// read: it writes, says so with 0, and uses the reservation up.
pub proof fn a_kept_reservation_stores(h: Hart, rd: u8, rs1: u8, rs2: u8, width: u8, pa: u64)
    requires
        width == 4 || width == 8,
        h.x[rs1 as int] as int % width as int == 0,
        translated(h, h.x[rs1 as int], Access::Write, data_priv_of(h), width as u64).1 == Ok::<
            u64,
            Exception,
        >(pa),
        h.reservation matches Some(r) && r.addr == pa && r.width == width && ram_load(
            h.ram_base,
            h.ram,
            pa,
            width as int,
        ) == Some(extended(r.val, width as int, false)),
    ensures
        ({
            let (h1, r) = amo_executed(h, AmoOp::Sc, rd, rs1, rs2, width);
            &&& r == Ok::<Option<VmExit>, Exception>(tohost_exit(h1, pa))
            &&& h1.x == with_x(h, rd, 0).x
            &&& h1.reservation is None
            &&& h1.ram == ram_store(
                h.ram_base,
                h.ram,
                pa,
                width as int,
                extended(h.x[rs2 as int], width as int, false) as nat,
            )
        }),
{
    reveal(amo_executed);
    crate::mmu::translation_touches_only_the_tlb(
        h,
        h.x[rs1 as int],
        Access::Write,
        data_priv_of(h),
        width as u64,
    );
}

/// A reading reservation holds the word that was read, which is what a
/// conditional store then looks for.
pub proof fn a_reservation_holds_what_was_read(h: Hart, rd: u8, rs1: u8, rs2: u8, width: u8)
    requires
        width == 4 || width == 8,
    ensures
        ({
            let (h1, r) = amo_executed(h, AmoOp::Lr, rd, rs1, rs2, width);
            r is Ok ==> (h1.reservation matches Some(v) && v.width == width && ram_load(
                h1.ram_base,
                h1.ram,
                v.addr,
                width as int,
            ) == Some(v.val) && v.val == extended(v.val, width as int, false) && h1.ram == h.ram)
        }),
{
    reveal(amo_executed);
    let va = h.x[rs1 as int];
    crate::mmu::translation_touches_only_the_tlb(
        h,
        va,
        Access::Read,
        data_priv_of(h),
        width as u64,
    );
    let (h1, r) = translated(h, va, Access::Read, data_priv_of(h), width as u64);
    if let Ok(pa) = r {
        crate::mem::load_is_narrow(h.ram_base, h.ram, pa, width as int);
    }
}

/// Without a reservation a conditional store writes nothing, and says so
/// with 1.
pub proof fn no_reservation_no_store(h: Hart, rd: u8, rs1: u8, rs2: u8, width: u8)
    requires
        h.reservation is None,
    ensures
        ({
            let (h1, r) = amo_executed(h, AmoOp::Sc, rd, rs1, rs2, width);
            &&& h1.ram == h.ram
            &&& r matches Ok(exit) ==> exit is None && h1.x == with_x(h, rd, 1).x
        }),
{
    reveal(amo_executed);
    crate::mmu::translation_touches_only_the_tlb(
        h,
        h.x[rs1 as int],
        Access::Write,
        data_priv_of(h),
        width as u64,
    );
}

/// Every store of the hart gives its reservation up, and so does every atomic
/// operation that writes.
pub proof fn stores_give_up_the_reservation(
    h: Hart,
    va: u64,
    size: int,
    data: u64,
    next: u64,
    op: AmoOp,
    rd: u8,
    rs1: u8,
    rs2: u8,
    width: u8,
)
    ensures
        store_executed(h, va, size, data, next).0.reservation is None,
        op != AmoOp::Lr && amo_executed(h, op, rd, rs1, rs2, width).1 is Ok ==> amo_executed(
            h,
            op,
            rd,
            rs1,
            rs2,
            width,
        ).0.reservation is None,
{
    reveal(store_executed);
    reveal(amo_executed);
    a_refused_store_writes_nothing(Hart { reservation: None, ..h }, va, size, data);
}

// ---------------------------------------------------------------------------
// Physical memory protection.
// ---------------------------------------------------------------------------

proof fn lemma_byte_of(acc: u64, b: u64, s: u64, t: u64)
    by (bit_vector)
    requires
        b <= 0xff,
        s <= 56,
        t <= 56,
        s & 7 == 0,
        t & 7 == 0,
        s == 0 ==> acc == 0,
        acc >> s == 0,
    ensures
        t < s ==> ((acc | (b << s)) >> t) & 0xff == (acc >> t) & 0xff,
        t == s ==> ((acc | (b << s)) >> t) & 0xff == b,
        s < 56 ==> (acc | (b << s)) >> (s + 8) as u64 == 0,
{
}

proof fn lemma_bytes_written(before: u64, val: u64, n: nat, j: u64)
    requires
        1 <= n <= 8,
        j < n,
    ensures
        (pmpcfg_bytes_written(before, val, n) >> ((8 * j) as u64)) & 0xff == pmpcfg_byte_written(
            before,
            val,
            j,
        ),
        n < 8 ==> pmpcfg_bytes_written(before, val, n) >> ((8 * n) as u64) == 0,
    decreases n,
{
    let k = (n - 1) as u64;
    let s = (8 * k) as u64;
    let t = (8 * j) as u64;
    let acc = pmpcfg_bytes_written(before, val, k as nat);
    let b = pmpcfg_byte_written(before, val, k);
    assert(b <= 0xff) by {
        let x = before >> s;
        let y = val >> s;
        lemma_register_bits(x, y, 0, 0);
    }
    assert(s & 7 == 0 && t & 7 == 0) by {
        lemma_register_bits(k, j, 0, 0);
    }
    if k > 0 {
        lemma_bytes_written(before, val, k as nat, if j < k {
            j
        } else {
            0
        });
    } else {
        lemma_register_bits(0, 0, 0, 0);
    }
    lemma_byte_of(acc, b, s, t);
}

/// What one write does to an entry of the protection: to its configuration
/// byte, which holds against it where it is locked, and to its address.
proof fn lemma_pmp_written(h: Hart, addr: u16, val: u64, i: int)
    requires
        h.csrs.pmpcfg.len() == 16,
        h.csrs.pmpaddr.len() == 64,
        0 <= i < 64,
    ensures
        csr_written(h, addr, val) matches Some(h1) ==> {
            let (before, after) = (pmp_cfg_of(h.csrs, i), pmp_cfg_of(h1.csrs, i));
            &&& h1.csrs.pmpcfg.len() == 16
            &&& h1.csrs.pmpaddr.len() == 64
            &&& before & 0x80 != 0 ==> after == before
            &&& after == before || after & 0x60 == 0
            &&& h1.csrs.pmpaddr[i] == h.csrs.pmpaddr[i] || (!pmpaddr_locked_of(h.csrs, i)
                && h1.csrs.pmpaddr[i] == val & PMPADDR_MASK)
        },
{
    reveal(csr_written);
    let j = (i % 8) as u64;
    let word = h.csrs.pmpcfg[(i / 8) * 2];
    let s = (8 * j) as u64;
    lemma_bytes_written(word, val, 8, j);
    lemma_register_bits(0, val, s, word);
}

/// The configuration bytes have their reserved bits 6:5 zero, and the
/// addresses their bits from 54 on.
pub open spec fn pmp_legal(c: Csrs) -> bool {
    &&& c.pmpcfg.len() == 16
    &&& c.pmpaddr.len() == 64
    &&& forall|i: int| 0 <= i < 64 ==> #[trigger] pmp_cfg_of(c, i) & 0x60 == 0
    &&& forall|i: int| 0 <= i < 64 ==> #[trigger] c.pmpaddr[i] < 0x40_0000_0000_0000
}

/// A write of a CSR: the mode that it is made in, the CSR and the value.
pub struct CsrWrite {
    pub prv: PrivMode,
    pub addr: u16,
    pub val: u64,
}

/// The hart after a sequence of writes, each in its mode. One that is refused
/// writes nothing.
pub open spec fn after_writes(h: Hart, writes: Seq<CsrWrite>) -> Hart
    decreases writes.len(),
{
    if writes.len() == 0 {
        h
    } else {
        let w = writes.last();
        let g = Hart { prv: w.prv, ..after_writes(h, writes.drop_last()) };
        match csr_written(g, w.addr, w.val) {
            Some(h1) => h1,
            None => g,
        }
    }
}

/// A locked entry is read-only, whatever is written, in any mode and any
/// number of times: its configuration byte and its address keep their values,
/// and so does the address before it where it is the base of its range.
pub proof fn locked_entries_are_read_only(h: Hart, writes: Seq<CsrWrite>, i: int)
    requires
        h.csrs.pmpcfg.len() == 16,
        h.csrs.pmpaddr.len() == 64,
        0 <= i < 64,
        pmp_cfg_of(h.csrs, i) & 0x80 != 0,
    ensures
        ({
            let c = after_writes(h, writes).csrs;
            &&& c.pmpcfg.len() == 16
            &&& c.pmpaddr.len() == 64
            &&& pmp_cfg_of(c, i) == pmp_cfg_of(h.csrs, i)
            &&& c.pmpaddr[i] == h.csrs.pmpaddr[i]
            &&& i > 0 && pmp_mode(pmp_cfg_of(h.csrs, i)) == 1 ==> c.pmpaddr[i - 1]
                == h.csrs.pmpaddr[i - 1]
        }),
    decreases writes.len(),
{
    if writes.len() > 0 {
        locked_entries_are_read_only(h, writes.drop_last(), i);
        let w = writes.last();
        let g = Hart { prv: w.prv, ..after_writes(h, writes.drop_last()) };
        lemma_pmp_written(g, w.addr, w.val, i);
        if i > 0 {
            lemma_pmp_written(g, w.addr, w.val, i - 1);
        }
    }
}

/// No sequence of writes sets a reserved bit of the protection; at reset none
/// is set.
pub proof fn reserved_protection_bits_stay_zero(h: Hart, writes: Seq<CsrWrite>, hart_id: u64)
    requires
        pmp_legal(h.csrs),
    ensures
        pmp_legal(after_writes(h, writes).csrs),
        pmp_legal(Csrs::reset(hart_id)),
    decreases writes.len(),
{
    assert forall|i: int| 0 <= i < 64 implies #[trigger] pmp_cfg_of(Csrs::reset(hart_id), i) & 0x60
        == 0 by {
        let s = (8 * (i % 8)) as u64;
        lemma_register_bits(0, 0, s, 0);
    }
    if writes.len() > 0 {
        reserved_protection_bits_stay_zero(h, writes.drop_last(), hart_id);
        let w = writes.last();
        let g = Hart { prv: w.prv, ..after_writes(h, writes.drop_last()) };
        let c = after_writes(h, writes).csrs;
        let v = w.val;
        lemma_register_bits(0, v, 0, 0);
        lemma_pmp_written(g, w.addr, w.val, 0);
        assert forall|i: int| 0 <= i < 64 implies #[trigger] pmp_cfg_of(c, i) & 0x60 == 0 by {
            lemma_pmp_written(g, w.addr, w.val, i);
            assert(pmp_cfg_of(g.csrs, i) & 0x60 == 0);
        }
        assert forall|i: int| 0 <= i < 64 implies #[trigger] c.pmpaddr[i] < 0x40_0000_0000_0000 by {
            lemma_pmp_written(g, w.addr, w.val, i);
        }
    }
}

} // verus!
