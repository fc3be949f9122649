//! An invariant of running harts: program counters are even, vectors have a
//! mode, mstatus remembers a mode, and cached translations are of whole pages.

use vstd::prelude::*;

use crate::cpu::{
    extended, fetched, fetched_half, instr_of, mmio_completed, ran, stepped, ticked, Hart,
    Observed, Surroundings, Wires, KICK_POLL,
};
use crate::csr::{csr_value, csr_written, Csrs};
use crate::decode::{
    cimm_b_of, cimm_j_of, decoded, decoded_compressed, imm_b_of, imm_i_of, imm_j_of, imm_s_of,
    opcode_of, rs1_of, rs2_of, Instr,
};
use crate::exec::{
    amo_executed, csr_executed, executed, int_executed, is_system, load_executed, store_executed,
    system_executed,
};
use crate::fpu::{fp_executed, fp_loaded, fp_stored};
use crate::laws::{
    a_load_only_caches, a_refused_store_writes_nothing, a_trap_vector_has_a_mode, mpp_is_mode,
    mpp_stays_a_mode, translation_keeps_the_place_in_the_page,
};
use crate::mem::ram_offset;
use crate::mmu::{
    data_priv_of, loaded, split_load, split_store, stored, tlb_aligned, translated,
    translation_touches_only_the_tlb, Access,
};
use crate::trap::{after_interrupt, next_interrupt, trapped, INTERRUPT_BIT};
use crate::{Clock, PrivMode};

verus! {

/// Return addresses are even, vectors are direct or vectored, and the previous
/// privilege is a mode.
pub open spec fn sound_csrs(c: Csrs) -> bool {
    &&& c.mepc % 2 == 0
    &&& c.sepc % 2 == 0
    &&& c.mtvec & 3 <= 1
    &&& c.stvec & 3 <= 1
    &&& mpp_is_mode(c.mstatus)
}

/// What else holds between instructions: cached translations are of whole
/// pages, and a waiting load goes on at an even address.
pub open spec fn sound_parts(h: Hart) -> bool {
    &&& sound_csrs(h.csrs)
    &&& h.tlb.len() == 64
    &&& tlb_aligned(h.tlb)
    &&& h.pending matches Some(p) ==> p.next_pc % 2 == 0
}

/// The program counter is even as well.
pub open spec fn sound(h: Hart) -> bool {
    sound_parts(h) && h.pc % 2 == 0
}

/// Jumps and branches go an even number of bytes.
pub open spec fn jumps_evenly(instr: Instr) -> bool {
    match instr {
        Instr::Jal { imm, .. } => imm % 2 == 0,
        Instr::Branch { imm, .. } => imm % 2 == 0,
        _ => true,
    }
}

proof fn lemma_word_targets(i: u32)
    ensures
        imm_b_of(i) % 2 == 0,
        imm_j_of(i) % 2 == 0,
{
}

proof fn lemma_halfword_targets(i: u32)
    ensures
        cimm_b_of(i) % 2 == 0,
        cimm_j_of(i) % 2 == 0,
{
}

proof fn lemma_decoded_jumps(raw: u32)
    ensures
        jumps_evenly(decoded(raw)),
{
    lemma_word_targets(raw);
    reveal(decoded);
}

proof fn lemma_compressed_jumps(raw: u16)
    ensures
        jumps_evenly(decoded_compressed(raw)),
{
    lemma_halfword_targets(raw as u32);
    reveal(decoded_compressed);
}

/// Every jump and branch that decodes goes an even number of bytes.
pub proof fn decoded_jumps_are_even(raw: u32)
    ensures
        jumps_evenly(decoded(raw)),
        jumps_evenly(decoded_compressed(raw as u16)),
        jumps_evenly(instr_of(raw)),
{
    lemma_decoded_jumps(raw);
    lemma_compressed_jumps(raw as u16);
}

proof fn lemma_even_bits(v: u64, imm: i64)
    by (bit_vector)
    ensures
        (v & !1) % 2 == 0,
        (v & !3) % 4 == 0,
        v & 0x3f <= 0x3f,
        0u64 & 3 <= 1,
        0u64 & 0x1800 != 0x1000,
        v & 0x1800 != 0x1000 ==> (v | 0x6000) & 0x1800 != 0x1000 && ((v | 0x6000) | 0x6000)
            & 0x1800 != 0x1000,
        imm >= 0 ==> imm as u64 == imm,
        imm < 0 ==> imm as u64 == imm + 0x1_0000_0000_0000_0000,
{
}

proof fn lemma_csr_written(h: Hart, addr: u16, val: u64)
    requires
        sound_parts(h),
    ensures
        csr_written(h, addr, val) matches Some(h1) ==> sound_parts(h1) && h1.pc == h.pc,
{
    mpp_stays_a_mode(h, addr, val, 0, 0, 0);
    a_trap_vector_has_a_mode(h.csrs.mtvec, val);
    a_trap_vector_has_a_mode(h.csrs.stvec, val);
    lemma_even_bits(val, 0);
    reveal(csr_written);
}

proof fn lemma_trapped(h: Hart, cause: u64, tval: u64, epc: u64)
    requires
        sound_parts(h),
    ensures
        sound(trapped(h, cause, tval, epc)),
{
    mpp_stays_a_mode(h, 0, 0, cause, tval, epc);
    lemma_even_bits(epc, 0);
    lemma_even_bits(h.csrs.mtvec, 0);
    lemma_even_bits(h.csrs.stvec, 0);
    lemma_even_bits(cause, 0);
}

proof fn lemma_fetched(h: Hart, pc: u64)
    requires
        sound_parts(h),
    ensures
        ({
            let (h1, r) = fetched(h, pc);
            &&& sound_parts(h1)
            &&& h1.pc == h.pc
            &&& r matches Ok((_, len)) ==> len == 2 || len == 4
        }),
{
    lemma_fetched_half(h, pc);
    lemma_fetched_half(fetched_half(h, pc).0, pc.wrapping_add(2));
}

proof fn lemma_fetched_half(h: Hart, va: u64)
    requires
        sound_parts(h),
    ensures
        sound_parts(fetched_half(h, va).0),
        fetched_half(h, va).0.pc == h.pc,
{
    translation_touches_only_the_tlb(h, va, Access::Fetch, h.prv, 2);
    translation_keeps_the_place_in_the_page(h, va, Access::Fetch, h.prv, 2);
}

proof fn lemma_split_load(h: Hart, va: u64, prv: PrivMode, bs: Seq<u8>, size: nat)
    requires
        h.tlb.len() == 64,
        tlb_aligned(h.tlb),
    ensures
        split_load(h, va, prv, bs, size).0.tlb.len() == 64,
        tlb_aligned(split_load(h, va, prv, bs, size).0.tlb),
    decreases size - bs.len(),
{
    if bs.len() < size {
        let b = va.wrapping_add(bs.len() as u64);
        translation_keeps_the_place_in_the_page(h, b, Access::Read, prv, 1);
        let (h1, r) = translated(h, b, Access::Read, prv, 1);
        if let Ok(pa) = r {
            if let Some(off) = ram_offset(h1.ram_base, h1.ram.len(), pa, 1) {
                lemma_split_load(h1, va, prv, bs.push(h1.ram[off]), size);
            }
        }
    }
}

proof fn lemma_split_store(h: Hart, va: u64, prv: PrivMode, pas: Seq<u64>, size: nat)
    requires
        h.tlb.len() == 64,
        tlb_aligned(h.tlb),
    ensures
        split_store(h, va, prv, pas, size).0.tlb.len() == 64,
        tlb_aligned(split_store(h, va, prv, pas, size).0.tlb),
    decreases size - pas.len(),
{
    if pas.len() < size {
        let b = va.wrapping_add(pas.len() as u64);
        translation_keeps_the_place_in_the_page(h, b, Access::Write, prv, 1);
        let (h1, r) = translated(h, b, Access::Write, prv, 1);
        if let Ok(pa) = r {
            if ram_offset(h1.ram_base, h1.ram.len(), pa, 1) is Some {
                lemma_split_store(h1, va, prv, pas.push(pa), size);
            }
        }
    }
}

proof fn lemma_loaded(h: Hart, va: u64, size: int)
    requires
        sound_parts(h),
    ensures
        sound_parts(loaded(h, va, size).0),
        loaded(h, va, size).0.pc == h.pc,
        loaded(h, va, size).0.csrs == h.csrs,
{
    a_load_only_caches(h, va, size);
    let prv = data_priv_of(h);
    lemma_split_load(h, va, prv, Seq::empty(), size as nat);
    translation_keeps_the_place_in_the_page(h, va, Access::Read, prv, size as u64);
    reveal(loaded);
}

proof fn lemma_stored(h: Hart, va: u64, size: int, val: u64)
    requires
        sound_parts(h),
    ensures
        sound_parts(stored(h, va, size, val).0),
        stored(h, va, size, val).0.pc == h.pc,
{
    a_refused_store_writes_nothing(h, va, size, val);
    let prv = data_priv_of(h);
    lemma_split_store(h, va, prv, Seq::empty(), size as nat);
    translation_keeps_the_place_in_the_page(h, va, Access::Write, prv, size as u64);
    reveal(stored);
}

proof fn lemma_fp_executed(h: Hart, raw: u32, next: u64)
    requires
        sound_parts(h),
        next % 2 == 0,
    ensures
        sound_parts(fp_executed(h, raw, next).0),
        fp_executed(h, raw, next).0.pc == h.pc,
{
    reveal(fp_executed);
    reveal(fp_loaded);
    reveal(fp_stored);
    let op = opcode_of(raw);
    let m = h.csrs.mstatus;
    lemma_even_bits(m, 0);
    if op == 0x07 {
        let va = h.x[rs1_of(raw) as int].wrapping_add(imm_i_of(raw) as u64);
        lemma_loaded(h, va, 4);
        lemma_loaded(h, va, 8);
    } else if op == 0x27 {
        let va = h.x[rs1_of(raw) as int].wrapping_add(imm_s_of(raw) as u64);
        let g = Hart { reservation: None, ..h };
        let v = h.f[rs2_of(raw) as int];
        lemma_stored(g, va, 4, extended(v, 4, false));
        lemma_stored(g, va, 8, extended(v, 8, false));
    }
}

proof fn lemma_executed(h: Hart, instr: Instr, raw: u32, pc: u64, len: u64, o: Observed)
    requires
        sound(h),
        pc % 2 == 0,
        len % 2 == 0,
        jumps_evenly(instr),
    ensures
        ({
            let (h1, r) = executed(h, instr, raw, pc, len, o);
            &&& sound_parts(h1)
            &&& r is Ok ==> h1.pc % 2 == 0
        }),
{
    let next = pc.wrapping_add(len);
    match instr {
        Instr::Load { op, rd, rs1, imm } => {
            reveal(load_executed);
            lemma_loaded(h, h.x[rs1 as int].wrapping_add(imm as u64), op.size_of());
        },
        Instr::Store { op, rs1, rs2, imm } => {
            reveal(store_executed);
            lemma_stored(
                Hart { reservation: None, ..h },
                h.x[rs1 as int].wrapping_add(imm as u64),
                op.size_of(),
                extended(h.x[rs2 as int], op.size_of(), false),
            );
        },
        Instr::Csr { op, rd, rs1, csr, imm } => {
            reveal(csr_executed);
            let src = if imm {
                rs1 as u64
            } else {
                h.x[rs1 as int]
            };
            if let Some(before) = csr_value(h, csr, o) {
                lemma_csr_written(h, csr, src);
                lemma_csr_written(h, csr, before | src);
                lemma_csr_written(h, csr, before & !src);
            }
        },
        Instr::Amo { op, rd, rs1, rs2, width, .. } => {
            reveal(amo_executed);
            let va = h.x[rs1 as int];
            let prv = data_priv_of(h);
            translation_touches_only_the_tlb(h, va, Access::Read, prv, width as u64);
            translation_touches_only_the_tlb(h, va, Access::Write, prv, width as u64);
            translation_keeps_the_place_in_the_page(h, va, Access::Read, prv, width as u64);
            translation_keeps_the_place_in_the_page(h, va, Access::Write, prv, width as u64);
        },
        Instr::Fp { raw: fp_raw } => {
            lemma_fp_executed(h, fp_raw, next);
        },
        Instr::Illegal(_) => {},
        _ => {
            if is_system(instr) {
                reveal(system_executed);
                mpp_stays_a_mode(h, 0, 0, 0, 0, 0);
            } else {
                reveal(int_executed);
                match instr {
                    Instr::Jal { imm, .. } => {
                        lemma_even_bits(0, imm);
                    },
                    Instr::Branch { imm, .. } => {
                        lemma_even_bits(0, imm);
                    },
                    Instr::Jalr { rs1, imm, .. } => {
                        lemma_even_bits(h.x[rs1 as int].wrapping_add(imm as u64), 0);
                    },
                    _ => {},
                }
            }
        },
    }
}

/// One turn of the run loop keeps a hart sound.
pub proof fn a_turn_keeps_the_hart_sound(h: Hart, o: Observed)
    requires
        sound(h),
    ensures
        sound(ticked(h, o).0),
{
    let h1 = match next_interrupt(h) {
        Some(code) => after_interrupt(h, code),
        None => h,
    };
    if let Some(code) = next_interrupt(h) {
        lemma_trapped(h, code | INTERRUPT_BIT, 0, h.pc);
    }
    lemma_fetched(h1, h1.pc);
    let (f, r) = fetched(h1, h1.pc);
    let (h2, out) = stepped(h1, h1.pc, o);
    if let Ok((raw, len)) = r {
        decoded_jumps_are_even(raw);
        lemma_executed(f, instr_of(raw), raw, h1.pc, len, o);
    }
    if let Err(e) = out {
        lemma_trapped(h2, e.code_of(), e.tval_of(), h1.pc);
    }
}

/// A run keeps a hart sound, whatever other threads do meanwhile.
pub proof fn a_run_keeps_the_hart_sound(h: Hart, i: nat, max: nat, e: Surroundings)
    requires
        sound(h),
    ensures
        sound(ran(h, i, max, e).0),
    decreases max - i,
{
    let polling = i % KICK_POLL as nat == 0;
    if i < max && !(polling && (e.kicked)(i)) {
        let h1 = if polling {
            Hart { mip_ext: (e.lines)(i), ..h }
        } else {
            h
        };
        a_turn_keeps_the_hart_sound(h1, (e.seen)(i));
        let (h2, exit) = ticked(h1, (e.seen)(i));
        if exit is None {
            a_run_keeps_the_hart_sound(h2, i + 1, max, e);
        }
    }
}

/// A hart is sound at reset, and stays it when a waiting load gets its data.
pub proof fn harts_start_sound(
    hart_id: u64,
    ram_base: u64,
    ram: Seq<u8>,
    clock: Clock,
    wires: Wires,
    h: Hart,
    data: u64,
)
    ensures
        sound(Hart::reset(hart_id, ram_base, ram, clock, wires)),
        sound(h) && h.pending is Some ==> sound(mmio_completed(h, data)),
{
    lemma_even_bits(h.csrs.mstatus, 0);
}

} // verus!
