//! Loads that wait for a device: only they leave a hart waiting, and what
//! arrives goes where they asked for it.

use vstd::prelude::*;

use crate::cpu::{
    extended, fetched, fetched_half, instr_of, mmio_completed, ran, stepped, ticked, with_x, Hart,
    Observed, PendingLoad, Surroundings, KICK_POLL,
};
use crate::csr::{csr_value, csr_written};
use crate::decode::{funct3_of, imm_i_of, imm_s_of, opcode_of, rd_of, rs1_of, rs2_of, Instr};
use crate::exec::{
    amo_executed, csr_executed, executed, int_executed, is_system, load_executed, store_executed,
    system_executed,
};
use crate::fpu::{fp_executed, fp_loaded, fp_stored, fp_width};
use crate::laws::{a_load_only_caches, a_refused_store_writes_nothing};
use crate::mmu::{data_priv_of, translation_touches_only_the_tlb, Access};
use crate::trap::{after_interrupt, next_interrupt};
use crate::VmExit;

verus! {

/// What a load instruction that goes on at `next` waits for: where its data
/// goes, and in which form. `None` for any other instruction.
pub open spec fn load_of(instr: Instr, next: u64) -> Option<PendingLoad> {
    match instr {
        Instr::Load { op, rd, .. } => Some(
            PendingLoad {
                rd,
                size: op.size_of() as u8,
                sign: op.is_signed(),
                freg: false,
                next_pc: next,
            },
        ),
        Instr::Fp { raw } => match fp_width(funct3_of(raw)) {
            Some(size) if opcode_of(raw) == 0x07 => Some(
                PendingLoad {
                    rd: rd_of(raw),
                    size: size as u8,
                    sign: false,
                    freg: true,
                    next_pc: next,
                },
            ),
            _ => None,
        },
        _ => None,
    }
}

/// What an instruction leaves waiting: the load that it is, where it exits for
/// its data, with nothing but caches changed, and else what waited before.
pub open spec fn waits(h: Hart, instr: Instr, next: u64, out: (Hart, Option<VmExit>)) -> bool {
    match out.1 {
        Some(VmExit::MmioRead { size, .. }) => {
            &&& load_of(instr, next) matches Some(p) && p.size == size && out.0.pending == Some(p)
            &&& out.0 == (Hart {
                pending: out.0.pending,
                tlb: out.0.tlb,
                load_pages: out.0.load_pages,
                ..h
            })
        },
        _ => out.0.pending == h.pending,
    }
}

proof fn lemma_csr_written_waits(h: Hart, addr: u16, val: u64)
    ensures
        csr_written(h, addr, val) matches Some(h1) ==> h1.pending == h.pending,
{
    reveal(csr_written);
}

proof fn lemma_fp_executed_waits(h: Hart, raw: u32, next: u64)
    ensures
        ({
            let (h1, r) = fp_executed(h, raw, next);
            match r {
                Ok((exit, holds)) => {
                    &&& waits(h, Instr::Fp { raw }, next, (h1, exit))
                    &&& holds == (exit is Some && exit->0 is MmioRead)
                },
                Err(_) => h1.pending == h.pending,
            }
        }),
{
    reveal(fp_executed);
    reveal(fp_loaded);
    reveal(fp_stored);
    let op = opcode_of(raw);
    if op == 0x07 {
        let va = h.x[rs1_of(raw) as int].wrapping_add(imm_i_of(raw) as u64);
        a_load_only_caches(h, va, 4);
        a_load_only_caches(h, va, 8);
    } else if op == 0x27 {
        let va = h.x[rs1_of(raw) as int].wrapping_add(imm_s_of(raw) as u64);
        let g = Hart { reservation: None, ..h };
        let v = h.f[rs2_of(raw) as int];
        a_refused_store_writes_nothing(g, va, 4, extended(v, 4, false));
        a_refused_store_writes_nothing(g, va, 8, extended(v, 8, false));
    }
}

proof fn lemma_executed_waits(h: Hart, instr: Instr, raw: u32, pc: u64, len: u64, o: Observed)
    ensures
        ({
            let (h1, r) = executed(h, instr, raw, pc, len, o);
            match r {
                Ok(exit) => waits(h, instr, pc.wrapping_add(len), (h1, exit)),
                Err(_) => h1.pending == h.pending,
            }
        }),
{
    let next = pc.wrapping_add(len);
    match instr {
        Instr::Load { op, rd, rs1, imm } => {
            reveal(load_executed);
            a_load_only_caches(h, h.x[rs1 as int].wrapping_add(imm as u64), op.size_of());
        },
        Instr::Store { op, rs1, rs2, imm } => {
            reveal(store_executed);
            a_refused_store_writes_nothing(
                Hart { reservation: None, ..h },
                h.x[rs1 as int].wrapping_add(imm as u64),
                op.size_of(),
                extended(h.x[rs2 as int], op.size_of(), false),
            );
        },
        Instr::Csr { op, rd, rs1, csr, imm } => {
            reveal(csr_executed);
            let src = if imm {
                rs1 as u64
            } else {
                h.x[rs1 as int]
            };
            if let Some(before) = csr_value(h, csr, o) {
                lemma_csr_written_waits(h, csr, src);
                lemma_csr_written_waits(h, csr, before | src);
                lemma_csr_written_waits(h, csr, before & !src);
            }
        },
        Instr::Amo { op, rd, rs1, rs2, width, .. } => {
            reveal(amo_executed);
            let va = h.x[rs1 as int];
            let prv = data_priv_of(h);
            translation_touches_only_the_tlb(h, va, Access::Read, prv, width as u64);
            translation_touches_only_the_tlb(h, va, Access::Write, prv, width as u64);
        },
        Instr::Fp { raw: fp_raw } => {
            lemma_fp_executed_waits(h, fp_raw, next);
        },
        Instr::Illegal(_) => {},
        _ => {
            if is_system(instr) {
                reveal(system_executed);
            } else {
                reveal(int_executed);
            }
        },
    }
}

proof fn lemma_fetched_waits(h: Hart, pc: u64)
    ensures
        ({
            let f = fetched(h, pc).0;
            f == (Hart { tlb: f.tlb, fetch_tag: f.fetch_tag, fetch_page: f.fetch_page, ..h })
        }),
{
    let h1 = fetched_half(h, pc).0;
    translation_touches_only_the_tlb(h, pc, Access::Fetch, h.prv, 2);
    translation_touches_only_the_tlb(h1, pc.wrapping_add(2), Access::Fetch, h1.prv, 2);
}

/// The hart `h` waits at its pc for `size` bytes, for the load instruction
/// there. `g` is the hart as it fetched that: they differ in what is cached,
/// and in that `h` waits.
pub open spec fn waits_for(g: Hart, h: Hart, size: u8) -> bool {
    &&& h == (Hart {
        pending: h.pending,
        tlb: h.tlb,
        fetch_tag: h.fetch_tag,
        fetch_page: h.fetch_page,
        load_pages: h.load_pages,
        ..g
    })
    &&& fetched(g, g.pc).1 matches Ok((raw, len)) && load_of(instr_of(raw), g.pc.wrapping_add(len))
        matches Some(p) && p.size == size && h.pending == Some(p)
}

proof fn lemma_ticked_waits(h: Hart, o: Observed)
    ensures
        ({
            let (h1, exit) = ticked(h, o);
            match exit {
                Some(VmExit::MmioRead { size, .. }) => exists|g: Hart| #[trigger]
                    waits_for(g, h1, size),
                _ => h1.pending == h.pending,
            }
        }),
{
    let g = match next_interrupt(h) {
        Some(code) => after_interrupt(h, code),
        None => h,
    };
    lemma_fetched_waits(g, g.pc);
    let (f, r) = fetched(g, g.pc);
    if let Ok((raw, len)) = r {
        lemma_executed_waits(f, instr_of(raw), raw, g.pc, len, o);
        let (h1, exit) = ticked(h, o);
        if let Some(VmExit::MmioRead { size, .. }) = exit {
            assert(stepped(g, g.pc, o) == executed(f, instr_of(raw), raw, g.pc, len, o));
            assert(waits_for(g, h1, size));
        }
    }
}

/// A run leaves a load waiting where it exits for its data, at the pc of that
/// load, and nowhere else.
pub proof fn only_a_device_load_waits(h: Hart, i: nat, max: nat, e: Surroundings)
    requires
        h.pending is None,
    ensures
        ({
            let (h1, exit) = ran(h, i, max, e);
            match exit {
                VmExit::MmioRead { size, .. } => exists|g: Hart| #[trigger] waits_for(g, h1, size),
                _ => h1.pending is None,
            }
        }),
    decreases max - i,
{
    let polling = i % KICK_POLL as nat == 0;
    if i < max && !(polling && (e.kicked)(i)) {
        let h1 = if polling {
            Hart { mip_ext: (e.lines)(i), ..h }
        } else {
            h
        };
        lemma_ticked_waits(h1, (e.seen)(i));
        let (h2, exit) = ticked(h1, (e.seen)(i));
        if exit is None {
            only_a_device_load_waits(h2, i + 1, max, e);
        }
    }
}

/// The hart `h`, which waits for the load that `g` fetched, after `data` came:
/// an integer load writes its register, extended as the load says, and no
/// other; the pc moves behind the instruction, which counts once; and nothing
/// waits any more.
pub open spec fn load_completed(g: Hart, h: Hart, data: u64, after: Hart) -> bool {
    let (raw, len) = fetched(g, g.pc).1->Ok_0;
    &&& after.pc == h.pc.wrapping_add(len)
    &&& after.instret == h.instret.wrapping_add(1)
    &&& after.pending is None
    &&& match instr_of(raw) {
        Instr::Load { op, rd, .. } => after == (Hart {
            x: with_x(h, rd, extended(data, op.size_of(), op.is_signed())).x,
            pc: after.pc,
            instret: after.instret,
            pending: None,
            ..h
        }),
        _ => after.x == h.x && after.ram == h.ram && after.prv == h.prv,
    }
}

/// A run that exits for the data of a device stands at the load that waits
/// for it, and the data completes that load.
pub proof fn device_data_completes_the_load(h: Hart, max: nat, e: Surroundings, data: u64)
    requires
        h.pending is None,
        ran(h, 0, max, e).1 is MmioRead,
    ensures
        ({
            let (h1, exit) = ran(h, 0, max, e);
            exists|g: Hart| #[trigger]
                waits_for(g, h1, exit->MmioRead_size) && load_completed(
                    g,
                    h1,
                    data,
                    mmio_completed(h1, data),
                )
        }),
{
    only_a_device_load_waits(h, 0, max, e);
    let (h1, exit) = ran(h, 0, max, e);
    let g = choose|g: Hart| #[trigger] waits_for(g, h1, exit->MmioRead_size);
    assert(waits_for(g, h1, exit->MmioRead_size));
    assert(load_completed(g, h1, data, mmio_completed(h1, data)));
}

} // verus!
