//! The hart: architectural state, fetch, the decode cache and the run loop.

use std::sync::atomic::{AtomicBool, AtomicU64, Ordering};
use std::sync::Arc;

use vstd::prelude::*;

use crate::csr::{csr_refused, csr_value, csr_written, CsrFile, Csrs, MIP_SSIP, MSTATUS_FS_MASK};
use crate::decode;
use crate::decode::{
    decoded, decoded_compressed, decoded_compressed_is_valid, decoded_is_valid, Instr,
};
use crate::exec::{executed, instructions_leave_the_loop_to_itself, Outcome};
use crate::mem::{le_value, ram_load, ram_offset, GuestRam};
use crate::mmu::{data_pages_dropped, tlb_aligned, translated, Access, Tlb, TlbEntry};
use crate::trap::{after_exception, after_interrupt, next_interrupt, Exception};
use crate::waiting::only_a_device_load_waits;
use crate::{Clock, IrqLine, PrivMode, VmExit};

verus! {

/// Instructions executed between `kick` polls. The kick is architecturally
/// asynchronous, so observing it a few hundred instructions late is legal
/// (QEMU polls at translation-block boundaries) and it keeps a cross-thread
/// atomic RMW off the per-instruction path. At interpreter speeds this is
/// well under a microsecond of latency.
pub const KICK_POLL: u64 = 256;

pub const DCACHE_SIZE: usize = 16384;

/// One memoized decode. The empty value is `raw = 0`, which is genuinely the
/// decode of an all-zero halfword, so a fresh cache needs no separate valid
/// bit.
#[derive(Clone, Copy)]
pub struct DecodeEntry {
    pub raw: u32,
    pub instr: Instr,
}

pub const DPAGE_SIZE: usize = 16;

/// One primed data page: `tag` is `(vpn << 4) | data-context` (see
/// `data_tag_of`) and `off` its RAM byte offset. Slots are only filled for
/// pages that lie wholly inside RAM with no PMP entry active, so a hit
/// authorizes any access of the recorded kind anywhere in the page without a
/// bounds, permission or PMP re-check. `u64::MAX` is never a valid tag.
#[derive(Clone, Copy)]
pub struct DataPage {
    pub tag: u64,
    pub off: usize,
}

/// State of an in-flight MMIO load: the instruction has not retired, so pc
/// stays at the load until `complete_mmio_read()` supplies the data.
#[derive(Clone, Copy)]
pub struct PendingLoad {
    pub rd: u8,
    pub size: u8,
    pub sign: bool,
    /// Destination is an f-register (flw/fld); flw results are NaN-boxed.
    pub freg: bool,
    pub next_pc: u64,
}

/// LR/SC reservation, recorded by LR: physical address, access width, and
/// the value observed. SC succeeds by compare-exchanging the reserved word
/// against `val`, so conflicting writes are detected by value rather than
/// by monitoring the address. Caveat (ABA): if other harts change the word
/// and restore the exact value it held between LR and SC, the SC succeeds
/// where real hardware could fail it. Protocols built on LR/SC (locks,
/// refcounts, lock-free lists over word-sized state) remain correct because
/// the final compare-exchange itself is still atomic.
#[derive(Debug, Clone, Copy, PartialEq, Eq, Structural)]
pub struct Reservation {
    pub addr: u64,
    pub width: u8,
    pub val: u64,
}

/// What the state shared with other threads held when an instruction looked:
/// the external interrupt lines and the shared timebase.
#[derive(Debug, Clone, Copy)]
pub struct Observed {
    pub lines: u64,
    pub time: u64,
}

/// What a read of CSR `addr` can see beyond the hart: the interrupt lines at
/// sip and mip, the clock at time, and nothing anywhere else.
pub open spec fn seen_by_csr(h: Hart, addr: u16, o: Observed) -> bool {
    &&& addr != 0x144 && addr != 0x344 ==> o.lines == 0
    &&& if addr == 0xc01 {
        exists|held: u64| o.time == #[trigger] h.clock.reading(h.instret, held)
    } else {
        o.time == 0
    }
}

/// What an instruction can see beyond the hart: a CSR access what its CSR
/// shows, `wfi` the interrupt lines that may wake it, and any other nothing.
pub open spec fn seen_by(h: Hart, instr: Instr, o: Observed) -> bool {
    match instr {
        Instr::Csr { csr, .. } => seen_by_csr(h, csr, o),
        Instr::Wfi => o.time == 0,
        _ => o.lines == 0 && o.time == 0,
    }
}

/// What a hart shares with the handles that drive it from other threads: the
/// flag of a kick and the interrupt lines. What these hold is not part of it.
pub struct Wires {
    pub kick: Arc<AtomicBool>,
    pub lines: Arc<AtomicU64>,
}

/// The state of a hart. The decode cache is not part of it: it holds nothing
/// that the instruction bits do not determine.
pub struct Hart {
    pub x: Seq<u64>,
    pub f: Seq<u64>,
    pub pc: u64,
    pub prv: PrivMode,
    pub csrs: Csrs,
    pub reservation: Option<Reservation>,
    pub sbi_mode: bool,
    pub ram_base: u64,
    pub ram: Seq<u8>,
    pub clock: Clock,
    pub instret: u64,
    pub pending: Option<PendingLoad>,
    pub tlb: Seq<TlbEntry>,
    pub fetch_tag: u64,
    pub fetch_page: usize,
    pub load_pages: Seq<DataPage>,
    pub store_pages: Seq<DataPage>,
    pub mip_ext: u64,
    pub pmp_active: bool,
    pub tohost: Option<u64>,
    pub wires: Wires,
}

/// The hart with `val` in x-register `rd`; x0 is hard-wired to zero.
pub open spec fn with_x(h: Hart, rd: u8, val: u64) -> Hart {
    if rd == 0 {
        h
    } else {
        Hart { x: h.x.update(rd as int, val), ..h }
    }
}

/// The hart after the current instruction retired to `next`.
pub open spec fn retired(h: Hart, next: u64) -> Hart {
    Hart { pc: next, instret: h.instret.wrapping_add(1), ..h }
}

/// `data` cut to `size` bytes and sign- or zero-extended to 64 bits.
pub open spec fn extended(data: u64, size: int, sign: bool) -> u64 {
    if size == 1 {
        let v = data % 0x100;
        if sign && v >= 0x80 {
            (v + 0xffff_ffff_ffff_ff00) as u64
        } else {
            v
        }
    } else if size == 2 {
        let v = data % 0x1_0000;
        if sign && v >= 0x8000 {
            (v + 0xffff_ffff_ffff_0000) as u64
        } else {
            v
        }
    } else if size == 4 {
        let v = data % 0x1_0000_0000;
        if sign && v >= 0x8000_0000 {
            (v + 0xffff_ffff_0000_0000) as u64
        } else {
            v
        }
    } else {
        data
    }
}

/// The single-precision value `bits` as an f-register holds it: NaN-boxed.
pub open spec fn boxed(bits: u64) -> u64 {
    0xffff_ffff_0000_0000 | (bits & 0xffff_ffff)
}

/// The hart after the pending MMIO load got its data and retired.
pub open spec fn mmio_completed(h: Hart, data: u64) -> Hart
    recommends
        h.pending is Some,
{
    let p = h.pending->0;
    let h1 = Hart { pending: None, ..h };
    let h2 = if p.freg {
        Hart {
            f: h1.f.update(
                p.rd as int,
                if p.size == 4 {
                    boxed(data)
                } else {
                    data
                },
            ),
            csrs: Csrs { mstatus: h1.csrs.mstatus | MSTATUS_FS_MASK, ..h1.csrs },
            ..h1
        }
    } else {
        with_x(h1, p.rd, extended(data, p.size as int, p.sign))
    };
    retired(h2, p.next_pc)
}

/// The instruction that the fetched bits encode: quadrant 3 words are 32-bit
/// instructions, everything else is compressed.
pub open spec fn instr_of(raw: u32) -> Instr {
    if raw % 4 == 3 {
        decoded(raw)
    } else {
        decoded_compressed(raw as u16)
    }
}

/// The tag of the fetch page of `va`. Fetch permission depends on the
/// privilege mode and on nothing else in mstatus, so the mode rides in the
/// tag instead of needing an invalidation hook.
pub open spec fn fetch_tag_of(h: Hart, va: u64) -> u64 {
    ((va >> 10) & !3) | h.prv.number()
}

/// One 16-bit fetch parcel, translated on its own, priming the fetch fast
/// path on the way through.
pub open spec fn fetched_half(h: Hart, va: u64) -> (Hart, Result<u16, Exception>) {
    let (h1, r) = translated(h, va, Access::Fetch, h.prv, 2);
    match r {
        Err(e) => (h1, Err(e)),
        Ok(pa) => {
            let h2 = match ram_offset(h1.ram_base, h1.ram.len(), pa & !0xfff, 0x1000) {
                Some(off) if !h1.pmp_active => Hart {
                    fetch_tag: fetch_tag_of(h1, va),
                    fetch_page: off as usize,
                    ..h1
                },
                _ => h1,
            };
            match ram_load(h2.ram_base, h2.ram, pa, 2) {
                Some(v) => (h2, Ok(v as u16)),
                None => (h2, Err(Exception::InstrAccessFault(va))),
            }
        },
    }
}

/// The instruction bits at `pc` and their length. A fetch that stays inside
/// the primed page reads it directly; otherwise each half is translated on
/// its own, so a fault reports the virtual address of the faulting half.
pub open spec fn fetched(h: Hart, pc: u64) -> (Hart, Result<(u32, u64), Exception>) {
    let off = (pc & 0xfff) as int;
    if fetch_tag_of(h, pc) == h.fetch_tag && off <= 0xffc {
        let at = h.fetch_page + off;
        let word = le_value(h.ram.subrange(at, at + 4)) as u32;
        if word % 4 == 3 {
            (h, Ok((word, 4)))
        } else {
            (h, Ok((word % 0x1_0000, 2)))
        }
    } else {
        let (h1, r1) = fetched_half(h, pc);
        match r1 {
            Err(e) => (h1, Err(e)),
            Ok(lo) => if lo % 4 != 3 {
                (h1, Ok((lo as u32, 2)))
            } else {
                let (h2, r2) = fetched_half(h1, pc.wrapping_add(2));
                match r2 {
                    Err(e) => (h2, Err(e)),
                    Ok(hi) => (h2, Ok(((hi * 0x1_0000 + lo) as u32, 4))),
                }
            },
        }
    }
}

/// What fetching, decoding and executing the instruction at `pc` does.
pub open spec fn stepped(h: Hart, pc: u64, o: Observed) -> (Hart, Outcome) {
    let (h1, r) = fetched(h, pc);
    match r {
        Err(e) => (h1, Err(e)),
        Ok((raw, len)) => executed(h1, instr_of(raw), raw, pc, len, o),
    }
}

/// What one turn of the run loop does: take the interrupt that is due, if
/// any, then step, taking the exception if that raises one.
pub open spec fn ticked(h: Hart, o: Observed) -> (Hart, Option<VmExit>) {
    let h1 = match next_interrupt(h) {
        Some(code) => after_interrupt(h, code),
        None => h,
    };
    let (h2, r) = stepped(h1, h1.pc, o);
    match r {
        Ok(exit) => (h2, exit),
        Err(e) => (after_exception(h2, e, h1.pc), None),
    }
}

/// What other threads do around a run: by the number of turns taken so far,
/// whether a kick is waiting, what the interrupt lines are, and what an
/// instruction sees when it looks.
pub struct Surroundings {
    pub kicked: spec_fn(nat) -> bool,
    pub lines: spec_fn(nat) -> u64,
    pub seen: spec_fn(nat) -> Observed,
}

/// The rest of a run of `max` turns of which `i` are taken. Every `KICK_POLL`
/// turns the kick is polled and the interrupt lines are sampled.
pub open spec fn ran(h: Hart, i: nat, max: nat, e: Surroundings) -> (Hart, VmExit)
    decreases max - i,
{
    let polling = i % KICK_POLL as nat == 0;
    if i >= max {
        (h, VmExit::InstrLimit)
    } else if polling && (e.kicked)(i) {
        (h, VmExit::Interrupted)
    } else {
        let h1 = if polling {
            Hart { mip_ext: (e.lines)(i), ..h }
        } else {
            h
        };
        let (h2, exit) = ticked(h1, (e.seen)(i));
        match exit {
            Some(x) => (h2, x),
            None => ran(h2, i + 1, max, e),
        }
    }
}

/// Surroundings of which the first look at the kick and the lines is given.
pub open spec fn given(e: Surroundings, kicked: bool, lines: u64) -> bool {
    (e.kicked)(0) == kicked && (e.lines)(0) == lines
}

/// Surroundings in which the first turns saw this.
pub open spec fn saw(e: Surroundings, seen: Seq<Observed>) -> bool {
    forall|j: nat| j < seen.len() ==> #[trigger] (e.seen)(j) == seen[j as int]
}

/// Surroundings that do the same before turn `n`.
pub open spec fn alike(e: Surroundings, f: Surroundings, n: nat) -> bool {
    forall|j: nat|
        #![trigger (e.kicked)(j)]
        #![trigger (e.lines)(j)]
        #![trigger (e.seen)(j)]
        j < n ==> (e.kicked)(j) == (f.kicked)(j) && (e.lines)(j) == (f.lines)(j) && (e.seen)(j)
            == (f.seen)(j)
}

/// The surroundings from turn `i` on.
pub open spec fn later(e: Surroundings, i: nat) -> Surroundings {
    Surroundings {
        kicked: |j: nat| (e.kicked)(i + j),
        lines: |j: nat| (e.lines)(i + j),
        seen: |j: nat| (e.seen)(i + j),
    }
}

/// Surroundings that do as `e` before turn `i` and as `f` from there on.
pub open spec fn joined(e: Surroundings, i: nat, f: Surroundings) -> Surroundings {
    Surroundings {
        kicked: |j: nat|
            if j < i {
                (e.kicked)(j)
            } else {
                (f.kicked)((j - i) as nat)
            },
        lines: |j: nat|
            if j < i {
                (e.lines)(j)
            } else {
                (f.lines)((j - i) as nat)
            },
        seen: |j: nat|
            if j < i {
                (e.seen)(j)
            } else {
                (f.seen)((j - i) as nat)
            },
    }
}

/// Surroundings in which the kick and the lines stay as given, and each turn
/// sees what was seen.
pub open spec fn witnessed(kicked: bool, lines: u64, seen: Seq<Observed>) -> Surroundings {
    Surroundings { kicked: |j: nat| kicked, lines: |j: nat| lines, seen: |j: nat| seen[j as int] }
}

/// A turn does not end a run by a kick or by the budget.
pub(crate) proof fn lemma_ticked_exit(h: Hart, o: Observed)
    ensures
        ticked(h, o).1 != Some(VmExit::InstrLimit),
        ticked(h, o).1 != Some(VmExit::Interrupted),
{
    let h1 = match next_interrupt(h) {
        Some(code) => after_interrupt(h, code),
        None => h,
    };
    let (h2, r) = fetched(h1, h1.pc);
    if let Ok((raw, len)) = r {
        instructions_leave_the_loop_to_itself(h2, instr_of(raw), raw, h1.pc, len, o);
    }
}

/// A run is the same in surroundings that do the same while it lasts.
pub proof fn a_run_depends_on_its_surroundings_alone(
    h: Hart,
    i: nat,
    max: nat,
    e: Surroundings,
    f: Surroundings,
)
    requires
        alike(e, f, max),
    ensures
        ran(h, i, max, e) == ran(h, i, max, f),
    decreases max - i,
{
    if i < max {
        let polling = i % KICK_POLL as nat == 0;
        assert((e.kicked)(i) == (f.kicked)(i));
        if !(polling && (e.kicked)(i)) {
            let h1 = if polling {
                Hart { mip_ext: (e.lines)(i), ..h }
            } else {
                h
            };
            let (h2, exit) = ticked(h1, (e.seen)(i));
            if exit is None {
                a_run_depends_on_its_surroundings_alone(h2, i + 1, max, e, f);
            }
        }
    }
}

/// A run is its intervals, one after the other: the `n` turns from poll `i`
/// on either use up their budget, and the run goes on from where they end, or
/// they end it.
pub proof fn a_run_is_its_intervals(h: Hart, k: nat, n: nat, i: nat, max: nat, e: Surroundings)
    requires
        i % KICK_POLL as nat == 0,
        k <= n <= KICK_POLL,
        i + n <= max,
    ensures
        ({
            let (h1, exit) = ran(h, k, n, later(e, i));
            ran(h, i + k, max, e) == if exit == VmExit::InstrLimit {
                ran(h1, i + n, max, e)
            } else {
                (h1, exit)
            }
        }),
    decreases n - k,
{
    if k < n {
        let es = later(e, i);
        assert((i + k) % KICK_POLL as nat == k % KICK_POLL as nat);
        let polling = k % KICK_POLL as nat == 0;
        if !(polling && (es.kicked)(k)) {
            let h1 = if polling {
                Hart { mip_ext: (es.lines)(k), ..h }
            } else {
                h
            };
            lemma_ticked_exit(h1, (es.seen)(k));
            let (h2, exit) = ticked(h1, (es.seen)(k));
            if exit is None {
                a_run_is_its_intervals(h2, k + 1, n, i, max, e);
            }
        }
    }
}

/// Surroundings that do as joined ones do as each of the two in its turns.
proof fn lemma_joined(e: Surroundings, before: Surroundings, i: nat, f: Surroundings, n: nat)
    requires
        alike(e, joined(before, i, f), i + n),
    ensures
        alike(e, before, i),
        alike(later(e, i), f, n),
{
    let both = joined(before, i, f);
    let rest = later(e, i);
    assert forall|j: nat|
        #![trigger (e.kicked)(j)]
        #![trigger (e.lines)(j)]
        #![trigger (e.seen)(j)]
        j < i implies (e.kicked)(j) == (before.kicked)(j) && (e.lines)(j) == (
    before.lines)(j) && (e.seen)(j) == (before.seen)(j) by {
        assert((e.kicked)(j) == (both.kicked)(j));
    }
    assert forall|j: nat|
        #![trigger (rest.kicked)(j)]
        #![trigger (rest.lines)(j)]
        #![trigger (rest.seen)(j)]
        j < n implies (rest.kicked)(j) == (f.kicked)(j) && (rest.lines)(j) == (
    f.lines)(j) && (rest.seen)(j) == (f.seen)(j) by {
        assert((e.kicked)(i + j) == (both.kicked)(i + j));
    }
}

/// The `n` turns from poll `i` on, in surroundings that do as `f` did.
proof fn lemma_interval(
    h: Hart,
    n: nat,
    i: nat,
    max: nat,
    before: Surroundings,
    f: Surroundings,
    e: Surroundings,
)
    requires
        i % KICK_POLL as nat == 0,
        n <= KICK_POLL,
        i + n <= max,
        alike(e, joined(before, i, f), i + n),
    ensures
        alike(e, before, i),
        ({
            let (h1, exit) = ran(h, 0, n, f);
            ran(h, i, max, e) == if exit == VmExit::InstrLimit {
                ran(h1, i + n, max, e)
            } else {
                (h1, exit)
            }
        }),
{
    lemma_joined(e, before, i, f, n);
    a_run_depends_on_its_surroundings_alone(h, 0, n, later(e, i), f);
    a_run_is_its_intervals(h, 0, n, i, max, e);
}

/// Cross-thread handle for kicking a hart and driving its interrupt lines.
#[derive(Clone)]
pub struct CpuIntc {
    kick: Arc<AtomicBool>,
    irq_lines: Arc<AtomicU64>,
}

/// The mip bit that an interrupt line drives.
pub fn line_mask(line: IrqLine) -> (r: u64)
    ensures
        r == 1u64 << line.position(),
{
    1u64 << line.bit()
}

/// The interrupt lines after one of them was raised or lowered.
pub open spec fn lines_driven(lines: u64, line: IrqLine, level: bool) -> u64 {
    if level {
        lines | (1u64 << line.position())
    } else {
        lines & !(1u64 << line.position())
    }
}

impl CpuIntc {
    /// What the handle shares with its hart.
    pub closed spec fn wires(self) -> Wires {
        Wires { kick: self.kick, lines: self.irq_lines }
    }

    /// Whether the handle kicks this cpu and drives its interrupt lines.
    pub open spec fn drives(self, cpu: Cpu) -> bool {
        self.wires() == cpu@.wires
    }

    /// Ask the hart to leave `Cpu::run` with `VmExit::Interrupted`.
    pub fn kick(&self) {
        self.kick.store(true, Ordering::Release);
    }

    /// Raise or lower an interrupt line: the lines become what
    /// [`lines_driven`] makes of them. Other threads may drive them at once.
    pub fn set_irq(&self, line: IrqLine, level: bool) {
        let bit: u64 = line_mask(line);
        if level {
            let _ = self.irq_lines.fetch_or(bit, Ordering::AcqRel);
        } else {
            let _ = self.irq_lines.fetch_and(!bit, Ordering::AcqRel);
        }
    }
}

pub struct Cpu {
    pub xregs: [u64; 32],
    /// F/D register file.
    pub fregs: [u64; 32],
    pub pc: u64,
    pub priv_mode: PrivMode,
    pub csrs: CsrFile,
    /// LR/SC reservation (A extension). Consumed by SC; cleared by any
    /// store or AMO executed by this hart.
    pub reservation: Option<Reservation>,
    /// When set, `ecall` from S-mode exits with `VmExit::Ecall` (SBI call)
    /// instead of trapping. Off by default (riscv-tests semantics).
    pub sbi_mode: bool,
    /// Guest RAM. The pages primed for the fast paths lie in it, so it must
    /// not be exchanged for a smaller one.
    pub ram: GuestRam,
    pub(crate) clock: Clock,
    pub(crate) instret: u64,
    pub(crate) pending_load: Option<PendingLoad>,
    pub(crate) tlb: Tlb,
    /// Page the fetch fast path is primed for, tagged `(vpn << 2) | priv`;
    /// `u64::MAX` (never a valid tag) marks it empty.
    pub(crate) fetch_tag: u64,
    /// RAM byte offset of that page's physical base. Only installed when the
    /// whole 4 KiB page lies inside RAM and no PMP entry is active, so a hit
    /// needs neither a bounds check nor a PMP re-check. What the translation
    /// resolves to can still change, so every TLB flush and every PMP
    /// reconfiguration invalidates the entry.
    pub(crate) fetch_page: usize,
    /// Direct-mapped data-page caches, indexed by the low virtual page
    /// number bits: loads and stores are kept apart so a read-only page
    /// primed for loads can never satisfy a store.
    pub(crate) load_pages: [DataPage; 16],
    pub(crate) store_pages: [DataPage; 16],
    /// Snapshot of the external interrupt lines, refreshed between polls.
    /// Lines are asserted by other threads and interrupts are asynchronous,
    /// so serving the per-instruction pending check from a snapshot keeps a
    /// shared-memory load off the hot path without changing what the guest
    /// can observe. CSR reads of mip/sip and the WFI wake condition still
    /// consult the atomic directly.
    pub(crate) mip_ext: u64,
    /// Direct-mapped decode cache. Entries are indexed by pc but *validated*
    /// against the raw word re-read from memory on every hit, which makes the
    /// cache a pure memoization of `decode` (a function of the raw bits
    /// alone). Nothing can invalidate it: self-modifying code, satp changes
    /// and remote fences either change the raw bits - and miss - or leave
    /// them identical, in which case the cached decode is still the answer.
    pub(crate) dcache: Vec<DecodeEntry>,
    /// Cached "some PMP entry has A != OFF"; kept in sync by pmpcfg writes.
    pub(crate) pmp_active: bool,
    /// Store hook: a store to exactly this physical address exits with
    /// `VmExit::Shutdown` carrying the 64-bit RAM word (HTIF tohost).
    pub(crate) tohost_addr: Option<u64>,
    pub(crate) kick: Arc<AtomicBool>,
    pub(crate) irq_lines: Arc<AtomicU64>,
}

impl View for Cpu {
    type V = Hart;

    open(crate) spec fn view(&self) -> Hart {
        Hart {
            x: self.xregs@,
            f: self.fregs@,
            pc: self.pc,
            prv: self.priv_mode,
            csrs: self.csrs@,
            reservation: self.reservation,
            sbi_mode: self.sbi_mode,
            ram_base: self.ram.base(),
            ram: self.ram@,
            clock: self.clock,
            instret: self.instret,
            pending: self.pending_load,
            tlb: self.tlb@,
            fetch_tag: self.fetch_tag,
            fetch_page: self.fetch_page,
            load_pages: self.load_pages@,
            store_pages: self.store_pages@,
            mip_ext: self.mip_ext,
            pmp_active: self.pmp_active,
            tohost: self.tohost_addr,
            wires: Wires { kick: self.kick, lines: self.irq_lines },
        }
    }
}

/// Every primed page lies wholly inside RAM.
pub open spec fn pages_in_ram(pages: Seq<DataPage>, len: nat) -> bool {
    forall|i: int|
        #![trigger pages[i]]
        0 <= i < pages.len() ==> pages[i].tag == u64::MAX || pages[i].off + 0x1000 <= len
}

/// No page is primed.
pub open spec fn pages_empty(pages: Seq<DataPage>) -> bool {
    forall|i: int| 0 <= i < pages.len() ==> (#[trigger] pages[i]).tag == u64::MAX
}

/// A store to the `tohost` address is reported with the whole 64-bit word,
/// which must then lie inside RAM too.
pub open spec fn tohost_readable(base: u64, len: nat, tohost: Option<u64>) -> bool {
    tohost matches Some(a) ==> ram_offset(base, len, a, 1) is Some ==> ram_offset(
        base,
        len,
        a & !7,
        8,
    ) is Some
}

impl Hart {
    /// What holds of every hart.
    pub open spec fn wf(self) -> bool {
        &&& self.x.len() == 32
        &&& self.f.len() == 32
        &&& self.x[0] == 0
        &&& self.csrs.pmpcfg.len() == 16
        &&& self.csrs.pmpaddr.len() == 64
        &&& forall|i: int| 0 <= i < 64 ==> #[trigger] self.csrs.pmpaddr[i] < 0x40_0000_0000_0000
        &&& self.clock.wf()
        &&& self.tlb.len() == 64
        &&& tlb_aligned(self.tlb)
        &&& self.load_pages.len() == 16
        &&& self.store_pages.len() == 16
        &&& self.fetch_tag == u64::MAX || self.fetch_page + 0x1000 <= self.ram.len()
        &&& pages_in_ram(self.load_pages, self.ram.len())
        &&& pages_in_ram(self.store_pages, self.ram.len())
        &&& tohost_readable(self.ram_base, self.ram.len(), self.tohost)
        &&& self.tohost is Some ==> pages_empty(self.store_pages)
        &&& self.pending matches Some(p) ==> p.rd < 32
    }

    /// A hart at reset.
    pub open spec fn reset(
        hart_id: u64,
        ram_base: u64,
        ram: Seq<u8>,
        clock: Clock,
        wires: Wires,
    ) -> Hart {
        Hart {
            x: Seq::new(32, |i: int| 0u64),
            f: Seq::new(32, |i: int| 0u64),
            pc: 0,
            prv: PrivMode::M,
            csrs: Csrs::reset(hart_id),
            reservation: None,
            sbi_mode: false,
            ram_base,
            ram,
            clock,
            instret: 0,
            pending: None,
            tlb: Seq::new(64, |i: int| TlbEntry { vpn: u64::MAX, pa_base: 0, pte: 0 }),
            fetch_tag: u64::MAX,
            fetch_page: 0,
            load_pages: Seq::new(16, |i: int| DataPage { tag: u64::MAX, off: 0 }),
            store_pages: Seq::new(16, |i: int| DataPage { tag: u64::MAX, off: 0 }),
            mip_ext: 0,
            pmp_active: false,
            tohost: None,
            wires,
        }
    }
}

impl Cpu {
    /// What holds of every cpu: its hart is well-formed and its decode cache
    /// agrees with the decoder.
    pub open(crate) spec fn wf(&self) -> bool {
        &&& self@.wf()
        &&& self.dcache@.len() == DCACHE_SIZE
        &&& forall|i: int|
            #![trigger self.dcache@[i]]
            0 <= i < DCACHE_SIZE ==> self.dcache@[i].instr == instr_of(self.dcache@[i].raw)
    }

    pub(crate) open(crate) spec fn same_but_data_pages(&self, other: Cpu) -> bool {
        *self == Cpu { load_pages: self.load_pages, store_pages: self.store_pages, ..other }
    }

    pub(crate) proof fn ram_fits(&self)
        ensures
            self@.ram.len() <= usize::MAX,
    {
        self.ram.fits();
    }

    pub fn new(hart_id: u64, ram: GuestRam, clock: Clock) -> (r: Self)
        requires
            clock.wf(),
        ensures
            r.wf(),
            r@ == Hart::reset(hart_id, ram.base(), ram@, clock, r@.wires),
    {
        let empty = DecodeEntry { raw: 0, instr: Instr::Illegal(0) };
        let r = Cpu {
            xregs: [0u64;32],
            fregs: [0u64;32],
            pc: 0,
            priv_mode: PrivMode::M,
            csrs: CsrFile::new(hart_id),
            reservation: None,
            sbi_mode: false,
            ram,
            clock,
            instret: 0,
            pending_load: None,
            tlb: Tlb::new(),
            fetch_tag: u64::MAX,
            fetch_page: 0,
            load_pages: [DataPage { tag: u64::MAX, off: 0 };16],
            store_pages: [DataPage { tag: u64::MAX, off: 0 };16],
            mip_ext: 0,
            dcache: vec![empty; DCACHE_SIZE],
            pmp_active: false,
            tohost_addr: None,
            kick: Arc::new(AtomicBool::new(false)),
            irq_lines: Arc::new(AtomicU64::new(0)),
        };
        proof {
            reveal(decoded_compressed);
            let h = Hart::reset(hart_id, ram.base(), ram@, clock, r@.wires);
            assert(r@.x =~= h.x);
            assert(r@.f =~= h.f);
            assert(r@.load_pages =~= h.load_pages);
            assert(r@.store_pages =~= h.store_pages);
        }
        r
    }

    pub fn set_pc(&mut self, pc: u64)
        requires
            old(self).wf(),
        ensures
            final(self).wf(),
            final(self)@ == (Hart { pc, ..old(self)@ }),
    {
        self.pc = pc;
    }

    pub fn read_reg(&self, r: usize) -> (v: u64)
        requires
            r < 32,
        ensures
            v == self@.x[r as int],
    {
        self.xregs[r]
    }

    pub fn set_reg(&mut self, r: usize, val: u64)
        requires
            old(self).wf(),
            r < 32,
        ensures
            final(self).wf(),
            final(self)@ == with_x(old(self)@, r as u8, val),
    {
        if r != 0 {
            self.xregs[r] = val;
        }
    }

    #[inline]
    pub fn set_x(&mut self, rd: u8, val: u64)
        requires
            old(self).wf(),
            rd < 32,
        ensures
            final(self).wf(),
            final(self)@ == with_x(old(self)@, rd, val),
    {
        if rd != 0 {
            self.xregs[rd as usize] = val;
        }
    }

    /// Host-side CSR access (no privilege checks beyond current mode).
    pub fn read_csr(&mut self, addr: u16) -> (r: Result<u64, Exception>)
        requires
            old(self).wf(),
        ensures
            final(self).wf(),
            final(self)@ == old(self)@,
            exists|o: Observed|
                r == (match #[trigger] csr_value(old(self)@, addr, o) {
                    Some(v) => Ok(v),
                    None => csr_refused(),
                }),
    {
        self.csr_read(addr)
    }

    pub fn write_csr(&mut self, addr: u16, val: u64) -> (r: Result<(), Exception>)
        requires
            old(self).wf(),
        ensures
            final(self).wf(),
            match csr_written(old(self)@, addr, val) {
                Some(h) => r == Ok::<(), Exception>(()) && final(self)@ == h,
                None => r == csr_refused::<()>() && final(self)@ == old(self)@,
            },
    {
        self.csr_write(addr, val)
    }

    pub fn instret(&self) -> (r: u64)
        ensures
            r == self@.instret,
    {
        self.instret
    }

    /// Clear bits in misa (e.g. F | D = 0x28 while no FPU is wired up, so
    /// environments that probe misa never touch FP state).
    pub fn mask_misa(&mut self, bits: u64)
        requires
            old(self).wf(),
        ensures
            final(self).wf(),
            final(self)@ == (Hart {
                csrs: Csrs { misa: old(self)@.csrs.misa & !bits, ..old(self)@.csrs },
                ..old(self)@
            }),
    {
        self.csrs.misa = self.csrs.misa & !bits;
    }

    /// Register the HTIF `tohost` address. Stores served from a primed page
    /// never see the hook, so primed pages are dropped.
    pub fn set_tohost(&mut self, addr: Option<u64>)
        requires
            old(self).wf(),
            tohost_readable(old(self)@.ram_base, old(self)@.ram.len(), addr),
        ensures
            final(self).wf(),
            final(self)@ == data_pages_dropped(Hart { tohost: addr, ..old(self)@ }),
    {
        self.invalidate_data_pages();
        self.tohost_addr = addr;
    }

    pub fn tohost_addr(&self) -> (r: Option<u64>)
        ensures
            r == self@.tohost,
    {
        self.tohost_addr
    }

    /// A handle that drives this hart.
    pub fn intc(&self) -> (r: CpuIntc)
        ensures
            r.drives(*self),
    {
        CpuIntc { kick: self.kick.clone(), irq_lines: self.irq_lines.clone() }
    }

    /// Ask the hart to leave `run` with `VmExit::Interrupted`.
    pub fn kick(&self) {
        self.kick.store(true, Ordering::Release);
    }

    pub fn set_irq(&self, line: IrqLine, level: bool) {
        self.intc().set_irq(line, level);
    }

    /// Set or clear the guest-visible supervisor software-interrupt pending
    /// bit (mip.SSIP), the delivery path for SBI IPIs.
    ///
    /// This is the software-writable mip bit rather than the external
    /// `IrqLine::SSoft` line precisely so the guest can clear it by writing
    /// `sip`, exactly as on real hardware; the external line would latch.
    /// It is per-hart state, so an IPI from another hart has to be handed to
    /// the target's own thread before it lands here.
    pub fn set_soft_ip(&mut self, level: bool)
        requires
            old(self).wf(),
        ensures
            final(self).wf(),
            final(self)@ == (Hart {
                csrs: Csrs {
                    mip: if level {
                        old(self)@.csrs.mip | MIP_SSIP
                    } else {
                        old(self)@.csrs.mip & !MIP_SSIP
                    },
                    ..old(self)@.csrs
                },
                ..old(self)@
            }),
    {
        if level {
            self.csrs.mip = self.csrs.mip | MIP_SSIP;
        } else {
            self.csrs.mip = self.csrs.mip & !MIP_SSIP;
        }
    }

    /// What the interrupt lines hold now. Other threads drive them, so
    /// nothing is promised of the value.
    fn lines_now(&self) -> u64 {
        self.irq_lines.load(Ordering::Acquire)
    }

    /// Whether a kick is waiting; takes it.
    fn take_kick(&self) -> bool {
        self.kick.swap(false, Ordering::AcqRel)
    }

    /// Look at what a read of CSR `addr` depends on beyond the hart. What the
    /// interrupt lines and a shared timebase hold is up to their owners.
    pub(crate) fn observe(&self, addr: u16) -> (o: Observed)
        requires
            self.wf(),
        ensures
            seen_by_csr(self@, addr, o),
    {
        let lines: u64 = if addr == 0x144 || addr == 0x344 {
            self.lines_now()
        } else {
            0
        };
        let time: u64 = if addr == 0xc01 {
            self.clock.now(self.instret)
        } else {
            0
        };
        proof {
            // A clock reads the same again where its timebase holds its reading.
            assert(addr == 0xc01 ==> time == self@.clock.reading(self@.instret, time));
        }
        Observed { lines, time }
    }

    /// mip as the guest sees it, by the run loop's line snapshot:
    /// software-writable bits OR external lines.
    #[inline]
    pub fn effective_mip_snapshot(&self) -> (r: u64)
        ensures
            r == self@.csrs.mip | self@.mip_ext,
    {
        self.csrs.mip | self.mip_ext
    }

    /// Complete an MmioRead exit: write back the loaded data and retire the
    /// load. Must be called exactly once per MmioRead before resuming.
    pub fn complete_mmio_read(&mut self, data: u64)
        requires
            old(self).wf(),
            old(self)@.pending is Some,
        ensures
            final(self).wf(),
            final(self)@ == mmio_completed(old(self)@, data),
    {
        if let Some(p) = self.pending_load.take() {
            if p.freg {
                let bits: u64 = if p.size == 4 {
                    0xffff_ffff_0000_0000 | (data & 0xffff_ffff)
                } else {
                    data
                };
                self.fregs[p.rd as usize] = bits;
                self.csrs.mstatus = self.csrs.mstatus | MSTATUS_FS_MASK;
            } else {
                let val: u64 = extend(data, p.size as usize, p.sign);
                self.set_x(p.rd, val);
            }
            self.pc = p.next_pc;
            self.instret = self.instret.wrapping_add(1);
        }
    }

    /// Run up to `max_insns` instructions. When a kick comes, what the
    /// interrupt lines are and what a shared timebase holds is up to their
    /// owners.
    pub fn run(&mut self, max_insns: u64) -> (r: VmExit)
        requires
            old(self).wf(),
            old(self)@.pending is None,
        ensures
            final(self).wf(),
            exists|e: Surroundings|
                (final(self)@, r) == #[trigger] ran(old(self)@, 0, max_insns as nat, e),
    {
        let ghost start = self@;
        let ghost max = max_insns as nat;
        let ghost mut so_far = witnessed(false, 0, Seq::empty());
        let mut i: u64 = 0;
        while i < max_insns
            invariant
                self.wf(),
                self@.pending is None,
                i <= max_insns,
                i < max_insns ==> i % KICK_POLL == 0,
                max == max_insns,
                start == old(self)@,
                forall|e: Surroundings|
                    alike(e, so_far, i as nat) ==> #[trigger] ran(start, 0, max, e) == ran(
                        self@,
                        i as nat,
                        max,
                        e,
                    ),
            decreases max_insns - i,
        {
            let ghost h = self@;
            let left: u64 = max_insns - i;
            let n: u64 = if left < KICK_POLL {
                left
            } else {
                KICK_POLL
            };
            let kicked: bool = self.take_kick();
            let lines: u64 = if kicked {
                0
            } else {
                self.lines_now()
            };
            let exit = self.run_interval(kicked, lines, n);
            proof {
                let f = choose|f: Surroundings|
                    given(f, kicked, lines) && (self@, exit) == #[trigger] ran(h, 0, n as nat, f);
                let before = so_far;
                so_far = joined(before, i as nat, f);
                only_a_device_load_waits(h, 0, n as nat, f);
                assert forall|e: Surroundings| alike(e, so_far, (i + n) as nat) implies #[trigger] ran(
                    start,
                    0,
                    max,
                    e,
                ) == if exit == VmExit::InstrLimit {
                    ran(self@, (i + n) as nat, max, e)
                } else {
                    (self@, exit)
                } by {
                    lemma_interval(h, n as nat, i as nat, max, before, f, e);
                }
                assert(alike(so_far, so_far, (i + n) as nat));
                assert(exit != VmExit::InstrLimit ==> ran(start, 0, max, so_far) == (self@, exit));
            }
            match exit {
                VmExit::InstrLimit => {},
                _ => return exit,
            }
            i = i + n;
        }
        proof {
            assert(alike(so_far, so_far, i as nat));
            assert(ran(start, 0, max, so_far) == ran(self@, i as nat, max, so_far));
        }
        VmExit::InstrLimit
    }

    /// Run up to `max_insns` instructions, no more than there are between two
    /// polls, given what the poll before them found: whether a kick was
    /// waiting, and what the interrupt lines were.
    pub fn run_interval(&mut self, kicked: bool, lines: u64, max_insns: u64) -> (r: VmExit)
        requires
            old(self).wf(),
            old(self)@.pending is None,
            max_insns <= KICK_POLL,
        ensures
            final(self).wf(),
            exists|e: Surroundings|
                given(e, kicked, lines) && (final(self)@, r) == #[trigger] ran(
                    old(self)@,
                    0,
                    max_insns as nat,
                    e,
                ),
    {
        let ghost start = self@;
        let ghost n = max_insns as nat;
        let ghost mut seen: Seq<Observed> = Seq::empty();
        let ghost none = witnessed(kicked, lines, seen);
        assert(given(none, kicked, lines));
        if max_insns == 0 {
            assert((start, VmExit::InstrLimit) == ran(start, 0, n, none));
            return VmExit::InstrLimit;
        }
        if kicked {
            assert((start, VmExit::Interrupted) == ran(start, 0, n, none));
            return VmExit::Interrupted;
        }
        self.mip_ext = lines;
        let mut i: u64 = 0;
        while i < max_insns
            invariant
                self.wf(),
                i <= max_insns <= KICK_POLL,
                n == max_insns,
                n > 0,
                !kicked,
                start == old(self)@,
                seen.len() == i,
                i == 0 ==> self@ == (Hart { mip_ext: lines, ..start }),
                i > 0 ==> forall|e: Surroundings|
                    given(e, kicked, lines) && saw(e, seen) ==> #[trigger] ran(start, 0, n, e)
                        == ran(self@, i as nat, n, e),
            decreases max_insns - i,
        {
            let ghost s0 = seen;
            let ghost turn = self@;
            let (exit, Ghost(o)) = self.tick();
            proof {
                seen = seen.push(o);
                assert forall|e: Surroundings|
                    given(e, kicked, lines) && saw(e, seen) implies #[trigger] ran(start, 0, n, e)
                    == match exit {
                    Some(x) => (self@, x),
                    None => ran(self@, (i + 1) as nat, n, e),
                } by {
                    assert((e.seen)(i as nat) == seen[i as int]);
                    assert(saw(e, s0)) by {
                        assert forall|j: nat| j < s0.len() implies #[trigger] (e.seen)(j)
                            == s0[j as int] by {
                            assert((e.seen)(j) == seen[j as int]);
                        }
                    }
                }
                let e = witnessed(kicked, lines, seen);
                assert(given(e, kicked, lines) && saw(e, seen));
                assert(exit matches Some(x) ==> ran(start, 0, n, e) == (self@, x));
                lemma_ticked_exit(turn, o);
            }
            match exit {
                Some(exit) => return exit,
                None => {},
            }
            i = i + 1;
        }
        proof {
            let e = witnessed(kicked, lines, seen);
            assert(given(e, kicked, lines) && saw(e, seen));
            assert(ran(start, 0, n, e) == ran(self@, i as nat, n, e));
        }
        VmExit::InstrLimit
    }

    /// One turn of the run loop, and what its instruction saw of the state
    /// shared with other threads.
    fn tick(&mut self) -> (r: (Option<VmExit>, Ghost<Observed>))
        requires
            old(self).wf(),
        ensures
            final(self).wf(),
            (final(self)@, r.0) == ticked(old(self)@, r.1@),
    {
        if let Some(code) = self.pending_interrupt() {
            self.take_interrupt(code);
        }
        let pc: u64 = self.pc;
        let (outcome, o) = self.step(pc);
        match outcome {
            Ok(exit) => (exit, o),
            Err(e) => {
                self.take_exception(e, pc);
                (None, o)
            },
        }
    }

    fn step(&mut self, pc: u64) -> (r: (Outcome, Ghost<Observed>))
        requires
            old(self).wf(),
        ensures
            final(self).wf(),
            (final(self)@, r.0) == stepped(old(self)@, pc, r.1@),
    {
        let (raw, len): (u32, u64) = match self.fetch(pc) {
            Ok(v) => v,
            Err(e) => return (Err(e), Ghost(Observed { lines: 0, time: 0 })),
        };
        // Folding the high pc bits into the index spreads hot code that is
        // more than one cache span apart instead of aliasing it.
        let idx: usize = (((pc >> 1) ^ (pc >> 15)) % 16384) as usize;
        proof {
            decoded_is_valid(raw);
            decoded_compressed_is_valid(raw as u16);
        }
        let instr = if self.dcache[idx].raw == raw {
            self.dcache[idx].instr
        } else {
            let instr = if raw % 4 == 3 {
                decode::decode(raw)
            } else {
                decode::decode_compressed(raw as u16)
            };
            self.dcache[idx] = DecodeEntry { raw, instr };
            instr
        };
        let o = self.observe_for(instr);
        (self.execute(instr, raw, pc, len, o), Ghost(o))
    }

    /// Look at what an instruction depends on beyond the hart.
    fn observe_for(&self, instr: Instr) -> (o: Observed)
        requires
            self.wf(),
        ensures
            seen_by(self@, instr, o),
    {
        match instr {
            Instr::Csr { csr, .. } => self.observe(csr),
            Instr::Wfi => self.observe(0x344),
            _ => Observed { lines: 0, time: 0 },
        }
    }

    /// Fetch one instruction and its length. IALIGN=16 (C implemented): pc is
    /// always even by construction (JALR masks bit 0, branch/JAL immediates
    /// are even, xepc/xtvec writes are masked), so no misaligned-fetch check
    /// is needed here.
    ///
    /// The fast path covers the common case - an instruction wholly inside a
    /// page already primed in `fetch_page` - with one read and no
    /// translation. `0xffc` is the last offset at which four bytes still fit
    /// in the page.
    #[inline]
    pub fn fetch(&mut self, pc: u64) -> (r: Result<(u32, u64), Exception>)
        requires
            old(self).wf(),
        ensures
            final(self).wf(),
            (final(self)@, r) == fetched(old(self)@, pc),
    {
        proof {
            lemma_fetch_bits(pc, self.priv_mode.number());
            self.ram_fits();
        }
        let off: usize = (pc & 0xfff) as usize;
        if self.fetch_tag_for(pc) == self.fetch_tag && off <= 0xffc {
            let word: u32 = self.ram.read_u32_at(self.fetch_page + off);
            return Ok(
                if word % 4 == 3 {
                    (word, 4)
                } else {
                    (word % 0x1_0000, 2)
                },
            );
        }
        let lo: u32 = match self.fetch_half(pc) {
            Ok(v) => v as u32,
            Err(e) => return Err(e),
        };
        if lo % 4 == 3 {
            match self.fetch_half(pc.wrapping_add(2)) {
                Ok(hi) => Ok((hi as u32 * 0x1_0000 + lo, 4)),
                Err(e) => Err(e),
            }
        } else {
            Ok((lo, 2))
        }
    }

    /// One 16-bit fetch parcel, translated independently: a 4-byte
    /// instruction straddling a page boundary translates each half, and a
    /// fault reports the virtual address of the faulting half in xtval
    /// (while xepc stays at the instruction start). Primes the fetch fast
    /// path on the way through.
    fn fetch_half(&mut self, va: u64) -> (r: Result<u16, Exception>)
        requires
            old(self).wf(),
        ensures
            final(self).wf(),
            (final(self)@, r) == fetched_half(old(self)@, va),
    {
        let prv = self.priv_mode;
        let pa: u64 = match self.translate(va, Access::Fetch, prv, 2) {
            Ok(pa) => pa,
            Err(e) => return Err(e),
        };
        if !self.pmp_active {
            if let Some(off) = self.ram.page_offset(pa) {
                self.fetch_tag = self.fetch_tag_for(va);
                self.fetch_page = off;
            }
        }
        match self.ram.load(pa, 2) {
            Some(v) => Ok(v as u16),
            None => Err(Exception::InstrAccessFault(va)),
        }
    }

    #[inline]
    fn fetch_tag_for(&self, va: u64) -> (r: u64)
        ensures
            r == fetch_tag_of(self@, va),
    {
        ((va >> 10) & !3) | self.priv_mode.bits()
    }

    /// Drop the fetch fast path. Called wherever what a fetch of the primed
    /// page resolves to, or is permitted to do, can have changed.
    #[inline]
    pub fn invalidate_fetch_page(&mut self)
        requires
            old(self).wf(),
        ensures
            final(self).wf(),
            final(self)@ == (Hart { fetch_tag: u64::MAX, ..old(self)@ }),
    {
        self.fetch_tag = u64::MAX;
    }
}

proof fn lemma_fetch_bits(pc: u64, p: u64)
    by (bit_vector)
    requires
        p < 4,
    ensures
        pc & 0xfff < 0x1000,
        ((pc >> 10) & !3) | p != u64::MAX,
{
}

proof fn lemma_extend(data: u64)
    by (bit_vector)
    ensures
        data as u8 as u64 == data % 0x100,
        data as i8 as u64 == extended(data, 1, true),
        data as u16 as u64 == data % 0x1_0000,
        data as i16 as u64 == extended(data, 2, true),
        data as u32 as u64 == data % 0x1_0000_0000,
        data as i32 as u64 == extended(data, 4, true),
{
}

/// Truncate to `size` bytes and sign- or zero-extend to 64 bits.
pub fn extend(data: u64, size: usize, sign: bool) -> (r: u64)
    ensures
        r == extended(data, size as int, sign),
{
    proof {
        lemma_extend(data);
    }
    match (size, sign) {
        (1, false) => data as u8 as u64,
        (1, true) => data as i8 as u64,
        (2, false) => data as u16 as u64,
        (2, true) => data as i16 as u64,
        (4, false) => data as u32 as u64,
        (4, true) => data as i32 as u64,
        _ => data,
    }
}

} // verus!
