//! Sv39/Sv48 address translation with a small direct-mapped TLB, plus PMP
//! (NAPOT/NA4/TOR) checks on the resulting physical addresses.

use vstd::prelude::*;

use crate::cpu::{Cpu, DataPage, Hart, DPAGE_SIZE};
use crate::csr::{Csrs, MSTATUS_MPRV, MSTATUS_MXR, MSTATUS_SUM};
use crate::laws::translation_keeps_the_place_in_the_page;
use crate::mem::{le_bytes, le_bytes_len, le_u64, le_value, ram_load, ram_offset, ram_store};
use crate::trap::{priv_of_bits, Exception};
use crate::PrivMode;

verus! {

pub const PTE_V: u64 = 0x1;

pub const PTE_R: u64 = 0x2;

pub const PTE_W: u64 = 0x4;

pub const PTE_X: u64 = 0x8;

pub const PTE_U: u64 = 0x10;

pub const PTE_A: u64 = 0x40;

pub const PTE_D: u64 = 0x80;

#[derive(Debug, Clone, Copy, PartialEq, Eq, Structural)]
pub enum Access {
    Read,
    Write,
    Fetch,
}

#[derive(Debug, Clone, Copy, PartialEq, Eq, Structural)]
pub enum LoadResult {
    /// Zero-extended raw value read from RAM.
    Ram(u64),
    /// Physical MMIO address; the caller builds the exit.
    Mmio(u64),
}

#[derive(Debug, Clone, Copy, PartialEq, Eq, Structural)]
pub enum StoreResult {
    /// Store completed in RAM at this physical address.
    Ram(u64),
    /// Physical MMIO address; the caller builds the exit.
    Mmio(u64),
}

pub const TLB_SIZE: usize = 64;

/// One cached leaf translation for a single 4 KiB virtual page (superpage
/// walks are cached per 4 KiB page too). Permissions are re-checked on every
/// hit against the current privilege, SUM/MXR, and access type, so privilege
/// or mstatus changes never require a flush; satp writes and sfence.vma do.
#[derive(Clone, Copy)]
pub struct TlbEntry {
    /// Virtual page number; u64::MAX marks an empty slot.
    pub vpn: u64,
    /// Physical page base (4 KiB-aligned).
    pub pa_base: u64,
    /// Leaf PTE bits (R/W/X/U/A/D).
    pub pte: u64,
}

pub struct Tlb {
    pub entries: [TlbEntry; 64],
}

impl View for Tlb {
    type V = Seq<TlbEntry>;

    open spec fn view(&self) -> Seq<TlbEntry> {
        self.entries@
    }
}

/// Cached translations are of whole pages.
pub open spec fn tlb_aligned(tlb: Seq<TlbEntry>) -> bool {
    forall|i: int| 0 <= i < tlb.len() ==> (#[trigger] tlb[i]).pa_base % 0x1000 == 0
}

/// The TLB with every slot marked empty.
pub open spec fn tlb_flushed(t: Seq<TlbEntry>) -> Seq<TlbEntry> {
    Seq::new(t.len(), |i: int| TlbEntry { vpn: u64::MAX, ..t[i] })
}

impl Tlb {
    pub fn new() -> (r: Self)
        ensures
            r@ == Seq::new(64, |i: int| TlbEntry { vpn: u64::MAX, pa_base: 0, pte: 0 }),
    {
        let r = Tlb { entries: [TlbEntry { vpn: u64::MAX, pa_base: 0, pte: 0 };64] };
        assert(r@ =~= Seq::new(64, |i: int| TlbEntry { vpn: u64::MAX, pa_base: 0, pte: 0 }));
        r
    }

    pub fn flush(&mut self)
        ensures
            final(self)@ == tlb_flushed(old(self)@),
    {
        let mut i: usize = 0;
        while i < 64
            invariant
                i <= 64,
                forall|k: int|
                    0 <= k < i ==> #[trigger] self.entries@[k] == tlb_flushed(old(self).entries@)[k],
                forall|k: int| i <= k < 64 ==> #[trigger] self.entries@[k] == old(self).entries@[k],
            decreases 64 - i,
        {
            let e: TlbEntry = self.entries[i];
            self.entries[i] = TlbEntry { vpn: u64::MAX, ..e };
            i = i + 1;
        }
        assert(self@ =~= tlb_flushed(old(self)@));
    }
}

// ---------------------------------------------------------------------------
// What translation does to a hart.
// ---------------------------------------------------------------------------

/// The data-page cache with every slot marked empty.
pub open spec fn pages_emptied(p: Seq<DataPage>) -> Seq<DataPage> {
    Seq::new(p.len(), |i: int| DataPage { tag: u64::MAX, ..p[i] })
}

/// The hart without its primed data pages.
pub open spec fn data_pages_dropped(h: Hart) -> Hart {
    Hart {
        load_pages: pages_emptied(h.load_pages),
        store_pages: pages_emptied(h.store_pages),
        ..h
    }
}

/// The hart without any cached translation.
pub open spec fn flushed(h: Hart) -> Hart {
    data_pages_dropped(Hart { tlb: tlb_flushed(h.tlb), fetch_tag: u64::MAX, ..h })
}

pub open spec fn page_fault_of(access: Access, va: u64) -> Exception {
    match access {
        Access::Read => Exception::LoadPageFault(va),
        Access::Write => Exception::StorePageFault(va),
        Access::Fetch => Exception::InstrPageFault(va),
    }
}

pub open spec fn access_fault_of(access: Access, va: u64) -> Exception {
    match access {
        Access::Read => Exception::LoadAccessFault(va),
        Access::Write => Exception::StoreAccessFault(va),
        Access::Fetch => Exception::InstrAccessFault(va),
    }
}

/// Configuration byte of PMP entry `i`. RV64: even pmpcfg registers hold 8
/// entries each.
pub open spec fn pmp_cfg_of(c: Csrs, i: int) -> u64 {
    (c.pmpcfg[(i / 8) * 2] >> ((8 * (i % 8)) as u64)) & 0xff
}

/// Address-matching mode of a PMP configuration byte: 0 = off, 1 = TOR,
/// 2 = NA4, 3 = NAPOT.
pub open spec fn pmp_mode(cfg: u64) -> u64 {
    (cfg >> 3) & 3
}

/// The byte range [lo, hi) of active PMP entry `i` with mode `a`.
pub open spec fn pmp_range_of(c: Csrs, i: int, a: u64) -> (u64, u64) {
    let addr = c.pmpaddr[i];
    if a == 1 {
        (
            if i == 0 {
                0
            } else {
                c.pmpaddr[i - 1] << 2
            },
            addr << 2,
        )
    } else if a == 2 {
        (addr << 2, ((addr << 2) + 4) as u64)
    } else {
        // NAPOT: trailing ones encode the region size.
        let t = (!addr).trailing_zeros();
        let base = ((addr >> ((t + 1) as u32)) << ((t + 1) as u32)) << 2;
        (base, (base + (1u64 << ((t + 3) as u32))) as u64)
    }
}

/// Whether a PMP entry with configuration `cfg` permits the access.
pub open spec fn pmp_permits(cfg: u64, access: Access, prv: PrivMode) -> bool {
    // M-mode ignores unlocked entries' permissions.
    (prv == PrivMode::M && cfg & 0x80 == 0) || (match access {
        Access::Read => cfg & 1 != 0,
        Access::Write => cfg & 2 != 0,
        Access::Fetch => cfg & 4 != 0,
    })
}

/// Whether the PMP entries from `i` on permit the access to `pa..=end`: the
/// first entry that overlaps it decides, and a partial overlap always fails.
/// Where none does, M succeeds and S/U fail.
pub open spec fn pmp_from(
    c: Csrs,
    i: int,
    pa: u64,
    end: u64,
    access: Access,
    prv: PrivMode,
) -> bool
    decreases 64 - i,
{
    if i >= 64 {
        prv == PrivMode::M
    } else {
        let cfg = pmp_cfg_of(c, i);
        let (lo, hi) = pmp_range_of(c, i, pmp_mode(cfg));
        if pmp_mode(cfg) == 0 || end < lo || pa >= hi {
            pmp_from(c, i + 1, pa, end, access, prv)
        } else {
            lo <= pa && end < hi && pmp_permits(cfg, access, prv)
        }
    }
}

/// Whether PMP permits the access to `pa..pa+size`.
#[verifier::opaque]
pub open spec fn pmp_permitted(c: Csrs, pa: u64, size: u64, access: Access, prv: PrivMode) -> bool {
    pmp_from(c, 0, pa, pa.wrapping_add((size - 1) as u64), access, prv)
}

/// Whether some PMP entry from `i` on is active.
pub open spec fn pmp_any_from(c: Csrs, i: int) -> bool
    decreases 64 - i,
{
    i < 64 && (pmp_mode(pmp_cfg_of(c, i)) != 0 || pmp_any_from(c, i + 1))
}

/// The hart after its pmpcfg registers changed: the cached activity flag is
/// recomputed, and pages primed under the old rules are dropped.
pub open spec fn pmp_reconfigured(h: Hart) -> Hart {
    data_pages_dropped(
        Hart { pmp_active: pmp_any_from(h.csrs, 0), fetch_tag: u64::MAX, ..h },
    )
}

/// pmpaddr[i] is read-only when its own entry is locked, or when the next
/// entry is a locked TOR (its base depends on pmpaddr[i]).
pub open spec fn pmpaddr_locked_of(c: Csrs, i: int) -> bool {
    ||| pmp_cfg_of(c, i) & 0x80 != 0
    ||| i + 1 < 64 && pmp_cfg_of(c, i + 1) & 0x80 != 0 && pmp_mode(pmp_cfg_of(c, i + 1)) == 1
}

/// Effective privilege for data accesses: mstatus.MPRV substitutes MPP.
pub open spec fn data_priv_of(h: Hart) -> PrivMode {
    if h.csrs.mstatus & MSTATUS_MPRV != 0 {
        priv_of_bits((h.csrs.mstatus >> 11) & 3)
    } else {
        h.prv
    }
}

/// Everything a leaf permission check consults besides the PTE itself: the
/// effective privilege for data accesses plus SUM and MXR. Carrying it in the
/// data-page tag means a privilege or mstatus change retires the primed pages
/// by missing, with no invalidation hook to forget.
pub open spec fn data_ctx_of(h: Hart) -> u64 {
    let m = h.csrs.mstatus;
    (if m & MSTATUS_MPRV != 0 {
        (m >> 11) & 3
    } else {
        h.prv.number()
    }) | ((m >> 16) & 0xc)
}

/// The tag of the data page of `va` in the current context.
pub open spec fn data_tag_of(h: Hart, va: u64) -> u64 {
    ((va >> 8) & !0xf) | data_ctx_of(h)
}

/// The slot of a data-page cache that serves `va`.
pub open spec fn page_slot(va: u64) -> int {
    ((va >> 12) % 16) as int
}

/// RAM byte offset for an access that stays inside the page primed for it in
/// `pages`, if there is one.
pub open spec fn primed_offset(h: Hart, pages: Seq<DataPage>, va: u64, size: int) -> Option<int> {
    let e = pages[page_slot(va)];
    if (va & 0xfff) + size <= 0x1000 && e.tag == data_tag_of(h, va) {
        Some(e.off + (va & 0xfff))
    } else {
        None
    }
}

/// The hart after an access to `va`, which translated to `pa`, primed its
/// data page. PMP can deny sub-page ranges, and the HTIF `tohost` hook must
/// see every store, so neither is compatible with a page-wide pass.
pub open spec fn primed(h: Hart, va: u64, pa: u64, write: bool) -> Hart {
    if h.pmp_active || (write && h.tohost is Some) {
        h
    } else {
        match ram_offset(h.ram_base, h.ram.len(), pa & !0xfff, 0x1000) {
            None => h,
            Some(off) => {
                let e = DataPage { tag: data_tag_of(h, va), off: off as usize };
                if write {
                    Hart { store_pages: h.store_pages.update(page_slot(va), e), ..h }
                } else {
                    Hart { load_pages: h.load_pages.update(page_slot(va), e), ..h }
                }
            },
        }
    }
}

/// Whether accesses at privilege `prv` go through page translation.
pub open spec fn vm_active_of(h: Hart, prv: PrivMode) -> bool {
    prv != PrivMode::M && h.csrs.satp >> 60 != 0
}

/// Leaf permission check: U/SUM/MXR rules, then R/W/X against the access
/// type, then A/D, which are never set by hardware (Svade).
pub open spec fn leaf_permits(mstatus: u64, pte: u64, access: Access, prv: PrivMode) -> bool {
    &&& if pte & PTE_U != 0 {
        // S touches user pages only for data, and only with SUM set.
        prv != PrivMode::S || (access != Access::Fetch && mstatus & MSTATUS_SUM != 0)
    } else {
        prv != PrivMode::U
    }
    &&& match access {
        Access::Fetch => pte & PTE_X != 0,
        Access::Read => pte & PTE_R != 0 || (mstatus & MSTATUS_MXR != 0 && pte & PTE_X != 0),
        Access::Write => pte & PTE_W != 0 && pte & PTE_D != 0,
    }
    &&& pte & PTE_A != 0
}

/// Invalid, W-without-R, or use of the reserved/unimplemented high bits
/// (Svnapot N, Svpbmt PBMT, reserved 60:54).
pub open spec fn pte_malformed(pte: u64) -> bool {
    pte & PTE_V == 0 || (pte & PTE_W != 0 && pte & PTE_R == 0) || pte >> 54 != 0
}

/// The physical page number that a PTE holds.
pub open spec fn ppn_of(pte: u64) -> u64 {
    (pte >> 10) & 0xfff_ffff_ffff
}

/// Whether the bits of `va` above the address space of the paging mode
/// replicate its most significant bit.
pub open spec fn canonical(levels: nat, va: u64) -> bool {
    if levels == 3 {
        va < 0x40_0000_0000 || va >= 0xffff_ffc0_0000_0000
    } else {
        va < 0x8000_0000_0000 || va >= 0xffff_8000_0000_0000
    }
}

/// The page-table levels of the current paging mode: Sv39 has 3, Sv48 has 4.
pub open spec fn levels_of(h: Hart) -> nat {
    if h.csrs.satp >> 60 == 8 {
        3
    } else {
        4
    }
}

/// The page-table walk from the table at `base` of level `lvl` down: the
/// physical page base for the 4 KiB page of `va`, and the leaf PTE.
pub open spec fn walk_from(
    h: Hart,
    va: u64,
    access: Access,
    prv: PrivMode,
    lvl: nat,
    base: u64,
) -> Result<(u64, u64), Exception>
    decreases lvl,
{
    let pte_addr = (base + ((va >> ((12 + 9 * lvl) as u64)) & 0x1ff) * 8) as u64;
    if h.pmp_active && !pmp_permitted(h.csrs, pte_addr, 8, Access::Read, prv) {
        Err(access_fault_of(access, va))
    } else {
        match ram_load(h.ram_base, h.ram, pte_addr, 8) {
            // A PTE outside RAM (PMA violation) is an access fault of the
            // access that was asked for.
            None => Err(access_fault_of(access, va)),
            Some(pte) => if pte_malformed(pte) {
                Err(page_fault_of(access, va))
            } else if pte & (PTE_R | PTE_X) == 0 {
                // Pointer to the next level; one at the last level is invalid.
                if lvl == 0 {
                    Err(page_fault_of(access, va))
                } else {
                    walk_from(h, va, access, prv, (lvl - 1) as nat, ppn_of(pte) << 12)
                }
            } else {
                // Leaf. Superpages must be aligned to their own size.
                let low_mask = ((1u64 << ((9 * lvl) as u64)) - 1) as u64;
                if ppn_of(pte) & low_mask != 0 || !leaf_permits(h.csrs.mstatus, pte, access, prv) {
                    Err(page_fault_of(access, va))
                } else {
                    Ok((((ppn_of(pte) & !low_mask) | ((va >> 12) & low_mask)) << 12, pte))
                }
            },
        }
    }
}

/// The whole page-table walk for `va`.
pub open spec fn walked(h: Hart, va: u64, access: Access, prv: PrivMode) -> Result<
    (u64, u64),
    Exception,
> {
    if !canonical(levels_of(h), va) {
        Err(page_fault_of(access, va))
    } else {
        walk_from(
            h,
            va,
            access,
            prv,
            (levels_of(h) - 1) as nat,
            (h.csrs.satp & 0xfff_ffff_ffff) << 12,
        )
    }
}

/// A walk leads to a whole page.
pub(crate) proof fn lemma_walk_aligned(
    h: Hart,
    va: u64,
    access: Access,
    prv: PrivMode,
    lvl: nat,
    base: u64,
)
    ensures
        walk_from(h, va, access, prv, lvl, base) matches Ok((page, _)) ==> page % 0x1000 == 0,
    decreases lvl,
{
    let pte_addr = (base + ((va >> ((12 + 9 * lvl) as u64)) & 0x1ff) * 8) as u64;
    if let Some(pte) = ram_load(h.ram_base, h.ram, pte_addr, 8) {
        let low_mask = ((1u64 << ((9 * lvl) as u64)) - 1) as u64;
        let n = (ppn_of(pte) & !low_mask) | ((va >> 12) & low_mask);
        assert((n << 12) % 0x1000 == 0) by (bit_vector);
        if lvl > 0 {
            lemma_walk_aligned(h, va, access, prv, (lvl - 1) as nat, ppn_of(pte) << 12);
        }
    }
}

/// Translation through the page tables. A TLB hit re-checks the permissions
/// of the cached leaf; a miss walks and caches what the walk found.
pub open spec fn translated_mapped(h: Hart, va: u64, access: Access, prv: PrivMode) -> (
    Hart,
    Result<u64, Exception>,
) {
    let idx = ((va >> 12) % 64) as int;
    let e = h.tlb[idx];
    if e.vpn == va >> 12 {
        if leaf_permits(h.csrs.mstatus, e.pte, access, prv) {
            (h, Ok(e.pa_base | (va & 0xfff)))
        } else {
            (h, Err(page_fault_of(access, va)))
        }
    } else {
        match walked(h, va, access, prv) {
            Err(x) => (h, Err(x)),
            Ok((pa_base, pte)) => (
                Hart {
                    tlb: h.tlb.update(idx, TlbEntry { vpn: va >> 12, pa_base, pte }),
                    ..h
                },
                Ok(pa_base | (va & 0xfff)),
            ),
        }
    }
}

/// Translation of `va` for an access of `size` bytes that does not cross a
/// page boundary: Sv39/Sv48 (where active for `prv`), then PMP.
#[verifier::opaque]
pub open spec fn translated(h: Hart, va: u64, access: Access, prv: PrivMode, size: u64) -> (
    Hart,
    Result<u64, Exception>,
) {
    let (h1, r) = if vm_active_of(h, prv) {
        translated_mapped(h, va, access, prv)
    } else {
        (h, Ok(va))
    };
    match r {
        Ok(pa) if h1.pmp_active && !pmp_permitted(h1.csrs, pa, size, access, prv) => (
            h1,
            Err(access_fault_of(access, va)),
        ),
        _ => (h1, r),
    }
}

pub open spec fn crosses_page_of(va: u64, size: int) -> bool {
    (va & 0xfff) + size > 0x1000
}

/// The bytes of a load that spans two virtual pages, each translated on its
/// own: the pages need not be physically contiguous. `bs` is what was read so
/// far.
pub open spec fn split_load(h: Hart, va: u64, prv: PrivMode, bs: Seq<u8>, size: nat) -> (
    Hart,
    Result<Seq<u8>, Exception>,
)
    decreases size - bs.len(),
{
    if bs.len() >= size {
        (h, Ok(bs))
    } else {
        let b = va.wrapping_add(bs.len() as u64);
        let (h1, r) = translated(h, b, Access::Read, prv, 1);
        match r {
            Err(e) => (h1, Err(e)),
            Ok(pa) => match ram_offset(h1.ram_base, h1.ram.len(), pa, 1) {
                None => (h1, Err(Exception::LoadAccessFault(b))),
                Some(off) => split_load(h1, va, prv, bs.push(h1.ram[off]), size),
            },
        }
    }
}

/// A load through the full translation path.
#[verifier::opaque]
pub open spec fn loaded(h: Hart, va: u64, size: int) -> (Hart, Result<LoadResult, Exception>) {
    let prv = data_priv_of(h);
    if crosses_page_of(va, size) && vm_active_of(h, prv) {
        let (h1, r) = split_load(h, va, prv, Seq::empty(), size as nat);
        match r {
            Ok(bs) => (h1, Ok(LoadResult::Ram(le_value(bs) as u64))),
            Err(e) => (h1, Err(e)),
        }
    } else {
        let (h1, r) = translated(h, va, Access::Read, prv, size as u64);
        match r {
            Err(e) => (h1, Err(e)),
            Ok(pa) => {
                let h2 = primed(h1, va, pa, false);
                match ram_load(h2.ram_base, h2.ram, pa, size) {
                    Some(v) => (h2, Ok(LoadResult::Ram(v))),
                    None => if ram_offset(h2.ram_base, h2.ram.len(), pa, 1) is Some {
                        // Starts in RAM but runs off the end.
                        (h2, Err(Exception::LoadAccessFault(va)))
                    } else if pa as int % size != 0 {
                        // Device buses require natural alignment.
                        (h2, Err(Exception::LoadAddrMisaligned(va)))
                    } else {
                        (h2, Ok(LoadResult::Mmio(pa)))
                    },
                }
            },
        }
    }
}

/// The physical addresses of a store that spans two virtual pages. `pas` is
/// what was translated so far.
pub open spec fn split_store(h: Hart, va: u64, prv: PrivMode, pas: Seq<u64>, size: nat) -> (
    Hart,
    Result<Seq<u64>, Exception>,
)
    decreases size - pas.len(),
{
    if pas.len() >= size {
        (h, Ok(pas))
    } else {
        let b = va.wrapping_add(pas.len() as u64);
        let (h1, r) = translated(h, b, Access::Write, prv, 1);
        match r {
            Err(e) => (h1, Err(e)),
            Ok(pa) => if ram_offset(h1.ram_base, h1.ram.len(), pa, 1) is None {
                (h1, Err(Exception::StoreAccessFault(b)))
            } else {
                split_store(h1, va, prv, pas.push(pa), size)
            },
        }
    }
}

/// RAM after the first `n` bytes of `d` went to the addresses `pas`.
pub open spec fn scattered(base: u64, ram: Seq<u8>, pas: Seq<u64>, d: Seq<u8>, n: nat) -> Seq<u8>
    decreases n,
{
    if n == 0 {
        ram
    } else {
        let i = n - 1;
        ram_store(base, scattered(base, ram, pas, d, i as nat), pas[i], 1, d[i] as nat)
    }
}

/// A store through the full translation path. Where it spans two virtual
/// pages, every byte is translated before any is written.
#[verifier::opaque]
pub open spec fn stored(h: Hart, va: u64, size: int, val: u64) -> (
    Hart,
    Result<StoreResult, Exception>,
) {
    let prv = data_priv_of(h);
    if crosses_page_of(va, size) && vm_active_of(h, prv) {
        let (h1, r) = split_store(h, va, prv, Seq::empty(), size as nat);
        match r {
            Ok(pas) => (
                Hart {
                    ram: scattered(
                        h1.ram_base,
                        h1.ram,
                        pas,
                        le_bytes(val as nat, size as nat),
                        size as nat,
                    ),
                    ..h1
                },
                Ok(StoreResult::Ram(pas[0])),
            ),
            Err(e) => (h1, Err(e)),
        }
    } else {
        let (h1, r) = translated(h, va, Access::Write, prv, size as u64);
        match r {
            Err(e) => (h1, Err(e)),
            Ok(pa) => {
                let h2 = primed(h1, va, pa, true);
                if ram_offset(h2.ram_base, h2.ram.len(), pa, size) is Some {
                    (
                        Hart { ram: ram_store(h2.ram_base, h2.ram, pa, size, val as nat), ..h2 },
                        Ok(StoreResult::Ram(pa)),
                    )
                } else if ram_offset(h2.ram_base, h2.ram.len(), pa, 1) is Some {
                    (h2, Err(Exception::StoreAccessFault(va)))
                } else if pa as int % size != 0 {
                    (h2, Err(Exception::StoreAddrMisaligned(va)))
                } else {
                    (h2, Ok(StoreResult::Mmio(pa)))
                }
            },
        }
    }
}

/// Translation changes nothing but the TLB.
pub proof fn translation_touches_only_the_tlb(
    h: Hart,
    va: u64,
    access: Access,
    prv: PrivMode,
    size: u64,
)
    ensures
        translated(h, va, access, prv, size).0 == (Hart {
            tlb: translated(h, va, access, prv, size).0.tlb,
            ..h
        }),
{
    reveal(translated);
}

proof fn lemma_split_store(h: Hart, va: u64, prv: PrivMode, pas: Seq<u64>, size: nat)
    requires
        pas.len() <= size,
        forall|i: int|
            0 <= i < pas.len() ==> ram_offset(h.ram_base, h.ram.len(), #[trigger] pas[i], 1)
                is Some,
    ensures
        ({
            let (h1, r) = split_store(h, va, prv, pas, size);
            &&& h1 == (Hart { tlb: h1.tlb, ..h })
            &&& r matches Ok(ps) ==> ps.len() == size && forall|i: int|
                0 <= i < size ==> ram_offset(h.ram_base, h.ram.len(), #[trigger] ps[i], 1) is Some
        }),
    decreases size - pas.len(),
{
    reveal(translated);
    if pas.len() < size {
        let b = va.wrapping_add(pas.len() as u64);
        let (h1, r) = translated(h, b, Access::Write, prv, 1);
        if let Ok(pa) = r {
            if ram_offset(h1.ram_base, h1.ram.len(), pa, 1) is Some {
                lemma_split_store(h1, va, prv, pas.push(pa), size);
            }
        }
    }
}

pub proof fn lemma_scattered_len(base: u64, ram: Seq<u8>, pas: Seq<u64>, d: Seq<u8>, n: nat)
    ensures
        scattered(base, ram, pas, d, n).len() == ram.len(),
    decreases n,
{
    if n > 0 {
        lemma_scattered_len(base, ram, pas, d, (n - 1) as nat);
    }
}

/// A store that completed in RAM started in RAM, and kept the size of RAM and
/// everything that a store does not concern.
pub proof fn stored_in_ram(h: Hart, va: u64, size: int, val: u64)
    requires
        1 <= size <= 8,
    ensures
        ({
            let (h1, r) = stored(h, va, size, val);
            &&& h1.ram.len() == h.ram.len()
            &&& h1.ram_base == h.ram_base
            &&& h1.tohost == h.tohost
            &&& r matches Ok(StoreResult::Ram(pa)) ==> ram_offset(h.ram_base, h.ram.len(), pa, 1)
                is Some
        }),
{
    reveal(translated);
    reveal(stored);
    let prv = data_priv_of(h);
    if crosses_page_of(va, size) && vm_active_of(h, prv) {
        lemma_split_store(h, va, prv, Seq::empty(), size as nat);
        let (h1, r) = split_store(h, va, prv, Seq::empty(), size as nat);
        if let Ok(pas) = r {
            lemma_scattered_len(
                h1.ram_base,
                h1.ram,
                pas,
                le_bytes(val as nat, size as nat),
                size as nat,
            );
        }
    }
}

// ---------------------------------------------------------------------------
// The same, executed.
// ---------------------------------------------------------------------------

fn page_fault(access: Access, va: u64) -> (r: Exception)
    ensures
        r == page_fault_of(access, va),
{
    match access {
        Access::Read => Exception::LoadPageFault(va),
        Access::Write => Exception::StorePageFault(va),
        Access::Fetch => Exception::InstrPageFault(va),
    }
}

fn access_fault(access: Access, va: u64) -> (r: Exception)
    ensures
        r == access_fault_of(access, va),
{
    match access {
        Access::Read => Exception::LoadAccessFault(va),
        Access::Write => Exception::StoreAccessFault(va),
        Access::Fetch => Exception::InstrAccessFault(va),
    }
}

proof fn lemma_page_bits(va: u64)
    by (bit_vector)
    ensures
        va & 0xfff < 0x1000,
        (va >> 12) % 16 < 16,
{
}

pub(crate) proof fn lemma_tag_is_real(va: u64, m: u64, p: u64)
    by (bit_vector)
    requires
        p < 4,
    ensures
        ((va >> 8) & !0xf) | (((m >> 11) & 3) | ((m >> 16) & 0xc)) != u64::MAX,
        ((va >> 8) & !0xf) | (p | ((m >> 16) & 0xc)) != u64::MAX,
{
}

fn crosses_page(va: u64, size: usize) -> (r: bool)
    requires
        size <= 8,
    ensures
        r == crosses_page_of(va, size as int),
{
    proof {
        lemma_page_bits(va);
    }
    (va & 0xfff) + size as u64 > 0x1000
}

proof fn lemma_walk_bits(va: u64, satp: u64, pte: u64, b: u64, l: u64)
    by (bit_vector)
    ensures
        (satp & 0xfff_ffff_ffff) << 12 <= 0xff_ffff_ffff_f000,
        ((pte >> 10) & 0xfff_ffff_ffff) << 12 <= 0xff_ffff_ffff_f000,
        b & 0x1ff <= 0x1ff,
        l < 28 ==> 1u64 << l >= 1,
        (((va as i64) << 25) >> 25 == va as i64) == (va < 0x40_0000_0000 || va
            >= 0xffff_ffc0_0000_0000),
        (((va as i64) << 16) >> 16 == va as i64) == (va < 0x8000_0000_0000 || va
            >= 0xffff_8000_0000_0000),
{
}

proof fn lemma_napot(addr: u64, t: u32)
    by (bit_vector)
    requires
        addr < 0x40_0000_0000_0000,
        t <= 54,
    ensures
        ((addr >> ((t + 1) as u32)) << ((t + 1) as u32)) << 2 <= 0xff_ffff_ffff_ffff,
        1u64 << ((t + 3) as u32) <= 0x200_0000_0000_0000,
        addr << 2 <= 0xff_ffff_ffff_fffc,
        ((!addr) >> 54u64) & 1 == 1,
{
}

impl Cpu {
    /// Flush this hart's address-translation caches. Called by `sfence.vma`,
    /// by accepted `satp` writes, and by the embedder when a remote fence
    /// (SBI RFENCE) targets this hart.
    pub fn flush_tlb(&mut self)
        requires
            old(self).wf(),
        ensures
            final(self).wf(),
            final(self)@ == flushed(old(self)@),
    {
        self.tlb.flush();
        self.invalidate_fetch_page();
        self.invalidate_data_pages();
    }

    pub fn invalidate_data_pages(&mut self)
        requires
            old(self).wf(),
        ensures
            final(self).wf(),
            final(self)@ == data_pages_dropped(old(self)@),
    {
        let mut i: usize = 0;
        let ghost before = *self;
        let ghost l = pages_emptied(self.load_pages@);
        let ghost s = pages_emptied(self.store_pages@);
        while i < DPAGE_SIZE
            invariant
                i <= DPAGE_SIZE,
                before == *old(self),
                l == pages_emptied(before.load_pages@),
                s == pages_emptied(before.store_pages@),
                forall|k: int| 0 <= k < i ==> #[trigger] self.load_pages@[k] == l[k],
                forall|k: int| 0 <= k < i ==> #[trigger] self.store_pages@[k] == s[k],
                forall|k: int|
                    i <= k < DPAGE_SIZE ==> #[trigger] self.load_pages@[k] == before.load_pages@[k],
                forall|k: int|
                    i <= k < DPAGE_SIZE ==> #[trigger] self.store_pages@[k]
                        == before.store_pages@[k],
                self.same_but_data_pages(before),
            decreases DPAGE_SIZE - i,
        {
            let e: DataPage = self.load_pages[i];
            self.load_pages[i] = DataPage { tag: u64::MAX, ..e };
            let e: DataPage = self.store_pages[i];
            self.store_pages[i] = DataPage { tag: u64::MAX, ..e };
            i = i + 1;
        }
        assert(self.load_pages@ =~= l);
        assert(self.store_pages@ =~= s);
    }

    #[inline]
    fn data_ctx(&self) -> (r: u64)
        ensures
            r == data_ctx_of(self@),
    {
        let m: u64 = self.csrs.mstatus;
        let prv: u64 = if m & MSTATUS_MPRV != 0 {
            (m >> 11) & 3
        } else {
            self.priv_mode.bits()
        };
        prv | ((m >> 16) & 0xc)
    }

    #[inline]
    fn data_tag(&self, va: u64) -> (r: u64)
        ensures
            r == data_tag_of(self@, va),
            r != u64::MAX,
    {
        proof {
            lemma_tag_is_real(va, self.csrs.mstatus, self.priv_mode.number());
        }
        ((va >> 8) & !0xf) | self.data_ctx()
    }

    /// RAM byte offset for a load that stays inside an already-primed page,
    /// or `None` to take the full [`Cpu::load_vaddr`] path.
    #[inline]
    pub fn fast_load_off(&self, va: u64, size: usize) -> (r: Option<usize>)
        requires
            self.wf(),
        ensures
            match primed_offset(self@, self@.load_pages, va, size as int) {
                Some(off) => r == Some(off as usize) && off + size <= self@.ram.len()
                    <= usize::MAX,
                None => r is None,
            },
    {
        proof {
            lemma_page_bits(va);
            self.ram_fits();
        }
        let e: DataPage = self.load_pages[((va >> 12) % 16) as usize];
        let off: usize = (va & 0xfff) as usize;
        if size <= 0x1000 && off + size <= 0x1000 && e.tag == self.data_tag(va) {
            Some(e.off + off)
        } else {
            None
        }
    }

    /// As [`Cpu::fast_load_off`], for stores.
    #[inline]
    pub fn fast_store_off(&self, va: u64, size: usize) -> (r: Option<usize>)
        requires
            self.wf(),
        ensures
            match primed_offset(self@, self@.store_pages, va, size as int) {
                Some(off) => r == Some(off as usize) && off + size <= self@.ram.len()
                    <= usize::MAX,
                None => r is None,
            },
    {
        proof {
            lemma_page_bits(va);
            self.ram_fits();
        }
        let e: DataPage = self.store_pages[((va >> 12) % 16) as usize];
        let off: usize = (va & 0xfff) as usize;
        if size <= 0x1000 && off + size <= 0x1000 && e.tag == self.data_tag(va) {
            Some(e.off + off)
        } else {
            None
        }
    }

    fn prime_data_page(&mut self, va: u64, pa: u64, write: bool)
        requires
            old(self).wf(),
        ensures
            final(self).wf(),
            final(self)@ == primed(old(self)@, va, pa, write),
    {
        if self.pmp_active || (write && self.tohost_addr().is_some()) {
            return;
        }
        if let Some(page) = self.ram.page_offset(pa) {
            proof {
                lemma_page_bits(va);
            }
            let entry = DataPage { tag: self.data_tag(va), off: page };
            let idx: usize = ((va >> 12) % 16) as usize;
            if write {
                self.store_pages[idx] = entry;
            } else {
                self.load_pages[idx] = entry;
            }
        }
    }

    /// Effective privilege for data accesses: mstatus.MPRV substitutes MPP.
    pub fn data_priv(&self) -> (r: PrivMode)
        ensures
            r == data_priv_of(self@),
    {
        if self.csrs.mstatus & MSTATUS_MPRV != 0 {
            match (self.csrs.mstatus >> 11) & 3 {
                0 => PrivMode::U,
                1 => PrivMode::S,
                _ => PrivMode::M,
            }
        } else {
            self.priv_mode
        }
    }

    /// Whether accesses at privilege `prv` go through page translation.
    pub fn vm_active(&self, prv: PrivMode) -> (r: bool)
        ensures
            r == vm_active_of(self@, prv),
    {
        prv != PrivMode::M && self.csrs.satp >> 60 != 0
    }

    /// Translate one virtual address for an access of `size` bytes that does
    /// not cross a page boundary: Sv39/Sv48 translation (when active for
    /// `prv`) followed by a PMP check on the physical address.
    pub fn translate(&mut self, va: u64, access: Access, prv: PrivMode, size: u64) -> (r: Result<
        u64,
        Exception,
    >)
        requires
            old(self).wf(),
            1 <= size,
        ensures
            final(self).wf(),
            (final(self)@, r) == translated(old(self)@, va, access, prv, size),
            r matches Ok(pa) ==> pa & 0xfff == va & 0xfff,
    {
        proof {
            reveal(translated);
            translation_keeps_the_place_in_the_page(old(self)@, va, access, prv, size);
        }
        let pa: u64 = if self.vm_active(prv) {
            match self.translate_mapped(va, access, prv) {
                Ok(pa) => pa,
                Err(e) => return Err(e),
            }
        } else {
            va
        };
        if self.pmp_active && !self.pmp_ok(pa, size, access, prv) {
            return Err(access_fault(access, va));
        }
        Ok(pa)
    }

    fn translate_mapped(&mut self, va: u64, access: Access, prv: PrivMode) -> (r: Result<
        u64,
        Exception,
    >)
        requires
            old(self).wf(),
        ensures
            final(self).wf(),
            (final(self)@, r) == translated_mapped(old(self)@, va, access, prv),
    {
        let vpn: u64 = va >> 12;
        let idx: usize = (vpn % 64) as usize;
        let e: TlbEntry = self.tlb.entries[idx];
        if e.vpn == vpn {
            if !self.check_leaf(e.pte, access, prv) {
                return Err(page_fault(access, va));
            }
            return Ok(e.pa_base | (va & 0xfff));
        }
        match self.walk(va, access, prv) {
            Ok((pa_base, pte)) => {
                proof {
                    let h = self@;
                    let lvl = (levels_of(h) - 1) as nat;
                    let root = (h.csrs.satp & 0xfff_ffff_ffff) << 12;
                    lemma_walk_aligned(h, va, access, prv, lvl, root);
                }
                self.tlb.entries[idx] = TlbEntry { vpn, pa_base, pte };
                Ok(pa_base | (va & 0xfff))
            },
            Err(x) => Err(x),
        }
    }

    /// Sv39/Sv48 page-table walk. Returns the physical page base for `va`'s
    /// 4 KiB page and the leaf PTE. A and D are never updated in memory
    /// (Svade): software sees a page fault and sets them itself.
    fn walk(&self, va: u64, access: Access, prv: PrivMode) -> (r: Result<(u64, u64), Exception>)
        requires
            self.wf(),
        ensures
            r == walked(self@, va, access, prv),
    {
        let satp: u64 = self.csrs.satp;
        let sv39: bool = satp >> 60 == 8;
        proof {
            lemma_walk_bits(va, satp, 0, 0, 0);
        }
        // Bits above the VA space must replicate its most significant bit.
        let in_range: bool = if sv39 {
            ((va as i64) << 25) >> 25 == va as i64
        } else {
            ((va as i64) << 16) >> 16 == va as i64
        };
        if !in_range {
            return Err(page_fault(access, va));
        }
        let mut base: u64 = (satp & 0xfff_ffff_ffff) << 12;
        let mut lvl: u64 = if sv39 {
            2
        } else {
            3
        };
        loop
            invariant
                self.wf(),
                lvl <= 3,
                base <= 0xff_ffff_ffff_f000,
                walked(self@, va, access, prv) == walk_from(
                    self@,
                    va,
                    access,
                    prv,
                    lvl as nat,
                    base,
                ),
            decreases lvl,
        {
            proof {
                lemma_walk_bits(va, satp, 0, va >> ((12 + 9 * lvl) as u64), (9 * lvl) as u64);
            }
            let pte_addr: u64 = base + ((va >> (12 + 9 * lvl)) & 0x1ff) * 8;
            if self.pmp_active && !self.pmp_ok(pte_addr, 8, Access::Read, prv) {
                return Err(access_fault(access, va));
            }
            let pte: u64 = match self.ram.load(pte_addr, 8) {
                Some(pte) => pte,
                None => return Err(access_fault(access, va)),
            };
            proof {
                lemma_walk_bits(va, satp, pte, 0, 0);
            }
            if pte & PTE_V == 0 || (pte & PTE_W != 0 && pte & PTE_R == 0) || pte >> 54 != 0 {
                return Err(page_fault(access, va));
            }
            let ppn: u64 = (pte >> 10) & 0xfff_ffff_ffff;
            if pte & (PTE_R | PTE_X) == 0 {
                if lvl == 0 {
                    return Err(page_fault(access, va));
                }
                base = ppn << 12;
                lvl = lvl - 1;
                continue ;
            }
            let low_mask: u64 = (1u64 << (9 * lvl)) - 1;
            if ppn & low_mask != 0 {
                return Err(page_fault(access, va));
            }
            if !self.check_leaf(pte, access, prv) {
                return Err(page_fault(access, va));
            }
            return Ok((((ppn & !low_mask) | ((va >> 12) & low_mask)) << 12, pte));
        }
    }

    /// Leaf permission check: U/SUM/MXR rules, then R/W/X against the access
    /// type, then Svade A/D. `false` means page fault.
    fn check_leaf(&self, pte: u64, access: Access, prv: PrivMode) -> (r: bool)
        ensures
            r == leaf_permits(self@.csrs.mstatus, pte, access, prv),
    {
        let mstatus: u64 = self.csrs.mstatus;
        if pte & PTE_U != 0 {
            // S touches user pages only for data, and only with SUM set.
            if prv == PrivMode::S && (access == Access::Fetch || mstatus & MSTATUS_SUM == 0) {
                return false;
            }
        } else if prv == PrivMode::U {
            return false;
        }
        let ok: bool = match access {
            Access::Fetch => pte & PTE_X != 0,
            Access::Read => pte & PTE_R != 0 || (mstatus & MSTATUS_MXR != 0 && pte & PTE_X != 0),
            Access::Write => pte & PTE_W != 0,
        };
        !(!ok || pte & PTE_A == 0 || (access == Access::Write && pte & PTE_D == 0))
    }

    pub fn load_vaddr(&mut self, va: u64, size: usize) -> (r: Result<LoadResult, Exception>)
        requires
            old(self).wf(),
            size == 1 || size == 2 || size == 4 || size == 8,
        ensures
            final(self).wf(),
            (final(self)@, r) == loaded(old(self)@, va, size as int),
    {
        proof {
            reveal(loaded);
        }
        let prv = self.data_priv();
        if crosses_page(va, size) && self.vm_active(prv) {
            return self.load_split(va, size, prv);
        }
        let pa: u64 = match self.translate(va, Access::Read, prv, size as u64) {
            Ok(pa) => pa,
            Err(e) => return Err(e),
        };
        self.prime_data_page(va, pa, false);
        if let Some(v) = self.ram.load(pa, size) {
            return Ok(LoadResult::Ram(v));
        }
        if self.ram.contains(pa, 1) {
            // Starts in RAM but runs off the end.
            return Err(Exception::LoadAccessFault(va));
        }
        if pa % (size as u64) != 0 {
            // Misaligned accesses are byte-composed only in RAM; device
            // buses require natural alignment.
            return Err(Exception::LoadAddrMisaligned(va));
        }
        Ok(LoadResult::Mmio(pa))
    }

    /// A misaligned load spanning two virtual pages accesses byte by byte:
    /// the pages need not be physically contiguous.
    fn load_split(&mut self, va: u64, size: usize, prv: PrivMode) -> (r: Result<
        LoadResult,
        Exception,
    >)
        requires
            old(self).wf(),
            1 <= size <= 8,
        ensures
            final(self).wf(),
            ({
                let (h, x) = split_load(old(self)@, va, prv, Seq::empty(), size as nat);
                final(self)@ == h && r == (match x {
                    Ok(bs) => Ok(LoadResult::Ram(le_value(bs) as u64)),
                    Err(e) => Err(e),
                })
            }),
    {
        let mut buf: Vec<u8> = Vec::new();
        while buf.len() < size
            invariant
                self.wf(),
                buf@.len() <= size <= 8,
                split_load(old(self)@, va, prv, Seq::empty(), size as nat) == split_load(
                    self@,
                    va,
                    prv,
                    buf@,
                    size as nat,
                ),
            decreases size - buf.len(),
        {
            let b: u64 = va.wrapping_add(buf.len() as u64);
            let pa: u64 = match self.translate(b, Access::Read, prv, 1) {
                Ok(pa) => pa,
                Err(e) => return Err(e),
            };
            let byte: u64 = match self.ram.load(pa, 1) {
                Some(v) => v,
                None => return Err(Exception::LoadAccessFault(b)),
            };
            proof {
                let off = pa - self@.ram_base;
                let one = self@.ram.subrange(off, off + 1);
                assert(one.drop_first() =~= Seq::empty());
                assert(le_value(one) == one[0] + 256 * le_value(one.drop_first()));
            }
            buf.push(byte as u8);
        }
        Ok(LoadResult::Ram(le_u64(&buf)))
    }

    pub fn store_vaddr(&mut self, va: u64, size: usize, val: u64) -> (r: Result<
        StoreResult,
        Exception,
    >)
        requires
            old(self).wf(),
            size == 1 || size == 2 || size == 4 || size == 8,
        ensures
            final(self).wf(),
            (final(self)@, r) == stored(old(self)@, va, size as int, val),
    {
        proof {
            reveal(stored);
        }
        let prv = self.data_priv();
        if crosses_page(va, size) && self.vm_active(prv) {
            return self.store_split(va, size, val, prv);
        }
        let pa: u64 = match self.translate(va, Access::Write, prv, size as u64) {
            Ok(pa) => pa,
            Err(e) => return Err(e),
        };
        self.prime_data_page(va, pa, true);
        if self.ram_store_at(pa, size, val) {
            return Ok(StoreResult::Ram(pa));
        }
        if self.ram.contains(pa, 1) {
            return Err(Exception::StoreAccessFault(va));
        }
        if pa % (size as u64) != 0 {
            return Err(Exception::StoreAddrMisaligned(va));
        }
        Ok(StoreResult::Mmio(pa))
    }

    /// A store to RAM; `false`, and nothing stored, where it does not fit.
    fn ram_store_at(&mut self, pa: u64, size: usize, val: u64) -> (r: bool)
        requires
            old(self).wf(),
            size == 1 || size == 2 || size == 4 || size == 8,
        ensures
            final(self).wf(),
            r == (ram_offset(old(self)@.ram_base, old(self)@.ram.len(), pa, size as int) is Some),
            final(self)@ == (Hart {
                ram: ram_store(old(self)@.ram_base, old(self)@.ram, pa, size as int, val as nat),
                ..old(self)@
            }),
    {
        self.ram.store(pa, size, val).is_some()
    }

    /// A misaligned store spanning two virtual pages translates every byte
    /// before writing any, so a fault on the second page leaves memory
    /// untouched.
    fn store_split(&mut self, va: u64, size: usize, val: u64, prv: PrivMode) -> (r: Result<
        StoreResult,
        Exception,
    >)
        requires
            old(self).wf(),
            1 <= size <= 8,
        ensures
            final(self).wf(),
            ({
                let (h, x) = split_store(old(self)@, va, prv, Seq::empty(), size as nat);
                match x {
                    Ok(pas) => r == Ok::<StoreResult, Exception>(StoreResult::Ram(pas[0]))
                        && final(self)@ == (Hart {
                        ram: scattered(
                            h.ram_base,
                            h.ram,
                            pas,
                            le_bytes(val as nat, size as nat),
                            size as nat,
                        ),
                        ..h
                    }),
                    Err(e) => r == Err::<StoreResult, Exception>(e) && final(self)@ == h,
                }
            }),
    {
        let mut pas: Vec<u64> = Vec::new();
        while pas.len() < size
            invariant
                self.wf(),
                pas@.len() <= size <= 8,
                split_store(old(self)@, va, prv, Seq::empty(), size as nat) == split_store(
                    self@,
                    va,
                    prv,
                    pas@,
                    size as nat,
                ),
            decreases size - pas.len(),
        {
            let b: u64 = va.wrapping_add(pas.len() as u64);
            let pa: u64 = match self.translate(b, Access::Write, prv, 1) {
                Ok(pa) => pa,
                Err(e) => return Err(e),
            };
            if !self.ram.contains(pa, 1) {
                return Err(Exception::StoreAccessFault(b));
            }
            pas.push(pa);
        }
        let ghost h = self@;
        let ghost d = le_bytes(val as nat, size as nat);
        let mut v: u64 = val;
        let mut k: usize = 0;
        proof {
            le_bytes_len(val as nat, size as nat);
            assert(d.subrange(0, size as int) =~= d);
        }
        while k < size
            invariant
                self.wf(),
                k <= size <= 8,
                pas@.len() == size,
                d.len() == size,
                d.subrange(k as int, size as int) == le_bytes(v as nat, (size - k) as nat),
                self@ == (Hart {
                    ram: scattered(h.ram_base, h.ram, pas@, d, k as nat),
                    ..h
                }),
            decreases size - k,
        {
            let ghost rest = d.subrange(k as int, size as int);
            proof {
                assert(rest[0] == (v as nat % 256) as u8);
                assert(d.subrange(k + 1, size as int) =~= rest.drop_first());
                assert(rest.drop_first() =~= le_bytes(v as nat / 256, (size - k - 1) as nat));
            }
            let _ = self.ram_store_at(pas[k], 1, v % 256);
            v = v / 256;
            k = k + 1;
        }
        Ok(StoreResult::Ram(pas[0]))
    }

    // ---- PMP ----

    /// Recompute the cached "any PMP entry is active" flag; called on every
    /// pmpcfg write. With no active entries PMP checks are skipped entirely
    /// (accesses from any mode succeed), which keeps unconfigured embedders
    /// working; once an entry is active the spec rules apply, including
    /// no-match denial for S/U.
    pub fn update_pmp_active(&mut self)
        requires
            old(self).wf(),
        ensures
            final(self).wf(),
            final(self)@ == pmp_reconfigured(old(self)@),
    {
        let mut i: usize = 0;
        let mut active: bool = false;
        while i < 64 && !active
            invariant
                i <= 64,
                pmp_any_from(self@.csrs, 0) == (active || pmp_any_from(self@.csrs, i as int)),
            decreases 64 - i,
        {
            active = (self.pmp_cfg_byte(i) >> 3) & 3 != 0;
            i = i + 1;
        }
        self.pmp_active = active;
        // A page primed while PMP was off may now be partly denied.
        self.invalidate_fetch_page();
        self.invalidate_data_pages();
    }

    fn pmp_cfg_byte(&self, i: usize) -> (r: u64)
        requires
            i < 64,
        ensures
            r == pmp_cfg_of(self@.csrs, i as int),
    {
        // RV64: even pmpcfg registers hold 8 entries each.
        (self.csrs.pmpcfg[(i / 8) * 2] >> (8 * (i % 8) as u64)) & 0xff
    }

    /// pmpaddr[i] is read-only when its own entry is locked, or when the
    /// next entry is a locked TOR (its base depends on pmpaddr[i]).
    pub fn pmpaddr_locked(&self, i: usize) -> (r: bool)
        requires
            i < 64,
        ensures
            r == pmpaddr_locked_of(self@.csrs, i as int),
    {
        if self.pmp_cfg_byte(i) & 0x80 != 0 {
            return true;
        }
        if i + 1 < 64 {
            let next: u64 = self.pmp_cfg_byte(i + 1);
            if next & 0x80 != 0 && (next >> 3) & 3 == 1 {
                return true;
            }
        }
        false
    }

    /// True when `pa..pa+size` is permitted. Entries match in priority
    /// order; a partial overlap with the matching entry always fails.
    pub fn pmp_ok(&self, pa: u64, size: u64, access: Access, prv: PrivMode) -> (r: bool)
        requires
            self.wf(),
            1 <= size,
        ensures
            r == pmp_permitted(self@.csrs, pa, size, access, prv),
    {
        proof {
            reveal(pmp_permitted);
        }
        let end: u64 = pa.wrapping_add(size - 1);
        let mut i: usize = 0;
        while i < 64
            invariant
                self.wf(),
                i <= 64,
                pmp_permitted(self@.csrs, pa, size, access, prv) == pmp_from(
                    self@.csrs,
                    i as int,
                    pa,
                    end,
                    access,
                    prv,
                ),
            decreases 64 - i,
        {
            let cfg: u64 = self.pmp_cfg_byte(i);
            let a: u64 = (cfg >> 3) & 3;
            if a == 0 {
                i = i + 1;
                continue ;
            }
            let (lo, hi) = self.pmp_range(i, a);
            if end < lo || pa >= hi {
                i = i + 1;
                continue ;
            }
            if pa < lo || end >= hi {
                return false;
            }
            if prv == PrivMode::M && cfg & 0x80 == 0 {
                // M-mode ignores unlocked entries' permissions.
                return true;
            }
            return match access {
                Access::Read => cfg & 1 != 0,
                Access::Write => cfg & 2 != 0,
                Access::Fetch => cfg & 4 != 0,
            };
        }
        // No entry matched: M succeeds, S/U fail (some entry is active).
        prv == PrivMode::M
    }

    /// [lo, hi) byte range of active entry `i` with address-matching mode
    /// `a` (1 = TOR, 2 = NA4, 3 = NAPOT).
    fn pmp_range(&self, i: usize, a: u64) -> (r: (u64, u64))
        requires
            self.wf(),
            i < 64,
        ensures
            r == pmp_range_of(self@.csrs, i as int, a),
    {
        let addr: u64 = self.csrs.pmpaddr[i];
        proof {
            lemma_napot(addr, 0);
        }
        match a {
            1 => {
                let lo: u64 = if i == 0 {
                    0
                } else {
                    self.csrs.pmpaddr[i - 1] << 2
                };
                (lo, addr << 2)
            },
            2 => (addr << 2, (addr << 2) + 4),
            _ => {
                // NAPOT: trailing ones encode the region size.
                let t: u32 = (!addr).trailing_zeros();
                proof {
                    vstd::std_specs::bits::axiom_u64_trailing_zeros(!addr);
                    assert(t <= 54) by {
                        if t > 54 {
                            let j: u64 = 54;
                            assert((!addr) >> j & 1u64 == 0u64);
                        }
                    }
                    lemma_napot(addr, t);
                }
                let base: u64 = ((addr >> (t + 1)) << (t + 1)) << 2;
                (base, base + (1u64 << (t + 3)))
            },
        }
    }
}

} // verus!
