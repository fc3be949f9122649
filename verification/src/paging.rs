//! What the page tables in memory mean: which entries a walk reads, where a
//! chain of entries leads, and what an access through it gives. Addresses and
//! entries are read as numbers here.

use vstd::prelude::*;

use crate::cpu::Hart;
use crate::mem::ram_load;
use crate::mmu::{
    access_fault_of, canonical, leaf_permits, levels_of, page_fault_of, pmp_permitted, ppn_of,
    pte_malformed, translated, walk_from, walked, Access,
};
use crate::trap::Exception;
use crate::PrivMode;

verus! {

/// Whether the bit that counts `place` is set.
pub open spec fn bit(x: u64, place: u64) -> bool {
    (x / place) % 2 == 1
}

/// How many pages an entry of a level stands for.
pub open spec fn span(lvl: nat) -> u64 {
    if lvl == 0 {
        1
    } else if lvl == 1 {
        0x200
    } else if lvl == 2 {
        0x4_0000
    } else {
        0x800_0000
    }
}

/// How many levels of tables the mode in `satp` has.
pub open spec fn depth(h: Hart) -> nat {
    if h.csrs.satp / 0x1000_0000_0000_0000 == 8 {
        3
    } else {
        4
    }
}

/// Whether all bits from the topmost one that selects an entry upward are the
/// same: bit 38 and up with three levels of tables, bit 47 and up with four.
pub open spec fn sign_extended(levels: nat, va: u64) -> bool {
    if levels == 3 {
        va / 0x40_0000_0000 == 0 || va / 0x40_0000_0000 == 0x3ff_ffff
    } else {
        va / 0x8000_0000_0000 == 0 || va / 0x8000_0000_0000 == 0x1_ffff
    }
}

/// The page number in an entry, or in `satp` at its foot.
pub open spec fn page_in(pte: u64) -> u64 {
    (pte / 0x400) % 0x1000_0000_0000
}

/// An entry that leads to a table: valid, and with no permission.
pub open spec fn leads_on(pte: u64) -> bool {
    bit(pte, 1) && !bit(pte, 2) && !bit(pte, 4) && !bit(pte, 8) && pte < 0x40_0000_0000_0000
}

/// An entry that maps a page: valid, readable or executable, and writable only
/// where it is readable.
pub open spec fn maps(pte: u64) -> bool {
    &&& bit(pte, 1)
    &&& bit(pte, 2) || bit(pte, 8)
    &&& bit(pte, 4) ==> bit(pte, 2)
    &&& pte < 0x40_0000_0000_0000
}

/// Whether an access may go through an entry that maps a page: the entry has
/// been marked accessed, and for a write dirty; it grants the access itself
/// (with MXR an executable page may be read too); a user page is closed to
/// supervisor fetches and, without SUM, to supervisor data, and every other
/// page is closed to user mode.
pub open spec fn grants(mstatus: u64, pte: u64, access: Access, prv: PrivMode) -> bool {
    &&& bit(pte, 0x40)
    &&& access == Access::Read ==> bit(pte, 2) || (bit(mstatus, 0x8_0000) && bit(pte, 8))
    &&& access == Access::Write ==> bit(pte, 4) && bit(pte, 0x80)
    &&& access == Access::Fetch ==> bit(pte, 8)
    &&& prv == PrivMode::U ==> bit(pte, 0x10)
    &&& prv == PrivMode::S && bit(pte, 0x10) ==> access != Access::Fetch && bit(mstatus, 0x4_0000)
}

/// The table that is read after the entries `p`.
pub open spec fn table_after(h: Hart, p: Seq<u64>) -> u64 {
    if p.len() == 0 {
        h.csrs.satp % 0x1000_0000_0000
    } else {
        page_in(p.last())
    }
}

/// The address of the entry for `va` that is read after the entries `p`.
pub open spec fn entry_address(h: Hart, va: u64, p: Seq<u64>) -> u64 {
    let lvl = (depth(h) - 1 - p.len()) as nat;
    (table_after(h, p) * 0x1000 + ((va / 0x1000) / span(lvl)) % 0x200 * 8) as u64
}

/// The entry for `va` that is read after the entries `p`: none where it lies
/// outside RAM or is protected.
pub open spec fn entry_after(h: Hart, va: u64, prv: PrivMode, p: Seq<u64>) -> Option<u64> {
    let at = entry_address(h, va, p);
    if h.pmp_active && !pmp_permitted(h.csrs, at, 8, Access::Read, prv) {
        None
    } else {
        ram_load(h.ram_base, h.ram, at, 8)
    }
}

/// Whether the entries `p` lead from the root down to a table for `va`.
pub open spec fn reaches(h: Hart, va: u64, prv: PrivMode, p: Seq<u64>) -> bool {
    &&& p.len() < depth(h)
    &&& forall|i: int|
        0 <= i < p.len() ==> leads_on(#[trigger] p[i]) && entry_after(
            h,
            va,
            prv,
            p.take(i),
        ) == Some(p[i])
}

/// The first byte of the page that an entry of a level maps `va` to.
pub open spec fn page_of(pte: u64, va: u64, lvl: nat) -> u64 {
    ((page_in(pte) + (va / 0x1000) % span(lvl)) * 0x1000) as u64
}

proof fn lemma_numbers(va: u64, pte: u64, satp: u64, m: u64, p: u64, q: u64)
    by (bit_vector)
    ensures
        va >> 12u64 == va / 0x1000,
        va & 0xfff == va % 0x1000,
        (va >> 12u64) & 0x1ff == va / 0x1000 / 1 % 0x200,
        (va >> 21u64) & 0x1ff == va / 0x1000 / 0x200 % 0x200,
        (va >> 30u64) & 0x1ff == va / 0x1000 / 0x4_0000 % 0x200,
        (va >> 39u64) & 0x1ff == va / 0x1000 / 0x800_0000 % 0x200,
        (pte & 1 != 0) == (pte / 1 % 2 == 1),
        (pte & 2 != 0) == (pte / 2 % 2 == 1),
        (pte & 4 != 0) == (pte / 4 % 2 == 1),
        (pte & 8 != 0) == (pte / 8 % 2 == 1),
        (pte & 0x10 != 0) == (pte / 0x10 % 2 == 1),
        (pte & 0x40 != 0) == (pte / 0x40 % 2 == 1),
        (pte & 0x80 != 0) == (pte / 0x80 % 2 == 1),
        (pte & (2u64 | 8u64) == 0) == (pte & 2 == 0 && pte & 8 == 0),
        (pte >> 54 != 0) == (pte >= 0x40_0000_0000_0000),
        (pte >> 10) & 0xfff_ffff_ffff == pte / 0x400 % 0x1000_0000_0000,
        (m & 0x4_0000 != 0) == (m / 0x4_0000 % 2 == 1),
        (m & 0x8_0000 != 0) == (m / 0x8_0000 % 2 == 1),
        satp & 0xfff_ffff_ffff == satp % 0x1000_0000_0000,
        satp >> 60 == satp / 0x1000_0000_0000_0000,
        p < 0x1000_0000_0000 ==> p << 12 == p * 0x1000,
        1u64 << 0u64 == 1,
        1u64 << 9u64 == 0x200,
        1u64 << 18u64 == 0x4_0000,
        1u64 << 27u64 == 0x800_0000,
        p & 0 == 0,
        p & 0x1ff == p % 0x200,
        p & 0x3_ffff == p % 0x4_0000,
        p & 0x7ff_ffff == p % 0x800_0000,
        p < 0x1000_0000_0000 ==> ((p & !0) | ((va >> 12) & 0)) << 12 == p * 0x1000,
        p < 0x1000_0000_0000 && p % 0x200 == 0 ==> ((p & !0x1ff) | ((va >> 12) & 0x1ff)) << 12 == (p
            + va / 0x1000 % 0x200) * 0x1000,
        p < 0x1000_0000_0000 && p % 0x4_0000 == 0 ==> ((p & !0x3_ffff) | ((va >> 12) & 0x3_ffff))
            << 12 == (p + va / 0x1000 % 0x4_0000) * 0x1000,
        p < 0x1000_0000_0000 && p % 0x800_0000 == 0 ==> ((p & !0x7ff_ffff) | ((va >> 12)
            & 0x7ff_ffff)) << 12 == (p + va / 0x1000 % 0x800_0000) * 0x1000,
        q % 0x1000 == 0 ==> q | (va & 0xfff) == q + va % 0x1000,
{
}

/// An entry, taken apart.
proof fn lemma_entry(mstatus: u64, pte: u64, access: Access, prv: PrivMode)
    requires
        prv != PrivMode::M,
    ensures
        pte_malformed(pte) == !(leads_on(pte) || maps(pte)),
        leads_on(pte) ==> pte & (2u64 | 8u64) == 0,
        maps(pte) ==> pte & (2u64 | 8u64) != 0,
        ppn_of(pte) == page_in(pte),
        leaf_permits(mstatus, pte, access, prv) == grants(mstatus, pte, access, prv),
{
    lemma_numbers(0, pte, 0, mstatus, 0, 0);
}

proof fn lemma_index(va: u64, lvl: nat)
    requires
        lvl < 4,
    ensures
        (va >> ((12 + 9 * lvl) as u64)) & 0x1ff == va / 0x1000 / span(lvl) % 0x200,
{
    lemma_numbers(va, 0, 0, 0, 0, 0);
}

/// One step of a walk reads the entry that comes after those read before.
#[verifier::rlimit(50)]
proof fn lemma_reached(h: Hart, va: u64, access: Access, prv: PrivMode, p: Seq<u64>)
    requires
        prv != PrivMode::M,
        sign_extended(depth(h), va),
        reaches(h, va, prv, p),
    ensures
        walked(h, va, access, prv) == walk_from(
            h,
            va,
            access,
            prv,
            (depth(h) - 1 - p.len()) as nat,
            (table_after(h, p) * 0x1000) as u64,
        ),
    decreases p.len(),
{
    let satp = h.csrs.satp;
    lemma_numbers(va, 0, satp, 0, satp % 0x1000_0000_0000, 0);
    assert(depth(h) == levels_of(h));
    assert(canonical(levels_of(h), va));
    if p.len() > 0 {
        let q = p.drop_last();
        let e = p.last();
        assert forall|i: int| 0 <= i < q.len() implies leads_on(#[trigger] q[i]) && entry_after(
            h,
            va,
            prv,
            q.take(i),
        ) == Some(q[i]) by {
            assert(p[i] == q[i]);
            assert(p.take(i) =~= q.take(i));
        }
        lemma_reached(h, va, access, prv, q);
        assert(p.take(p.len() - 1) =~= q);
        assert(p[p.len() - 1] == e);
        let lvl = (depth(h) - 1 - q.len()) as nat;
        lemma_index(va, lvl);
        lemma_entry(h.csrs.mstatus, e, access, prv);
        lemma_numbers(va, e, satp, 0, page_in(e), 0);
        let base = (table_after(h, q) * 0x1000) as u64;
        assert(base == table_after(h, q) * 0x1000);
        assert(entry_address(h, va, q) == base + ((va >> ((12 + 9 * lvl) as u64)) & 0x1ff) * 8);
    }
}

/// A walk goes down the chain of entries that lie in memory. An address whose
/// high bits are not a sign extension is refused before any entry is read;
/// every other one is looked up. An entry that cannot be read is an access
/// fault. One that neither leads on nor maps a page, one that leads on from
/// the last level, one that maps a misaligned large page and one that does not
/// grant the access are page faults. Otherwise the page is the one mapped,
/// and within a large page the one that the address selects.
#[verifier::rlimit(50)]
pub proof fn walks_follow_the_tables(
    h: Hart,
    va: u64,
    access: Access,
    prv: PrivMode,
    p: Seq<u64>,
)
    requires
        prv != PrivMode::M,
        reaches(h, va, prv, p),
    ensures
        ({
            let lvl = (depth(h) - 1 - p.len()) as nat;
            let r = walked(h, va, access, prv);
            &&& !sign_extended(depth(h), va) ==> r == Err::<(u64, u64), Exception>(
                page_fault_of(access, va),
            )
            &&& sign_extended(depth(h), va) ==> match entry_after(h, va, prv, p) {
                None => r == Err::<(u64, u64), Exception>(access_fault_of(access, va)),
                Some(e) => {
                    &&& !leads_on(e) && !maps(e) ==> r == Err::<(u64, u64), Exception>(
                        page_fault_of(access, va),
                    )
                    &&& leads_on(e) && lvl == 0 ==> r == Err::<(u64, u64), Exception>(
                        page_fault_of(access, va),
                    )
                    &&& maps(e) && (page_in(e) % span(lvl) != 0 || !grants(
                        h.csrs.mstatus,
                        e,
                        access,
                        prv,
                    )) ==> r == Err::<(u64, u64), Exception>(page_fault_of(access, va))
                    &&& maps(e) && page_in(e) % span(lvl) == 0 && grants(
                        h.csrs.mstatus,
                        e,
                        access,
                        prv,
                    ) ==> r == Ok::<(u64, u64), Exception>((page_of(e, va, lvl), e))
                },
            }
        }),
{
    let satp = h.csrs.satp;
    let lvl = (depth(h) - 1 - p.len()) as nat;
    lemma_numbers(va, 0, satp, 0, satp % 0x1000_0000_0000, 0);
    assert(depth(h) == levels_of(h));
    assert(canonical(levels_of(h), va) == sign_extended(depth(h), va));
    if sign_extended(depth(h), va) {
        lemma_reached(h, va, access, prv, p);
        lemma_index(va, lvl);
        let base = (table_after(h, p) * 0x1000) as u64;
        assert(base == table_after(h, p) * 0x1000);
        assert(entry_address(h, va, p) == base + ((va >> ((12 + 9 * lvl) as u64)) & 0x1ff) * 8);
        if let Some(e) = entry_after(h, va, prv, p) {
            lemma_entry(h.csrs.mstatus, e, access, prv);
            lemma_numbers(va, e, satp, h.csrs.mstatus, page_in(e), 0);
            lemma_large_page(va, page_in(e), lvl);
        }
    }
}

/// Where a large page puts an address.
proof fn lemma_large_page(va: u64, p: u64, lvl: nat)
    requires
        lvl < 4,
        p < 0x1000_0000_0000,
    ensures
        ({
            let low = ((1u64 << ((9 * lvl) as u64)) - 1) as u64;
            &&& (p & low != 0) == (p % span(lvl) != 0)
            &&& p % span(lvl) == 0 ==> ((p & !low) | ((va >> 12) & low)) << 12 == (p + (va / 0x1000)
                % span(lvl)) * 0x1000
        }),
{
    lemma_numbers(va, 0, 0, 0, p, 0);
}

/// With paging on and nothing cached for the page, an address goes to the page
/// that the tables map it to, at its own place in the page; in machine mode, or
/// with paging off, it stands for itself. Protection of physical memory comes
/// on top.
#[verifier::rlimit(50)]
pub proof fn addresses_go_where_the_tables_say(
    h: Hart,
    va: u64,
    access: Access,
    prv: PrivMode,
    size: u64,
    p: Seq<u64>,
)
    requires
        h.wf(),
        reaches(h, va, prv, p),
    ensures
        ({
            let lvl = (depth(h) - 1 - p.len()) as nat;
            let r = translated(h, va, access, prv, size).1;
            let paged = prv != PrivMode::M && h.csrs.satp / 0x1000_0000_0000_0000 != 0;
            let cached = h.tlb[(va / 0x1000 % 64) as int].vpn == va / 0x1000;
            &&& !paged && (h.pmp_active ==> pmp_permitted(h.csrs, va, size, access, prv)) ==> r
                == Ok::<u64, Exception>(va)
            &&& paged && !cached && !sign_extended(depth(h), va) ==> r == Err::<u64, Exception>(
                page_fault_of(access, va),
            )
            &&& paged && !cached && sign_extended(depth(h), va) ==> match entry_after(h, va, prv, p) {
                None => r == Err::<u64, Exception>(access_fault_of(access, va)),
                Some(e) => {
                    let pa = (page_of(e, va, lvl) + va % 0x1000) as u64;
                    maps(e) && page_in(e) % span(lvl) == 0 && grants(
                        h.csrs.mstatus,
                        e,
                        access,
                        prv,
                    ) && (h.pmp_active ==> pmp_permitted(h.csrs, pa, size, access, prv)) ==> r
                        == Ok::<u64, Exception>(pa)
                },
            }
        }),
{
    reveal(translated);
    let lvl = (depth(h) - 1 - p.len()) as nat;
    lemma_numbers(va, 0, h.csrs.satp, 0, 0, 0);
    if prv != PrivMode::M {
        walks_follow_the_tables(h, va, access, prv, p);
    }
    if let Some(e) = entry_after(h, va, prv, p) {
        let q = page_of(e, va, lvl);
        assert(q % 0x1000 == 0);
        lemma_numbers(va, 0, 0, 0, 0, q);
    }
}

/// What is cached for a page is used as the entry that it was made of would
/// be: it takes the address to the same page, and grants the same accesses.
pub proof fn cached_pages_are_checked_again(
    h: Hart,
    va: u64,
    access: Access,
    prv: PrivMode,
    size: u64,
)
    requires
        h.wf(),
        prv != PrivMode::M,
        h.csrs.satp / 0x1000_0000_0000_0000 != 0,
        h.tlb[(va / 0x1000 % 64) as int].vpn == va / 0x1000,
        !h.pmp_active,
    ensures
        ({
            let e = h.tlb[(va / 0x1000 % 64) as int];
            translated(h, va, access, prv, size) == (
                h,
                if grants(h.csrs.mstatus, e.pte, access, prv) {
                    Ok::<u64, Exception>((e.pa_base + va % 0x1000) as u64)
                } else {
                    Err(page_fault_of(access, va))
                },
            )
        }),
{
    reveal(translated);
    let e = h.tlb[(va / 0x1000 % 64) as int];
    lemma_numbers(va, 0, h.csrs.satp, 0, 0, e.pa_base);
    lemma_entry(h.csrs.mstatus, e.pte, access, prv);
}

/// A translation that was found is kept for the page, so that the next access
/// finds it without reading the tables.
pub proof fn found_pages_are_cached(h: Hart, va: u64, access: Access, prv: PrivMode, size: u64)
    requires
        h.wf(),
        prv != PrivMode::M,
        h.csrs.satp / 0x1000_0000_0000_0000 != 0,
        walked(h, va, access, prv) is Ok,
        h.tlb[(va / 0x1000 % 64) as int].vpn != va / 0x1000,
    ensures
        ({
            let e = translated(h, va, access, prv, size).0.tlb[(va / 0x1000 % 64) as int];
            &&& e.vpn == va / 0x1000
            &&& walked(h, va, access, prv) == Ok::<(u64, u64), Exception>((e.pa_base, e.pte))
        }),
{
    reveal(translated);
    lemma_numbers(va, 0, h.csrs.satp, 0, 0, 0);
}

} // verus!
