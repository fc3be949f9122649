//! What the protection of physical memory means: the bytes that configure it,
//! the range that an entry covers, and which entry decides on an access.

use vstd::prelude::*;
use vstd::std_specs::bits::axiom_u64_trailing_zeros;

use crate::csr::Csrs;
use crate::mmu::{
    pmp_cfg_of, pmp_from, pmp_mode, pmp_permits, pmp_permitted, pmp_range_of, Access,
};
use crate::PrivMode;

verus! {

/// The byte that configures an entry: eight to a register, of which every
/// second is there.
pub open spec fn byte_of(c: Csrs, i: int) -> int {
    let w = c.pmpcfg[(i / 8) * 2] as int;
    let k = i % 8;
    (if k == 0 {
        w
    } else if k == 1 {
        w / 0x100
    } else if k == 2 {
        w / 0x1_0000
    } else if k == 3 {
        w / 0x100_0000
    } else if k == 4 {
        w / 0x1_0000_0000
    } else if k == 5 {
        w / 0x100_0000_0000
    } else if k == 6 {
        w / 0x1_0000_0000_0000
    } else {
        w / 0x100_0000_0000_0000
    }) % 0x100
}

/// How an entry's address is meant: not at all, as the end of a range, as four
/// bytes, or as a power of two.
pub open spec fn matching(c: Csrs, i: int) -> int {
    byte_of(c, i) / 8 % 4
}

/// Whether the low `t` bits of an address are ones and the next is a zero.
pub open spec fn ones(addr: u64, t: u64) -> bool {
    &&& t < 64
    &&& (addr >> t) & 1 == 0
    &&& forall|j: u64| j < t ==> (#[trigger] (addr >> j)) & 1 == 1
}

/// The range of bytes of an entry whose address ends in `t` ones. Addresses
/// count four bytes; ranges that are a power of two are aligned to it.
pub open spec fn range(c: Csrs, i: int, t: u64) -> (int, int) {
    let addr = c.pmpaddr[i] as int;
    let low = ((1u64 << t) - 1) as int;
    if matching(c, i) == 1 {
        (
            if i == 0 {
                0
            } else {
                4 * c.pmpaddr[i - 1]
            },
            4 * addr,
        )
    } else if matching(c, i) == 2 {
        (4 * addr, 4 * addr + 4)
    } else {
        (4 * (addr - low), 4 * (addr - low) + 8 * (low + 1))
    }
}

/// Whether an entry that covers an access grants it: machine mode is bound by
/// locked entries alone.
pub open spec fn entry_grants(byte: int, access: Access, prv: PrivMode) -> bool {
    ||| prv == PrivMode::M && byte / 0x80 % 2 == 0
    ||| access == Access::Read && byte % 2 == 1
    ||| access == Access::Write && byte / 2 % 2 == 1
    ||| access == Access::Fetch && byte / 4 % 2 == 1
}

proof fn lemma_bits(w: u64, b: u64, addr: u64, t: u64, j: u64)
    by (bit_vector)
    requires
        j < 64,
        t <= 54,
        addr < 0x40_0000_0000_0000,
    ensures
        (w >> 0u64) & 0xff == w % 0x100,
        (w >> 8u64) & 0xff == w / 0x100 % 0x100,
        (w >> 16u64) & 0xff == w / 0x1_0000 % 0x100,
        (w >> 24u64) & 0xff == w / 0x100_0000 % 0x100,
        (w >> 32u64) & 0xff == w / 0x1_0000_0000 % 0x100,
        (w >> 40u64) & 0xff == w / 0x100_0000_0000 % 0x100,
        (w >> 48u64) & 0xff == w / 0x1_0000_0000_0000 % 0x100,
        (w >> 56u64) & 0xff == w / 0x100_0000_0000_0000 % 0x100,
        (b >> 3) & 3 == b / 8 % 4,
        (b & 1 != 0) == (b % 2 == 1),
        (b & 2 != 0) == (b / 2 % 2 == 1),
        (b & 4 != 0) == (b / 4 % 2 == 1),
        (b & 0x80 != 0) == (b / 0x80 % 2 == 1),
        addr << 2 == addr * 4,
        ((!addr) >> j) & 1 == 1 - ((addr >> j) & 1),
        (addr >> j) & 1 == 0 || (addr >> j) & 1 == 1,
        addr & (((1u64 << t) - 1) as u64) == ((1u64 << t) - 1) as u64 && (addr >> t) & 1 == 0 ==> ((
        addr >> ((t + 1) as u64)) << ((t + 1) as u64)) << 2 == 4 * (addr - ((1u64 << t) - 1)),
        1u64 << ((t + 3) as u64) == 8 * (1u64 << t),
        1u64 << t >= 1,
        t < 54 ==> (addr & (((1u64 << ((t + 1) as u64)) - 1) as u64) == ((1u64 << ((t + 1) as u64))
            - 1) as u64) == (addr & (((1u64 << t) - 1) as u64) == ((1u64 << t) - 1) as u64 && (addr
            >> t) & 1 == 1),
        addr & (((1u64 << 0u64) - 1) as u64) == ((1u64 << 0u64) - 1) as u64,
        (addr >> 54u64) & 1 == 0,
{
}

/// An entry's byte, field by field.
#[verifier::rlimit(50)]
proof fn lemma_byte(c: Csrs, i: int)
    requires
        0 <= i < 64,
        c.pmpcfg.len() == 16,
    ensures
        pmp_cfg_of(c, i) == byte_of(c, i),
        pmp_mode(pmp_cfg_of(c, i)) == matching(c, i),
        forall|access: Access, prv: PrivMode| #[trigger]
            pmp_permits(pmp_cfg_of(c, i), access, prv) == entry_grants(byte_of(c, i), access, prv),
{
    let w = c.pmpcfg[(i / 8) * 2];
    lemma_bits(w, 0, 0, 0, 0);
    lemma_bits(0, pmp_cfg_of(c, i), 0, 0, 0);
    let k = i % 8;
    assert(k == 0 || k == 1 || k == 2 || k == 3 || k == 4 || k == 5 || k == 6 || k == 7);
}

/// The trailing ones of an address.
#[verifier::rlimit(50)]
proof fn lemma_ones(addr: u64, t: u64)
    requires
        addr < 0x40_0000_0000_0000,
        ones(addr, t),
    ensures
        t <= 54,
        (!addr).trailing_zeros() == t,
        addr & (((1u64 << t) - 1) as u64) == ((1u64 << t) - 1) as u64,
{
    lemma_bits(0, 0, addr, 0, 0);
    if t > 54 {
        assert((addr >> 54u64) & 1 == 1);
    }
    let z = (!addr).trailing_zeros() as u64;
    axiom_u64_trailing_zeros(!addr);
    assert(((!addr) >> 54u64) & 1 == 1) by {
        lemma_bits(0, 0, addr, 0, 54);
    }
    lemma_bits(0, 0, addr, 0, t);
    assert(((!addr) >> t) & 1 == 1);
    if z < t {
        lemma_bits(0, 0, addr, 0, z);
        assert((addr >> z) & 1 == 1);
    }
    if t < z {
        assert(((!addr) >> t) & 1 == 0);
    }
    lemma_low_ones(addr, t, t);
}

proof fn lemma_low_ones(addr: u64, t: u64, n: u64)
    requires
        addr < 0x40_0000_0000_0000,
        n <= t <= 54,
        forall|j: u64| j < t ==> (#[trigger] (addr >> j)) & 1 == 1,
    ensures
        addr & (((1u64 << n) - 1) as u64) == ((1u64 << n) - 1) as u64,
    decreases n,
{
    if n == 0 {
        lemma_bits(0, 0, addr, 0, 0);
    } else {
        let k = (n - 1) as u64;
        lemma_low_ones(addr, t, k);
        lemma_bits(0, 0, addr, k, k);
        assert((addr >> k) & 1 == 1);
    }
}

/// The range of an entry is the one that its address stands for.
#[verifier::rlimit(50)]
pub proof fn entries_cover_their_range(c: Csrs, i: int, t: u64)
    requires
        0 <= i < 64,
        c.pmpcfg.len() == 16,
        c.pmpaddr.len() == 64,
        forall|j: int| 0 <= j < 64 ==> #[trigger] c.pmpaddr[j] < 0x40_0000_0000_0000,
        ones(c.pmpaddr[i], t),
        matching(c, i) != 0,
    ensures
        ({
            let (lo, hi) = pmp_range_of(c, i, pmp_mode(pmp_cfg_of(c, i)));
            (lo as int, hi as int) == range(c, i, t)
        }),
{
    lemma_byte(c, i);
    let addr = c.pmpaddr[i];
    lemma_ones(addr, t);
    lemma_bits(0, 0, addr, t, 0);
    if i > 0 {
        assert(c.pmpaddr[i - 1] < 0x40_0000_0000_0000);
        lemma_bits(0, 0, c.pmpaddr[i - 1], 0, 0);
    }
}

/// Whether an entry has to do with the bytes from `pa` to `end`.
pub open spec fn touches(c: Csrs, i: int, pa: u64, end: u64) -> bool {
    let (lo, hi) = pmp_range_of(c, i, matching(c, i) as u64);
    matching(c, i) != 0 && lo <= end && pa < hi
}

/// The first entry that touches an access decides on it: it must cover all of
/// it and grant it. Where none touches it, it is for machine mode alone.
pub proof fn the_first_entry_decides(
    c: Csrs,
    pa: u64,
    size: u64,
    access: Access,
    prv: PrivMode,
    i: int,
)
    requires
        c.pmpcfg.len() == 16,
        0 < size,
        pa + size - 1 <= u64::MAX,
        0 <= i <= 64,
        forall|j: int| 0 <= j < i ==> !#[trigger] touches(c, j, pa, (pa + size - 1) as u64),
    ensures
        i == 64 ==> pmp_permitted(c, pa, size, access, prv) == (prv == PrivMode::M),
        i < 64 && touches(c, i, pa, (pa + size - 1) as u64) ==> ({
            let (lo, hi) = pmp_range_of(c, i, matching(c, i) as u64);
            pmp_permitted(c, pa, size, access, prv) == (lo <= pa && pa + size <= hi && entry_grants(
                byte_of(c, i),
                access,
                prv,
            ))
        }),
{
    reveal(pmp_permitted);
    let end = (pa + size - 1) as u64;
    lemma_passed(c, pa, end, access, prv, 0, i);
    if i < 64 {
        lemma_byte(c, i);
    }
}

proof fn lemma_passed(
    c: Csrs,
    pa: u64,
    end: u64,
    access: Access,
    prv: PrivMode,
    j: int,
    i: int,
)
    requires
        c.pmpcfg.len() == 16,
        0 <= j <= i <= 64,
        forall|k: int| j <= k < i ==> !#[trigger] touches(c, k, pa, end),
    ensures
        pmp_from(c, j, pa, end, access, prv) == pmp_from(c, i, pa, end, access, prv),
    decreases i - j,
{
    if j < i {
        lemma_byte(c, j);
        assert(!touches(c, j, pa, end));
        lemma_passed(c, pa, end, access, prv, j + 1, i);
    }
}

} // verus!
