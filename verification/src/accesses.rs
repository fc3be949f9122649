//! What loads, stores, atomics and fetches do to registers and memory, byte by
//! byte, where addresses are physical: in machine mode, with no protection of
//! memory. Translation comes on top of this.

use vstd::prelude::*;

use crate::cpu::{extended, fetched, fetched_half, Hart};
use crate::csr::MSTATUS_MPRV;
use crate::decode::AmoOp;
use crate::exec::{amo_executed, amo_of, load_executed, store_executed};
use crate::images::{dword, half, lemma_field, word};
use crate::mem::{le_bytes, le_bytes_len, le_value, pow256};
use crate::mmu::{loaded, primed_offset, stored, translated};
use crate::semantics::datum;
use crate::trap::Exception;
use crate::{PrivMode, VmExit};

verus! {

/// A hart whose addresses are physical, and which has nothing cached for `va`.
pub open spec fn physical(h: Hart, va: u64, size: int) -> bool {
    &&& h.wf()
    &&& h.prv == PrivMode::M
    &&& h.csrs.mstatus & MSTATUS_MPRV == 0
    &&& !h.pmp_active
    &&& h.tohost is None
    &&& primed_offset(h, h.load_pages, va, size) is None
    &&& primed_offset(h, h.store_pages, va, size) is None
}

/// Whether a datum lies in RAM.
pub open spec fn in_ram(h: Hart, va: u64, size: int) -> bool {
    h.ram_base <= va && va - h.ram_base + size <= h.ram.len()
}

/// The number at a place in memory, lowest byte first.
pub open spec fn number_at(ram: Seq<u8>, at: int, size: int) -> int {
    if size == 1 {
        ram[at] as int
    } else if size == 2 {
        half(ram, at)
    } else if size == 4 {
        word(ram, at)
    } else {
        dword(ram, at)
    }
}

proof fn lemma_number(ram: Seq<u8>, at: int, size: int)
    requires
        size == 1 || size == 2 || size == 4 || size == 8,
        0 <= at,
        at + size <= ram.len(),
    ensures
        le_value(ram.subrange(at, at + size)) as u64 == number_at(ram, at, size),
        0 <= number_at(ram, at, size) < 0x1_0000_0000_0000_0000,
{
    lemma_field(ram, at);
    if size == 1 {
        reveal_with_fuel(le_value, 2);
        assert(ram.subrange(at, at + 1).drop_first().len() == 0);
    }
}

/// A load puts the number at the address in its register, with its sign where
/// it has one, and goes on to the next instruction; no other register and no
/// memory changes.
#[verifier::rlimit(50)]
pub proof fn loads_read_memory(h: Hart, va: u64, size: int, sign: bool, rd: u8, next: u64)
    requires
        size == 1 || size == 2 || size == 4 || size == 8,
        rd < 32,
        physical(h, va, size),
        in_ram(h, va, size),
    ensures
        ({
            let (h1, r) = load_executed(h, va, size, sign, rd, next);
            let n = number_at(h.ram, va - h.ram_base, size);
            &&& r == Ok::<Option<VmExit>, Exception>(None)
            &&& h1.pc == next
            &&& h1.ram == h.ram
            &&& rd != 0 ==> h1.x[rd as int] == extended(n as u64, size, sign)
            &&& forall|i: int| 0 <= i < 32 && (i != rd || i == 0) ==> #[trigger] h1.x[i] == h.x[i]
            &&& h1.csrs == h.csrs && h1.f == h.f && h1.prv == h.prv
        }),
{
    reveal(load_executed);
    reveal(loaded);
    reveal(translated);
    lemma_number(h.ram, va - h.ram_base, size);
}

/// The bytes of a number.
proof fn lemma_byte(v: nat, n: nat, i: int)
    requires
        0 <= i < n,
    ensures
        le_bytes(v, n)[i] == (v / pow256(i as nat)) % 256,
    decreases n,
{
    le_bytes_len(v / 256, (n - 1) as nat);
    if i == 0 {
        assert(v / 1 == v);
    } else {
        lemma_byte(v / 256, (n - 1) as nat, i - 1);
        let p = pow256((i - 1) as nat);
        lemma_pow256_pos((i - 1) as nat);
        vstd::arithmetic::div_mod::lemma_div_denominator(v as int, 256, p as int);
        assert(le_bytes(v, n)[i] == le_bytes(v / 256, (n - 1) as nat)[i - 1]);
    }
}

proof fn lemma_pow256_pos(n: nat)
    ensures
        pow256(n) > 0,
    decreases n,
{
    if n > 0 {
        lemma_pow256_pos((n - 1) as nat);
    }
}

/// A store writes the bytes of its number at the address, lowest first, and no
/// other byte; no register changes, and a reservation is given up.
#[verifier::rlimit(50)]
pub proof fn stores_write_memory(h: Hart, va: u64, size: int, data: u64, next: u64, k: int)
    requires
        size == 1 || size == 2 || size == 4 || size == 8,
        physical(h, va, size),
        in_ram(h, va, size),
        0 <= k < h.ram.len(),
    ensures
        ({
            let (h1, r) = store_executed(h, va, size, data, next);
            let at = va - h.ram_base;
            &&& r == Ok::<Option<VmExit>, Exception>(None)
            &&& h1.pc == next
            &&& h1.x == h.x && h1.f == h.f && h1.csrs == h.csrs && h1.prv == h.prv
            &&& h1.reservation is None
            &&& h1.ram.len() == h.ram.len()
            &&& h1.ram[k] == (if at <= k < at + size {
                (data as nat / pow256((k - at) as nat)) % 256
            } else {
                h.ram[k] as nat
            })
        }),
{
    reveal(store_executed);
    reveal(stored);
    reveal(translated);
    let at = va - h.ram_base;
    le_bytes_len(data as nat, size as nat);
    if at <= k < at + size {
        lemma_byte(data as nat, size as nat, k - at);
    }
}

/// Outside RAM a datum is a device's: it is asked for, or handed out, where it
/// is aligned, and else misaligned; one that only starts in RAM faults.
#[verifier::rlimit(50)]
pub proof fn devices_take_what_is_not_memory(
    h: Hart,
    va: u64,
    size: int,
    sign: bool,
    rd: u8,
    data: u64,
    next: u64,
)
    requires
        size == 1 || size == 2 || size == 4 || size == 8,
        physical(h, va, size),
        !in_ram(h, va, size),
    ensures
        ({
            let (hl, l) = load_executed(h, va, size, sign, rd, next);
            let (hs, s) = store_executed(h, va, size, data, next);
            let starts = in_ram(h, va, 1);
            let aligned = va as int % size == 0;
            &&& hl.ram == h.ram && hs.ram == h.ram && hl.x == h.x && hs.x == h.x
            &&& starts ==> l == Err::<Option<VmExit>, Exception>(Exception::LoadAccessFault(va))
                && s == Err::<Option<VmExit>, Exception>(Exception::StoreAccessFault(va))
            &&& !starts && !aligned ==> l == Err::<Option<VmExit>, Exception>(
                Exception::LoadAddrMisaligned(va),
            ) && s == Err::<Option<VmExit>, Exception>(Exception::StoreAddrMisaligned(va))
            &&& !starts && aligned ==> {
                &&& l == Ok::<Option<VmExit>, Exception>(
                    Some(VmExit::MmioRead { addr: va, size: size as u8 }),
                )
                &&& hl.pc == h.pc
                &&& hl.pending matches Some(p) && p.rd == rd && p.size == size && p.sign == sign
                    && !p.freg && p.next_pc == next
                &&& s == Ok::<Option<VmExit>, Exception>(
                    Some(VmExit::MmioWrite { addr: va, size: size as u8, data }),
                )
                &&& hs.pc == next
            }
        }),
{
    reveal(load_executed);
    reveal(loaded);
    reveal(store_executed);
    reveal(stored);
    reveal(translated);
}

/// An atomic operation leaves in memory what it makes of the number there and
/// of its operand, and in its register what was there, as a signed number.
#[verifier::rlimit(50)]
pub proof fn atomics_change_memory(h: Hart, op: AmoOp, rd: u8, rs1: u8, rs2: u8, width: u8)
    requires
        width == 4 || width == 8,
        op != AmoOp::Lr && op != AmoOp::Sc,
        rd < 32 && rs1 < 32 && rs2 < 32,
        physical(h, h.x[rs1 as int], width as int),
        in_ram(h, h.x[rs1 as int], width as int),
        h.x[rs1 as int] as int % width as int == 0,
    ensures
        ({
            let va = h.x[rs1 as int];
            let at = va - h.ram_base;
            let cur = number_at(h.ram, at, width as int) as u64;
            let src = datum(h.x[rs2 as int], width as int, false) as u64;
            let (h1, r) = amo_executed(h, op, rd, rs1, rs2, width);
            &&& r == Ok::<Option<VmExit>, Exception>(None)
            &&& h1.ram == crate::mem::splice(
                h.ram,
                at,
                le_bytes(amo_of(op, cur, src, width as int) as nat, width as nat),
            )
            &&& rd != 0 ==> h1.x[rd as int] == extended(cur, width as int, true)
            &&& forall|i: int| 0 <= i < 32 && (i != rd || i == 0) ==> #[trigger] h1.x[i] == h.x[i]
            &&& h1.reservation is None
        }),
{
    reveal(amo_executed);
    reveal(translated);
    lemma_number(h.ram, h.x[rs1 as int] - h.ram_base, width as int);
    crate::semantics::loads_keep_the_number(h.x[rs2 as int], width as int);
}

/// An instruction is fetched from memory at the program counter: two bytes
/// where their lowest two bits are not both set, and else four.
#[verifier::rlimit(50)]
pub proof fn instructions_are_fetched_from_memory(h: Hart, pc: u64)
    requires
        h.wf(),
        h.prv == PrivMode::M,
        !h.pmp_active,
        crate::cpu::fetch_tag_of(h, pc) != h.fetch_tag,
        in_ram(h, pc, 4),
        pc < 0xffff_ffff_ffff_fff0,
    ensures
        ({
            let at = pc - h.ram_base;
            let (h1, r) = fetched(h, pc);
            &&& h1.ram == h.ram && h1.x == h.x && h1.pc == h.pc
            &&& half(h.ram, at) % 4 != 3 ==> r == Ok::<(u32, u64), Exception>(
                (half(h.ram, at) as u32, 2),
            )
            &&& half(h.ram, at) % 4 == 3 ==> r == Ok::<(u32, u64), Exception>(
                (word(h.ram, at) as u32, 4),
            )
        }),
{
    reveal(translated);
    let at = pc - h.ram_base;
    lemma_number(h.ram, at, 2);
    lemma_number(h.ram, at + 2, 2);
    lemma_field(h.ram, at);
    lemma_field(h.ram, at + 2);
    reveal(word);
    let (h1, r1) = fetched_half(h, pc);
    assert(r1 == Ok::<u16, Exception>(half(h.ram, at) as u16));
    let (h2, r2) = fetched_half(h1, pc.wrapping_add(2));
    assert(r2 == Ok::<u16, Exception>(half(h.ram, at + 2) as u16));
    assert(word(h.ram, at) == half(h.ram, at) + 0x1_0000 * half(h.ram, at + 2));
}

} // verus!
