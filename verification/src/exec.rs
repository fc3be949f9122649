//! Instruction execution: the integer, multiply/divide and atomic extensions.

use vstd::prelude::*;

use crate::cpu::{extend, extended, retired, with_x, Cpu, Hart, Observed, PendingLoad, Reservation};
use crate::csr::{csr_value, csr_written, MSTATUS_TSR, MSTATUS_TVM, MSTATUS_TW};
use crate::decode::{has_word_form, AluOp, AmoOp, BranchOp, CsrOp, Instr};
use crate::mem::{le_bytes, le_value, ram_load, ram_offset, splice};
use crate::mmu::{
    data_priv_of, flushed, loaded, primed_offset, stored, translated, Access, LoadResult,
    StoreResult,
};
use crate::fpu::fp_executed;
use crate::trap::{after_mret, after_sret, Exception};
use crate::{PrivMode, VmExit};

verus! {

// ---------------------------------------------------------------------------
// Arithmetic.
// ---------------------------------------------------------------------------

/// The signed number that a 64-bit register holds.
pub open spec fn s64(v: u64) -> int {
    if v < 0x8000_0000_0000_0000 {
        v as int
    } else {
        v - 0x1_0000_0000_0000_0000
    }
}

/// The signed number that the low word of a register holds.
pub open spec fn s32(v: u64) -> int {
    let w = (v % 0x1_0000_0000) as int;
    if w < 0x8000_0000 {
        w
    } else {
        w - 0x1_0000_0000
    }
}

/// The unsigned number that the low word of a register holds.
pub open spec fn u32_of(v: u64) -> int {
    (v % 0x1_0000_0000) as int
}

/// The register that holds `v` modulo 2^64.
pub open spec fn wrap64(v: int) -> u64 {
    (v % 0x1_0000_0000_0000_0000) as u64
}

/// The register that holds `v` modulo 2^32, sign-extended.
pub open spec fn wrap32(v: int) -> u64 {
    let w = v % 0x1_0000_0000;
    (if w < 0x8000_0000 {
        w
    } else {
        w + 0xffff_ffff_0000_0000
    }) as u64
}

pub open spec fn magnitude(x: int) -> int {
    if x < 0 {
        -x
    } else {
        x
    }
}

/// Division that truncates toward zero.
pub open spec fn quotient(x: int, y: int) -> int {
    if (x < 0) == (y < 0) {
        magnitude(x) / magnitude(y)
    } else {
        -(magnitude(x) / magnitude(y))
    }
}

/// The remainder of truncating division: it has the sign of the dividend.
pub open spec fn remainder(x: int, y: int) -> int {
    if x < 0 {
        -(magnitude(x) % magnitude(y))
    } else {
        magnitude(x) % magnitude(y)
    }
}

/// The value of a 64-bit operation. Division by zero yields all-ones (Div) or
/// the dividend (Rem); the one overflowing quotient wraps.
#[verifier::opaque]
pub open spec fn alu_of(op: AluOp, a: u64, b: u64) -> u64 {
    match op {
        AluOp::Add => wrap64(a + b),
        AluOp::Sub => wrap64(a - b),
        AluOp::Sll => a << (b % 64),
        AluOp::Slt => if s64(a) < s64(b) {
            1
        } else {
            0
        },
        AluOp::Sltu => if a < b {
            1
        } else {
            0
        },
        AluOp::Xor => a ^ b,
        AluOp::Srl => a >> (b % 64),
        AluOp::Sra => ((a as i64) >> (b % 64)) as u64,
        AluOp::Or => a | b,
        AluOp::And => a & b,
        AluOp::Mul => wrap64(a * b),
        AluOp::Mulh => wrap64((s64(a) * s64(b)) / 0x1_0000_0000_0000_0000),
        AluOp::Mulhsu => wrap64((s64(a) * b) / 0x1_0000_0000_0000_0000),
        AluOp::Mulhu => wrap64((a * b) / 0x1_0000_0000_0000_0000),
        AluOp::Div => if b == 0 {
            u64::MAX
        } else {
            wrap64(quotient(s64(a), s64(b)))
        },
        AluOp::Divu => if b == 0 {
            u64::MAX
        } else {
            a / b
        },
        AluOp::Rem => if b == 0 {
            a
        } else {
            wrap64(remainder(s64(a), s64(b)))
        },
        AluOp::Remu => if b == 0 {
            a
        } else {
            a % b
        },
    }
}

/// The value of a 32-bit (W) operation: on the low words, sign-extended.
#[verifier::opaque]
pub open spec fn alu32_of(op: AluOp, a: u64, b: u64) -> u64
    recommends
        has_word_form(op),
{
    match op {
        AluOp::Add => wrap32(a + b),
        AluOp::Sub => wrap32(a - b),
        AluOp::Sll => wrap32(((a as u32) << (b % 32)) as int),
        AluOp::Srl => wrap32(((a as u32) >> (b % 32)) as int),
        AluOp::Sra => wrap32(((a as i32) >> (b % 32)) as int),
        AluOp::Mul => wrap32(a * b),
        AluOp::Div => if u32_of(b) == 0 {
            u64::MAX
        } else {
            wrap32(quotient(s32(a), s32(b)))
        },
        AluOp::Divu => if u32_of(b) == 0 {
            u64::MAX
        } else {
            wrap32(u32_of(a) / u32_of(b))
        },
        AluOp::Rem => if u32_of(b) == 0 {
            wrap32(a as int)
        } else {
            wrap32(remainder(s32(a), s32(b)))
        },
        AluOp::Remu => if u32_of(b) == 0 {
            wrap32(a as int)
        } else {
            wrap32(u32_of(a) % u32_of(b))
        },
        _ => 0,
    }
}

/// The bit pattern of a register read as a signed number, and back.
proof fn lemma_signed_view(a: u64)
    by (bit_vector)
    ensures
        a < 0x8000_0000_0000_0000 ==> a as i64 == a,
        a >= 0x8000_0000_0000_0000 ==> a as i64 == a - 0x1_0000_0000_0000_0000,
        a as u32 == a % 0x1_0000_0000,
        a & 63 == a % 64,
        a & 31 == a % 32,
{
}

proof fn lemma_word_view(a: u32)
    by (bit_vector)
    ensures
        a < 0x8000_0000 ==> a as i32 == a,
        a >= 0x8000_0000 ==> a as i32 == a - 0x1_0000_0000,
        (a as i32) as i64 as u64 == (if a < 0x8000_0000 {
            a as int
        } else {
            a + 0xffff_ffff_0000_0000
        }),
{
}

proof fn lemma_word_shift(v: i32)
    by (bit_vector)
    ensures
        v as u32 == (if v >= 0 {
            v as int
        } else {
            v + 0x1_0000_0000
        }),
{
}

/// A word sign-extended to a register.
fn sext32(w: u32) -> (r: u64)
    ensures
        r == wrap32(w as int),
{
    proof {
        lemma_word_view(w);
    }
    w as i32 as i64 as u64
}

/// The magnitude of the signed number in a register.
fn mag64(a: u64) -> (r: u64)
    ensures
        r == magnitude(s64(a)),
{
    if a < 0x8000_0000_0000_0000 {
        a
    } else {
        (0xffff_ffff_ffff_ffff - a) + 1
    }
}

fn mag32(a: u32) -> (r: u32)
    ensures
        r == magnitude(s32(a as u64)),
{
    if a < 0x8000_0000 {
        a
    } else {
        (0xffff_ffff - a) + 1
    }
}

/// The upper word of the unsigned product.
fn mulhu(a: u64, b: u64) -> (r: u64)
    ensures
        r == (a * b) / 0x1_0000_0000_0000_0000,
{
    let p: u128 = mul_wide(a, b);
    (p / 0x1_0000_0000_0000_0000u128) as u64
}

fn mul_wide(a: u64, b: u64) -> (r: u128)
    ensures
        r == a * b,
        r <= 0xffff_ffff_ffff_fffe_0000_0000_0000_0001,
{
    assert(0 <= a * b <= 0xffff_ffff_ffff_fffe_0000_0000_0000_0001) by (nonlinear_arith)
        requires
            a <= 0xffff_ffff_ffff_ffff,
            b <= 0xffff_ffff_ffff_ffff,
    ;
    a as u128 * b as u128
}

/// How the signed products relate to the unsigned one.
proof fn lemma_signed_products(a: u64, b: u64)
    ensures
        ({
            let k = 0x1_0000_0000_0000_0000int;
            let hi = (a * b) / k;
            let ca = if a >= 0x8000_0000_0000_0000 {
                b as int
            } else {
                0
            };
            let cb = if b >= 0x8000_0000_0000_0000 {
                a as int
            } else {
                0
            };
            wrap64((s64(a) * s64(b)) / k) == wrap64(hi - ca - cb) && wrap64((s64(a) * b) / k)
                == wrap64(hi - ca)
        }),
{
    let k = 0x1_0000_0000_0000_0000int;
    let p = a * b;
    let (x, y) = (a as int, b as int);
    let na = a >= 0x8000_0000_0000_0000;
    let nb = b >= 0x8000_0000_0000_0000;
    let ca = if na {
        y
    } else {
        0
    };
    let cb = if nb {
        x
    } else {
        0
    };
    let kk = if na && nb {
        k
    } else {
        0
    };
    assert((x - k) * (y - k) == x * y - k * x - k * y + k * k) by (nonlinear_arith);
    assert((x - k) * y == x * y - k * y) by (nonlinear_arith);
    assert(x * (y - k) == x * y - k * x) by (nonlinear_arith);
    assert(s64(a) * s64(b) == p + k * (kk - ca - cb));
    assert(s64(a) * b == p + k * (0 - ca));
    assert((p + k * (kk - ca - cb)) / k == p / k + (kk - ca - cb));
    assert((p + k * (0 - ca)) / k == p / k - ca);
    assert((p / k + (kk - ca - cb)) % k == (p / k - ca - cb) % k);
}

fn mul64(a: u64, b: u64) -> (r: u64)
    ensures
        r == alu_of(AluOp::Mul, a, b),
{
    proof {
        reveal(alu_of);
    }
    let p: u128 = mul_wide(a, b);
    (p % 0x1_0000_0000_0000_0000u128) as u64
}

fn mulh(a: u64, b: u64) -> (r: u64)
    ensures
        r == alu_of(AluOp::Mulh, a, b),
{
    proof {
        reveal(alu_of);
    }
    proof {
        lemma_signed_products(a, b);
    }
    let ca: u64 = if a >= 0x8000_0000_0000_0000 {
        b
    } else {
        0
    };
    let cb: u64 = if b >= 0x8000_0000_0000_0000 {
        a
    } else {
        0
    };
    mulhu(a, b).wrapping_sub(ca).wrapping_sub(cb)
}

fn mulhsu(a: u64, b: u64) -> (r: u64)
    ensures
        r == alu_of(AluOp::Mulhsu, a, b),
{
    proof {
        reveal(alu_of);
    }
    proof {
        lemma_signed_products(a, b);
    }
    let ca: u64 = if a >= 0x8000_0000_0000_0000 {
        b
    } else {
        0
    };
    mulhu(a, b).wrapping_sub(ca)
}

fn div64(a: u64, b: u64) -> (r: u64)
    ensures
        r == alu_of(AluOp::Div, a, b),
{
    proof {
        reveal(alu_of);
    }
    if b == 0 {
        u64::MAX
    } else {
        let (x, y): (u64, u64) = (mag64(a), mag64(b));
        let q: u64 = x / y;
        assert(q <= x) by (nonlinear_arith)
            requires
                q == x / y,
                y > 0,
        ;
        if (a >= 0x8000_0000_0000_0000) == (b >= 0x8000_0000_0000_0000) {
            q
        } else {
            0u64.wrapping_sub(q)
        }
    }
}

fn rem64(a: u64, b: u64) -> (r: u64)
    ensures
        r == alu_of(AluOp::Rem, a, b),
{
    proof {
        reveal(alu_of);
    }
    if b == 0 {
        a
    } else {
        let m: u64 = mag64(a) % mag64(b);
        if a >= 0x8000_0000_0000_0000 {
            0u64.wrapping_sub(m)
        } else {
            m
        }
    }
}

#[inline]
pub fn alu(op: AluOp, a: u64, b: u64) -> (r: u64)
    ensures
        r == alu_of(op, a, b),
{
    proof {
        reveal(alu_of);
    }
    proof {
        lemma_signed_view(a);
        lemma_signed_view(b);
    }
    match op {
        AluOp::Add => a.wrapping_add(b),
        AluOp::Sub => a.wrapping_sub(b),
        AluOp::Sll => a << (b % 64),
        AluOp::Slt => if (a as i64) < (b as i64) {
            1
        } else {
            0
        },
        AluOp::Sltu => if a < b {
            1
        } else {
            0
        },
        AluOp::Xor => a ^ b,
        AluOp::Srl => a >> (b % 64),
        AluOp::Sra => ((a as i64) >> (b % 64)) as u64,
        AluOp::Or => a | b,
        AluOp::And => a & b,
        AluOp::Mul => mul64(a, b),
        AluOp::Mulh => mulh(a, b),
        AluOp::Mulhsu => mulhsu(a, b),
        AluOp::Mulhu => mulhu(a, b),
        // Division by zero yields all-ones (Div) or the dividend (Rem);
        // i64::MIN / -1 wraps to i64::MIN with remainder 0. No traps.
        AluOp::Div => div64(a, b),
        AluOp::Divu => if b == 0 {
            u64::MAX
        } else {
            a / b
        },
        AluOp::Rem => rem64(a, b),
        AluOp::Remu => if b == 0 {
            a
        } else {
            a % b
        },
    }
}

fn div32(x: u32, y: u32) -> (r: u64)
    ensures
        r == alu32_of(AluOp::Div, x as u64, y as u64),
{
    proof {
        reveal(alu32_of);
    }
    if y == 0 {
        u64::MAX
    } else {
        let (mx, my): (u32, u32) = (mag32(x), mag32(y));
        let q: u32 = mx / my;
        assert(q <= mx) by (nonlinear_arith)
            requires
                q == mx / my,
                my > 0,
        ;
        if (x >= 0x8000_0000) == (y >= 0x8000_0000) {
            sext32(q)
        } else {
            sext32(0u32.wrapping_sub(q))
        }
    }
}

fn rem32(x: u32, y: u32) -> (r: u64)
    ensures
        r == alu32_of(AluOp::Rem, x as u64, y as u64),
{
    proof {
        reveal(alu32_of);
    }
    if y == 0 {
        sext32(x)
    } else {
        let m: u32 = mag32(x) % mag32(y);
        if x >= 0x8000_0000 {
            sext32(0u32.wrapping_sub(m))
        } else {
            sext32(m)
        }
    }
}

/// The W forms read nothing but the low words.
proof fn lemma_word_operands(op: AluOp, a: u64, b: u64)
    requires
        has_word_form(op),
    ensures
        alu32_of(op, a, b) == alu32_of(op, (a % 0x1_0000_0000) as u64, (b % 0x1_0000_0000) as u64),
{
    let (x, y) = ((a % 0x1_0000_0000) as u64, (b % 0x1_0000_0000) as u64);
    assert(b % 32 == y % 32);
    let (p, q, k) = (a as int, b as int, 0x1_0000_0000int);
    assert((p + q) % k == ((p % k) + (q % k)) % k) by {
        vstd::arithmetic::div_mod::lemma_add_mod_noop(p, q, k);
    }
    assert((p - q) % k == ((p % k) - (q % k)) % k) by {
        vstd::arithmetic::div_mod::lemma_sub_mod_noop(p, q, k);
    }
    assert((p * q) % k == ((p % k) * (q % k)) % k) by {
        vstd::arithmetic::div_mod::lemma_mul_mod_noop_general(p, q, k);
    }
    assert(x as int % k == x) by {
        vstd::arithmetic::div_mod::lemma_small_mod(x as nat, k as nat);
    }
    assert(y as int % k == y) by {
        vstd::arithmetic::div_mod::lemma_small_mod(y as nat, k as nat);
    }
    assert(s32(a) == s32(x) && s32(b) == s32(y));
    assert(u32_of(a) == u32_of(x) && u32_of(b) == u32_of(y));
    lemma_low_word(a, x);
    lemma_low_word(b, y);
    lemma_word_operands_agree(op, a, b, x, y);
}

proof fn lemma_word_operands_agree(op: AluOp, a: u64, b: u64, x: u64, y: u64)
    requires
        has_word_form(op),
        b % 32 == y % 32,
        wrap32(a + b) == wrap32(x + y),
        wrap32(a - b) == wrap32(x - y),
        wrap32(a * b) == wrap32(x * y),
        wrap32(a as int) == wrap32(x as int),
        s32(a) == s32(x) && s32(b) == s32(y),
        u32_of(a) == u32_of(x) && u32_of(b) == u32_of(y),
        x as u32 == a as u32,
        x as i32 == a as i32,
    ensures
        alu32_of(op, a, b) == alu32_of(op, x, y),
{
    reveal(alu32_of);
}

/// A W operation on words.
fn alu_words(op: AluOp, x: u32, y: u32) -> (r: u64)
    requires
        has_word_form(op),
    ensures
        r == alu32_of(op, x as u64, y as u64),
{
    proof {
        reveal(alu32_of);
    }
    match op {
        AluOp::Add => sext32(x.wrapping_add(y)),
        AluOp::Sub => sext32(x.wrapping_sub(y)),
        AluOp::Sll => sext32(x << (y % 32)),
        AluOp::Srl => sext32(x >> (y % 32)),
        AluOp::Sra => {
            let v: i32 = (x as i32) >> (y % 32);
            proof {
                lemma_word_shift(v);
                lemma_low_word(x as u64, x as u64);
            }
            sext32(v as u32)
        },
        AluOp::Mul => sext32((mul_wide(x as u64, y as u64) % 0x1_0000_0000u128) as u32),
        // Same div/rem edge semantics as the 64-bit forms, on 32-bit values.
        AluOp::Div => div32(x, y),
        AluOp::Divu => if y == 0 {
            u64::MAX
        } else {
            sext32(x / y)
        },
        AluOp::Rem => rem32(x, y),
        AluOp::Remu => if y == 0 {
            sext32(x)
        } else {
            sext32(x % y)
        },
        // No W form exists; decode never emits these here.
        _ => 0,
    }
}

#[inline]
pub fn alu32(op: AluOp, a: u64, b: u64) -> (r: u64)
    requires
        has_word_form(op),
    ensures
        r == alu32_of(op, a, b),
{
    proof {
        lemma_word_operands(op, a, b);
        lemma_signed_view(a);
        lemma_signed_view(b);
    }
    alu_words(op, a as u32, b as u32)
}

proof fn lemma_low_word(a: u64, x: u64)
    by (bit_vector)
    requires
        x == a % 0x1_0000_0000,
    ensures
        (a as u32) as i32 == a as i32,
        x as u32 == a as u32,
        x as i32 == a as i32,
{
}

/// The word an AMO stores, from the one it found and its operand, on
/// `width`-byte words.
#[verifier::opaque]
pub open spec fn amo_of(op: AmoOp, cur: u64, src: u64, width: int) -> u64 {
    let (x, y) = if width == 4 {
        (s32(cur), s32(src))
    } else {
        (s64(cur), s64(src))
    };
    match op {
        AmoOp::Swap => src,
        AmoOp::Add => if width == 4 {
            ((cur + src) % 0x1_0000_0000) as u64
        } else {
            wrap64(cur + src)
        },
        AmoOp::Xor => cur ^ src,
        AmoOp::And => cur & src,
        AmoOp::Or => cur | src,
        AmoOp::Min => if x <= y {
            cur
        } else {
            src
        },
        AmoOp::Max => if x > y {
            cur
        } else {
            src
        },
        AmoOp::Minu => if cur <= src {
            cur
        } else {
            src
        },
        AmoOp::Maxu => if cur > src {
            cur
        } else {
            src
        },
        // LR/SC are handled before the fetch-op path.
        AmoOp::Lr | AmoOp::Sc => cur,
    }
}

fn amo32(op: AmoOp, cur: u32, src: u32) -> (r: u32)
    requires
        op != AmoOp::Lr && op != AmoOp::Sc,
    ensures
        r == amo_of(op, cur as u64, src as u64, 4),
{
    proof {
        reveal(amo_of);
    }
    proof {
        lemma_word_view(cur);
        lemma_word_view(src);
    }
    match op {
        AmoOp::Swap => src,
        AmoOp::Add => cur.wrapping_add(src),
        AmoOp::Xor => cur ^ src,
        AmoOp::And => cur & src,
        AmoOp::Or => cur | src,
        AmoOp::Min => if (cur as i32) <= (src as i32) {
            cur
        } else {
            src
        },
        AmoOp::Max => if (cur as i32) > (src as i32) {
            cur
        } else {
            src
        },
        AmoOp::Minu => if cur <= src {
            cur
        } else {
            src
        },
        AmoOp::Maxu => if cur > src {
            cur
        } else {
            src
        },
        AmoOp::Lr | AmoOp::Sc => cur,
    }
}

fn amo64(op: AmoOp, cur: u64, src: u64) -> (r: u64)
    requires
        op != AmoOp::Lr && op != AmoOp::Sc,
    ensures
        r == amo_of(op, cur, src, 8),
{
    proof {
        reveal(amo_of);
    }
    proof {
        lemma_signed_view(cur);
        lemma_signed_view(src);
    }
    match op {
        AmoOp::Swap => src,
        AmoOp::Add => cur.wrapping_add(src),
        AmoOp::Xor => cur ^ src,
        AmoOp::And => cur & src,
        AmoOp::Or => cur | src,
        AmoOp::Min => if (cur as i64) <= (src as i64) {
            cur
        } else {
            src
        },
        AmoOp::Max => if (cur as i64) > (src as i64) {
            cur
        } else {
            src
        },
        AmoOp::Minu => if cur <= src {
            cur
        } else {
            src
        },
        AmoOp::Maxu => if cur > src {
            cur
        } else {
            src
        },
        AmoOp::Lr | AmoOp::Sc => cur,
    }
}

/// Whether a branch is taken.
pub open spec fn branches(op: BranchOp, a: u64, b: u64) -> bool {
    match op {
        BranchOp::Eq => a == b,
        BranchOp::Ne => a != b,
        BranchOp::Lt => s64(a) < s64(b),
        BranchOp::Ge => s64(a) >= s64(b),
        BranchOp::Ltu => a < b,
        BranchOp::Geu => a >= b,
    }
}

#[inline]
fn branch_taken(op: BranchOp, a: u64, b: u64) -> (r: bool)
    ensures
        r == branches(op, a, b),
{
    proof {
        lemma_signed_view(a);
        lemma_signed_view(b);
    }
    match op {
        BranchOp::Eq => a == b,
        BranchOp::Ne => a != b,
        BranchOp::Lt => (a as i64) < (b as i64),
        BranchOp::Ge => (a as i64) >= (b as i64),
        BranchOp::Ltu => a < b,
        BranchOp::Geu => a >= b,
    }
}

// ---------------------------------------------------------------------------
// What each instruction does to a hart. A refused or faulting instruction
// leaves its exception to the caller; what it changed before that stays.
// ---------------------------------------------------------------------------

/// The outcome of an instruction: no exit, an exit to the caller, or an
/// exception to take.
pub type Outcome = Result<Option<VmExit>, Exception>;

/// The hart after a successful instruction that falls through to `next`.
pub open spec fn done(h: Hart, next: u64) -> (Hart, Outcome) {
    (retired(h, next), Ok(None))
}

#[verifier::opaque]
pub open spec fn load_executed(
    h: Hart,
    va: u64,
    size: int,
    sign: bool,
    rd: u8,
    next: u64,
) -> (Hart, Outcome) {
    match primed_offset(h, h.load_pages, va, size) {
        Some(off) => done(
            with_x(
                h,
                rd,
                extended(le_value(h.ram.subrange(off, off + size)) as u64, size, sign),
            ),
            next,
        ),
        None => {
            let (h1, r) = loaded(h, va, size);
            match r {
                Err(e) => (h1, Err(e)),
                Ok(LoadResult::Ram(v)) => done(with_x(h1, rd, extended(v, size, sign)), next),
                // pc does not advance; complete_mmio_read() retires.
                Ok(LoadResult::Mmio(pa)) => (
                    Hart {
                        pending: Some(
                            PendingLoad { rd, size: size as u8, sign, freg: false, next_pc: next },
                        ),
                        ..h1
                    },
                    Ok(Some(VmExit::MmioRead { addr: pa, size: size as u8 })),
                ),
            }
        },
    }
}

/// The exit of a store that went to `pa` in RAM: one to exactly the registered
/// `tohost` address exits with the 64-bit word now there.
pub open spec fn tohost_exit(h: Hart, pa: u64) -> Option<VmExit> {
    if h.tohost == Some(pa) {
        Some(VmExit::Shutdown { code: ram_load(h.ram_base, h.ram, pa & !7, 8)->0 })
    } else {
        None
    }
}

/// A store. One to the registered `tohost` address exits with the word there.
#[verifier::opaque]
pub open spec fn store_executed(
    h0: Hart,
    va: u64,
    size: int,
    data: u64,
    next: u64,
) -> (Hart, Outcome) {
    // A store by this hart clears its own LR reservation.
    let h = Hart { reservation: None, ..h0 };
    match primed_offset(h, h.store_pages, va, size) {
        Some(off) => done(
            Hart { ram: splice(h.ram, off, le_bytes(data as nat, size as nat)), ..h },
            next,
        ),
        None => {
            let (h1, r) = stored(h, va, size, data);
            match r {
                Err(e) => (h1, Err(e)),
                Ok(StoreResult::Ram(pa)) => (
                    retired(h1, next),
                    Ok(tohost_exit(h1, pa)),
                ),
                Ok(StoreResult::Mmio(pa)) => (
                    retired(h1, next),
                    Ok(Some(VmExit::MmioWrite { addr: pa, size: size as u8, data })),
                ),
            }
        },
    }
}

pub open spec fn illegal<T>(raw: u32) -> Result<T, Exception> {
    Err(Exception::IllegalInstruction(raw as u64))
}

/// A CSR access. rs1/zimm == 0 of the set and clear forms means no write (and
/// no write side effects).
#[verifier::opaque]
pub open spec fn csr_executed(
    h: Hart,
    op: CsrOp,
    rd: u8,
    rs1: u8,
    csr: u16,
    imm: bool,
    raw: u32,
    next: u64,
    o: Observed,
) -> (Hart, Outcome) {
    let src = if imm {
        rs1 as u64
    } else {
        h.x[rs1 as int]
    };
    match csr_value(h, csr, o) {
        None => (h, illegal(raw)),
        Some(before) => {
            let val = match op {
                CsrOp::Rw => src,
                CsrOp::Rs => before | src,
                CsrOp::Rc => before & !src,
            };
            if op != CsrOp::Rw && rs1 == 0 {
                done(with_x(h, rd, before), next)
            } else {
                match csr_written(h, csr, val) {
                    None => (h, illegal(raw)),
                    Some(h1) => done(with_x(h1, rd, before), next),
                }
            }
        },
    }
}

/// LR/SC/AMO. All translate like ordinary accesses; misaligned addresses and
/// MMIO targets raise exceptions (atomics never exit to the bus). LR faults
/// as a load, SC/AMO as stores, and one that writes to the registered `tohost`
/// address exits as a store does.
#[verifier::opaque]
pub open spec fn amo_executed(h: Hart, op: AmoOp, rd: u8, rs1: u8, rs2: u8, width: u8) -> (
    Hart,
    Outcome,
) {
    let va = h.x[rs1 as int];
    let src = extended(h.x[rs2 as int], width as int, false);
    let is_lr = op == AmoOp::Lr;
    let access = if is_lr {
        Access::Read
    } else {
        Access::Write
    };
    if va as int % width as int != 0 {
        (
            h,
            Err(
                if is_lr {
                    Exception::LoadAddrMisaligned(va)
                } else {
                    Exception::StoreAddrMisaligned(va)
                },
            ),
        )
    } else {
        let (h1, r) = translated(h, va, access, data_priv_of(h), width as u64);
        match r {
            Err(e) => (h1, Err(e)),
            Ok(pa) => match ram_load(h1.ram_base, h1.ram, pa, width as int) {
                None => (
                    h1,
                    Err(
                        if is_lr {
                            Exception::LoadAccessFault(va)
                        } else {
                            Exception::StoreAccessFault(va)
                        },
                    ),
                ),
                Some(cur) => if is_lr {
                    (
                        with_x(
                            Hart {
                                reservation: Some(Reservation { addr: pa, width, val: cur }),
                                ..h1
                            },
                            rd,
                            extended(cur, width as int, true),
                        ),
                        Ok(None),
                    )
                } else {
                    // SC always consumes the reservation and only stores when
                    // the reserved word still holds the value LR observed.
                    let stores = op != AmoOp::Sc || (h1.reservation matches Some(r) && r.addr == pa
                        && r.width == width && cur == extended(r.val, width as int, false));
                    let new = if op == AmoOp::Sc {
                        src
                    } else {
                        amo_of(op, cur, src, width as int)
                    };
                    let h2 = Hart {
                        reservation: None,
                        ram: if stores {
                            crate::mem::ram_store(h1.ram_base, h1.ram, pa, width as int, new as nat)
                        } else {
                            h1.ram
                        },
                        ..h1
                    };
                    let out = if op == AmoOp::Sc {
                        if stores {
                            0
                        } else {
                            1
                        }
                    } else {
                        // `.w` forms sign-extend the loaded value into rd.
                        extended(cur, width as int, true)
                    };
                    (
                        with_x(h2, rd, out),
                        Ok(
                            if stores {
                                tohost_exit(h2, pa)
                            } else {
                                None
                            },
                        ),
                    )
                },
            },
        }
    }
}

/// Whether an S-mode instruction is trapped by the mstatus bit `trap`; U-mode
/// may never execute it.
pub open spec fn s_instr_refused(h: Hart, trap: u64) -> bool {
    h.prv == PrivMode::U || (h.prv == PrivMode::S && h.csrs.mstatus & trap != 0)
}

/// The instructions that compute, jump or branch.
pub open spec fn is_int(instr: Instr) -> bool {
    match instr {
        Instr::Lui { .. } | Instr::Auipc { .. } | Instr::Jal { .. } | Instr::Jalr { .. } => true,
        Instr::Branch { .. } | Instr::Fence | Instr::FenceI => true,
        Instr::OpImm { .. } | Instr::OpImm32 { .. } | Instr::Op { .. } | Instr::Op32 { .. } => true,
        _ => false,
    }
}

/// What an instruction that computes, jumps or branches does, and the pc that
/// it retires to.
#[verifier::opaque]
pub open spec fn int_executed(h: Hart, instr: Instr, pc: u64, next: u64) -> (Hart, u64) {
    match instr {
        Instr::Lui { rd, imm } => (with_x(h, rd, imm as u64), next),
        Instr::Auipc { rd, imm } => (with_x(h, rd, pc.wrapping_add(imm as u64)), next),
        Instr::Jal { rd, imm } => (with_x(h, rd, next), pc.wrapping_add(imm as u64)),
        Instr::Jalr { rd, rs1, imm } => (
            with_x(h, rd, next),
            h.x[rs1 as int].wrapping_add(imm as u64) & !1,
        ),
        Instr::Branch { op, rs1, rs2, imm } => (
            h,
            if branches(op, h.x[rs1 as int], h.x[rs2 as int]) {
                pc.wrapping_add(imm as u64)
            } else {
                next
            },
        ),
        Instr::OpImm { op, rd, rs1, imm } => (
            with_x(h, rd, alu_of(op, h.x[rs1 as int], imm as u64)),
            next,
        ),
        Instr::OpImm32 { op, rd, rs1, imm } => (
            with_x(h, rd, alu32_of(op, h.x[rs1 as int], imm as u64)),
            next,
        ),
        Instr::Op { op, rd, rs1, rs2 } => (
            with_x(h, rd, alu_of(op, h.x[rs1 as int], h.x[rs2 as int])),
            next,
        ),
        Instr::Op32 { op, rd, rs1, rs2 } => (
            with_x(h, rd, alu32_of(op, h.x[rs1 as int], h.x[rs2 as int])),
            next,
        ),
        // No caches to synchronize: fences are no-ops and every fetch reads
        // RAM directly, which also satisfies fence.i.
        _ => (h, next),
    }
}

/// Environment calls, breakpoints and the privileged instructions.
pub open spec fn is_system(instr: Instr) -> bool {
    match instr {
        Instr::Ecall | Instr::Ebreak | Instr::Mret | Instr::Sret | Instr::Wfi => true,
        Instr::SfenceVma => true,
        _ => false,
    }
}

/// What an environment call, a breakpoint or a privileged instruction does.
#[verifier::opaque]
pub open spec fn system_executed(
    h: Hart,
    instr: Instr,
    raw: u32,
    pc: u64,
    next: u64,
    o: Observed,
) -> (Hart, Outcome) {
    match instr {
        Instr::Ecall => if h.prv == PrivMode::S && h.sbi_mode {
            (retired(h, next), Ok(Some(VmExit::Ecall { from: PrivMode::S })))
        } else {
            (h, Err(Exception::ecall(h.prv)))
        },
        Instr::Ebreak => (h, Err(Exception::Breakpoint(pc))),
        Instr::Mret => if h.prv != PrivMode::M {
            (h, illegal(raw))
        } else {
            done(after_mret(h), h.csrs.mepc)
        },
        Instr::Sret => if s_instr_refused(h, MSTATUS_TSR) {
            (h, illegal(raw))
        } else {
            done(after_sret(h), h.csrs.sepc)
        },
        Instr::Wfi => if s_instr_refused(h, MSTATUS_TW) {
            (h, illegal(raw))
        } else if (h.csrs.mip | o.lines) & h.csrs.mie == 0 {
            // Wake condition ignores the global xIE bits per spec.
            (retired(h, next), Ok(Some(VmExit::Wfi)))
        } else {
            done(h, next)
        },
        _ => if s_instr_refused(h, MSTATUS_TVM) {
            (h, illegal(raw))
        } else {
            // Full flush regardless of the rs1/rs2 (vaddr/ASID) hints.
            done(flushed(h), next)
        },
    }
}

/// What executing `instr`, fetched as `raw` of `len` bytes at `pc`, does.
pub open spec fn executed(
    h: Hart,
    instr: Instr,
    raw: u32,
    pc: u64,
    len: u64,
    o: Observed,
) -> (Hart, Outcome) {
    let next = pc.wrapping_add(len);
    match instr {
        Instr::Load { op, rd, rs1, imm } => load_executed(
            h,
            h.x[rs1 as int].wrapping_add(imm as u64),
            op.size_of(),
            op.is_signed(),
            rd,
            next,
        ),
        Instr::Store { op, rs1, rs2, imm } => store_executed(
            h,
            h.x[rs1 as int].wrapping_add(imm as u64),
            op.size_of(),
            extended(h.x[rs2 as int], op.size_of(), false),
            next,
        ),
        Instr::Csr { op, rd, rs1, csr, imm } => csr_executed(
            h,
            op,
            rd,
            rs1,
            csr,
            imm,
            raw,
            next,
            o,
        ),
        Instr::Amo { op, rd, rs1, rs2, width, .. } => {
            let (h1, r) = amo_executed(h, op, rd, rs1, rs2, width);
            match r {
                Ok(exit) => (retired(h1, next), Ok(exit)),
                Err(e) => (h1, Err(e)),
            }
        },
        Instr::Fp { raw: fp_raw } => {
            let (h1, r) = fp_executed(h, fp_raw, next);
            match r {
                Err(e) => (h1, Err(e)),
                // MMIO read: pc retires in complete_mmio_read().
                Ok((exit, true)) => (h1, Ok(exit)),
                Ok((exit, false)) => (retired(h1, next), Ok(exit)),
            }
        },
        Instr::Illegal(bits) => (h, illegal(bits)),
        _ => if is_system(instr) {
            system_executed(h, instr, raw, pc, next, o)
        } else {
            let (h1, to) = int_executed(h, instr, pc, next);
            done(h1, to)
        },
    }
}

/// Only the run loop itself ends a run by a kick or by the budget: no
/// instruction does.
pub proof fn instructions_leave_the_loop_to_itself(
    h: Hart,
    instr: Instr,
    raw: u32,
    pc: u64,
    len: u64,
    o: Observed,
)
    ensures
        executed(h, instr, raw, pc, len, o).1 matches Ok(Some(exit)) ==> exit != VmExit::InstrLimit
            && exit != VmExit::Interrupted,
{
    let next = pc.wrapping_add(len);
    match instr {
        Instr::Load { .. } => {
            reveal(load_executed);
        },
        Instr::Store { .. } => {
            reveal(store_executed);
        },
        Instr::Csr { .. } => {
            reveal(csr_executed);
        },
        Instr::Amo { .. } => {
            reveal(amo_executed);
        },
        Instr::Fp { .. } => {
            reveal(fp_executed);
            reveal(crate::fpu::fp_loaded);
            reveal(crate::fpu::fp_stored);
        },
        _ => {
            reveal(system_executed);
        },
    }
}

impl Cpu {
    /// Retire the current instruction to `next`.
    #[inline]
    pub(crate) fn retire(&mut self, next: u64)
        requires
            old(self).wf(),
        ensures
            final(self).wf(),
            final(self)@ == retired(old(self)@, next),
    {
        self.pc = next;
        self.instret = self.instret.wrapping_add(1);
    }

    fn exec_load(&mut self, va: u64, size: usize, sign: bool, rd: u8, next: u64) -> (r: Outcome)
        requires
            old(self).wf(),
            rd < 32,
            size == 1 || size == 2 || size == 4 || size == 8,
        ensures
            final(self).wf(),
            (final(self)@, r) == load_executed(old(self)@, va, size as int, sign, rd, next),
    {
        proof {
            reveal(load_executed);
        }
        if let Some(off) = self.fast_load_off(va, size) {
            let v: u64 = self.ram.load_at(off, size);
            self.set_x(rd, extend(v, size, sign));
            self.retire(next);
            return Ok(None);
        }
        match self.load_vaddr(va, size) {
            Ok(LoadResult::Ram(v)) => {
                self.set_x(rd, extend(v, size, sign));
                self.retire(next);
                Ok(None)
            },
            Ok(LoadResult::Mmio(pa)) => {
                // pc does not advance; complete_mmio_read() retires.
                self.pending_load = Some(
                    PendingLoad { rd, size: size as u8, sign, freg: false, next_pc: next },
                );
                Ok(Some(VmExit::MmioRead { addr: pa, size: size as u8 }))
            },
            Err(e) => Err(e),
        }
    }

    /// The exit of a store that went to `pa` in RAM.
    pub(crate) fn tohost_exit_for(&self, pa: u64) -> (r: Option<VmExit>)
        requires
            self.wf(),
            ram_offset(self@.ram_base, self@.ram.len(), pa, 1) is Some,
        ensures
            r == tohost_exit(self@, pa),
    {
        if let Some(t) = self.tohost_addr() {
            if t == pa {
                if let Some(code) = self.ram.load(pa & !7, 8) {
                    return Some(VmExit::Shutdown { code });
                }
            }
        }
        None
    }

    fn exec_store(&mut self, va: u64, size: usize, data: u64, next: u64) -> (r: Outcome)
        requires
            old(self).wf(),
            size == 1 || size == 2 || size == 4 || size == 8,
        ensures
            final(self).wf(),
            (final(self)@, r) == store_executed(old(self)@, va, size as int, data, next),
    {
        proof {
            reveal(store_executed);
        }
        // A store by this hart clears its own LR reservation.
        self.reservation = None;
        if let Some(off) = self.fast_store_off(va, size) {
            self.ram.store_at(off, size, data);
            self.retire(next);
            return Ok(None);
        }
        let ghost before = self@;
        match self.store_vaddr(va, size, data) {
            Ok(StoreResult::Ram(pa)) => {
                proof {
                    crate::mmu::stored_in_ram(before, va, size as int, data);
                }
                let exit = self.tohost_exit_for(pa);
                self.retire(next);
                Ok(exit)
            },
            Ok(StoreResult::Mmio(pa)) => {
                self.retire(next);
                Ok(Some(VmExit::MmioWrite { addr: pa, size: size as u8, data }))
            },
            Err(e) => Err(e),
        }
    }

    fn exec_csr(
        &mut self,
        op: CsrOp,
        rd: u8,
        rs1: u8,
        csr: u16,
        imm: bool,
        raw: u32,
        next: u64,
        o: Observed,
    ) -> (r: Outcome)
        requires
            old(self).wf(),
            rd < 32,
            rs1 < 32,
        ensures
            final(self).wf(),
            (final(self)@, r) == csr_executed(old(self)@, op, rd, rs1, csr, imm, raw, next, o),
    {
        proof {
            reveal(csr_executed);
        }
        let src: u64 = if imm {
            rs1 as u64
        } else {
            self.xregs[rs1 as usize]
        };
        let old_val: u64 = match self.csr_read_observed(csr, o) {
            Ok(v) => v,
            Err(_) => return Err(Exception::IllegalInstruction(raw as u64)),
        };
        let val: u64 = match op {
            CsrOp::Rw => src,
            CsrOp::Rs => old_val | src,
            CsrOp::Rc => old_val & !src,
        };
        // rs1/zimm == 0 means no write (and no write side effects).
        if op == CsrOp::Rw || rs1 != 0 {
            if self.csr_write(csr, val).is_err() {
                return Err(Exception::IllegalInstruction(raw as u64));
            }
        }
        self.set_x(rd, old_val);
        self.retire(next);
        Ok(None)
    }

    /// LR/SC/AMO. All go through `translate` like ordinary accesses;
    /// misaligned addresses and MMIO targets raise exceptions (atomics
    /// never exit to the bus). LR faults as a load, SC/AMO as stores.
    fn exec_amo(&mut self, op: AmoOp, rd: u8, rs1: u8, rs2: u8, width: u8) -> (r: Outcome)
        requires
            old(self).wf(),
            rd < 32,
            rs1 < 32,
            rs2 < 32,
            width == 4 || width == 8,
        ensures
            final(self).wf(),
            (final(self)@, r) == amo_executed(old(self)@, op, rd, rs1, rs2, width),
    {
        proof {
            reveal(amo_executed);
        }
        let va: u64 = self.xregs[rs1 as usize];
        let src: u64 = extend(self.xregs[rs2 as usize], width as usize, false);
        let is_lr: bool = op == AmoOp::Lr;
        if va % (width as u64) != 0 {
            return Err(
                if is_lr {
                    Exception::LoadAddrMisaligned(va)
                } else {
                    Exception::StoreAddrMisaligned(va)
                },
            );
        }
        let access = if is_lr {
            Access::Read
        } else {
            Access::Write
        };
        let prv = self.data_priv();
        let pa: u64 = match self.translate(va, access, prv, width as u64) {
            Ok(pa) => pa,
            Err(e) => return Err(e),
        };
        let cur: u64 = match self.ram.load(pa, width as usize) {
            Some(v) => v,
            None => return Err(
                if is_lr {
                    Exception::LoadAccessFault(va)
                } else {
                    Exception::StoreAccessFault(va)
                },
            ),
        };
        if is_lr {
            self.reservation = Some(Reservation { addr: pa, width, val: cur });
            self.set_x(rd, extend(cur, width as usize, true));
            return Ok(None);
        }
        let reservation = self.reservation.take();
        if op == AmoOp::Sc {
            // SC always consumes the reservation and only stores when the
            // reserved word still holds the value LR observed (see the ABA
            // note on `Reservation`).
            let ok: bool = match reservation {
                Some(r) => r.addr == pa && r.width == width && cur == extend(
                    r.val,
                    width as usize,
                    false,
                ),
                None => false,
            };
            if ok {
                let _ = self.ram.store(pa, width as usize, src);
            }
            self.set_x(
                rd,
                if ok {
                    0
                } else {
                    1
                },
            );
            return Ok(
                if ok {
                    self.tohost_exit_for(pa)
                } else {
                    None
                },
            );
        }
        // Fetch-op AMOs are stores: they clear this hart's own reservation
        // like any other store.

        proof {
            crate::mem::load_is_narrow(self@.ram_base, self@.ram, pa, width as int);
        }
        let new: u64 = if width == 4 {
            amo32(op, cur as u32, src as u32) as u64
        } else {
            amo64(op, cur, src)
        };
        let _ = self.ram.store(pa, width as usize, new);
        self.set_x(rd, extend(cur, width as usize, true));
        Ok(self.tohost_exit_for(pa))
    }

    /// Execute an instruction that computes, jumps or branches; returns the
    /// pc that it retires to.
    fn exec_int(&mut self, instr: Instr, pc: u64, next: u64) -> (r: u64)
        requires
            old(self).wf(),
            instr.valid(),
            is_int(instr),
        ensures
            final(self).wf(),
            int_executed(old(self)@, instr, pc, next) == (final(self)@, r),
    {
        proof {
            reveal(int_executed);
        }
        match instr {
            Instr::Lui { rd, imm } => {
                self.set_x(rd, imm as u64);
                next
            },
            Instr::Auipc { rd, imm } => {
                self.set_x(rd, pc.wrapping_add(imm as u64));
                next
            },
            Instr::Jal { rd, imm } => {
                self.set_x(rd, next);
                pc.wrapping_add(imm as u64)
            },
            Instr::Jalr { rd, rs1, imm } => {
                let target: u64 = self.xregs[rs1 as usize].wrapping_add(imm as u64) & !1;
                self.set_x(rd, next);
                target
            },
            Instr::Branch { op, rs1, rs2, imm } => {
                if branch_taken(op, self.xregs[rs1 as usize], self.xregs[rs2 as usize]) {
                    pc.wrapping_add(imm as u64)
                } else {
                    next
                }
            },
            Instr::OpImm { op, rd, rs1, imm } => {
                let v: u64 = alu(op, self.xregs[rs1 as usize], imm as u64);
                self.set_x(rd, v);
                next
            },
            Instr::OpImm32 { op, rd, rs1, imm } => {
                let v: u64 = alu32(op, self.xregs[rs1 as usize], imm as u64);
                self.set_x(rd, v);
                next
            },
            Instr::Op { op, rd, rs1, rs2 } => {
                let v: u64 = alu(op, self.xregs[rs1 as usize], self.xregs[rs2 as usize]);
                self.set_x(rd, v);
                next
            },
            Instr::Op32 { op, rd, rs1, rs2 } => {
                let v: u64 = alu32(op, self.xregs[rs1 as usize], self.xregs[rs2 as usize]);
                self.set_x(rd, v);
                next
            },
            // No caches to synchronize: fences are no-ops and every fetch
            // reads RAM directly, which also satisfies fence.i.
            _ => next,
        }
    }

    /// Execute an environment call, a breakpoint or a privileged instruction.
    fn exec_system(&mut self, instr: Instr, raw: u32, pc: u64, next: u64, o: Observed) -> (r:
        Outcome)
        requires
            old(self).wf(),
            is_system(instr),
        ensures
            final(self).wf(),
            (final(self)@, r) == system_executed(old(self)@, instr, raw, pc, next, o),
    {
        proof {
            reveal(system_executed);
        }
        let ill = Exception::IllegalInstruction(raw as u64);
        let mut to: u64 = next;
        match instr {
            Instr::Ecall => {
                if self.priv_mode == PrivMode::S && self.sbi_mode {
                    self.retire(next);
                    return Ok(Some(VmExit::Ecall { from: PrivMode::S }));
                }
                return Err(Exception::ecall_from(self.priv_mode));
            },
            Instr::Ebreak => return Err(Exception::Breakpoint(pc)),
            Instr::Mret => {
                if self.priv_mode != PrivMode::M {
                    return Err(ill);
                }
                to = self.do_mret();
            },
            Instr::Sret => {
                if self.s_instr_traps(MSTATUS_TSR) {
                    return Err(ill);
                }
                to = self.do_sret();
            },
            Instr::Wfi => {
                if self.s_instr_traps(MSTATUS_TW) {
                    return Err(ill);
                }
                // Wake condition ignores the global xIE bits per spec.
                if (self.csrs.mip | o.lines) & self.csrs.mie == 0 {
                    self.retire(next);
                    return Ok(Some(VmExit::Wfi));
                }
            },
            _ => {
                if self.s_instr_traps(MSTATUS_TVM) {
                    return Err(ill);
                }
                // Full flush regardless of the rs1/rs2 (vaddr/ASID) hints.
                self.flush_tlb();
            },
        }
        self.retire(to);
        Ok(None)
    }

    /// Execute one instruction, given what the interrupt lines and the shared
    /// timebase held.
    pub fn execute(
        &mut self,
        instr: Instr,
        raw: u32,
        pc: u64,
        len: u64,
        o: Observed,
    ) -> (r: Outcome)
        requires
            old(self).wf(),
            instr.valid(),
        ensures
            final(self).wf(),
            (final(self)@, r) == executed(old(self)@, instr, raw, pc, len, o),
    {
        let next: u64 = pc.wrapping_add(len);
        match instr {
            Instr::Load { op, rd, rs1, imm } => {
                let va: u64 = self.xregs[rs1 as usize].wrapping_add(imm as u64);
                self.exec_load(va, op.size(), op.signed(), rd, next)
            },
            Instr::Store { op, rs1, rs2, imm } => {
                let va: u64 = self.xregs[rs1 as usize].wrapping_add(imm as u64);
                let data: u64 = extend(self.xregs[rs2 as usize], op.size(), false);
                self.exec_store(va, op.size(), data, next)
            },
            Instr::Ecall | Instr::Ebreak | Instr::Mret => self.exec_system(instr, raw, pc, next, o),
            Instr::Sret | Instr::Wfi | Instr::SfenceVma => self.exec_system(
                instr,
                raw,
                pc,
                next,
                o,
            ),
            Instr::Csr { op, rd, rs1, csr, imm } => self.exec_csr(
                op,
                rd,
                rs1,
                csr,
                imm,
                raw,
                next,
                o,
            ),
            Instr::Amo { op, rd, rs1, rs2, width, .. } => match self.exec_amo(
                op,
                rd,
                rs1,
                rs2,
                width,
            ) {
                Ok(exit) => {
                    self.retire(next);
                    Ok(exit)
                },
                Err(e) => Err(e),
            },
            Instr::Fp { raw: fp_raw } => match self.exec_fp(fp_raw, next) {
                Ok((exit, holds_pc)) => {
                    // MMIO read: pc retires in complete_mmio_read().
                    if !holds_pc {
                        self.retire(next);
                    }
                    Ok(exit)
                },
                Err(e) => Err(e),
            },
            Instr::Illegal(bits) => Err(Exception::IllegalInstruction(bits as u64)),
            _ => {
                let to: u64 = self.exec_int(instr, pc, next);
                self.retire(to);
                Ok(None)
            },
        }
    }

    fn s_instr_traps(&self, trap: u64) -> (r: bool)
        ensures
            r == s_instr_refused(self@, trap),
    {
        match self.priv_mode {
            PrivMode::U => true,
            PrivMode::S => self.csrs.mstatus & trap != 0,
            PrivMode::M => false,
        }
    }
}

} // verus!
