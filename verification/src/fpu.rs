//! F and D extensions.
//!
//! Values and exception flags come from exact integer arithmetic on the bit
//! patterns. Conversions honor all five rounding modes, sums, products and
//! quotients the directed ones as well; square roots and fused multiply-adds
//! round to nearest.

use vstd::prelude::*;

use crate::cpu::{boxed, extended, with_x, Cpu, Hart, PendingLoad};
use crate::csr::{fs_dirtied, fs_on, Csrs};
use crate::decode::{
    funct3, funct3_of, funct5, funct5_of, funct7, funct7_of, imm_i, imm_i_of, imm_s, imm_s_of,
    opcode, opcode_of, rd, rd_of, rs1, rs1_of, rs2, rs2_of,
};
use crate::exec::{s32, s64, tohost_exit, u32_of, wrap32, wrap64};
use crate::mmu::{loaded, stored, LoadResult, StoreResult};
use crate::softfloat::{
    add_finite, div_finite, fma_finite, from_int_of, fused_of, int_to_float, integer_of,
    mul_finite, narrow_finite, narrowed, product_of, quotient_of, root_mag, round_int, signed,
    sqrt_finite, sum_of, widen_finite, widened, with_sign,
};
pub use crate::softfloat::{Fmt, Op2, Rm, DZ, NV, NX, OF, UF};
use crate::trap::Exception;
use crate::VmExit;

verus! {

/// The canonical single-precision NaN.
pub const QNAN32: u32 = 0x7fc0_0000;

/// The canonical double-precision NaN.
pub const QNAN64: u64 = 0x7ff8_0000_0000_0000;

/// The canonical NaN of a format.
pub open spec fn quiet(f: Fmt) -> nat {
    match f {
        Fmt::Single => QNAN32 as nat,
        Fmt::Double => QNAN64 as nat,
    }
}

fn quiet_bits(f: Fmt) -> (r: u64)
    ensures
        r == quiet(f),
{
    match f {
        Fmt::Single => QNAN32 as u64,
        Fmt::Double => QNAN64,
    }
}

/// Whether the pattern is one of the format.
pub open spec fn of_format(f: Fmt, bits: u64) -> bool {
    bits < 2 * f.sign()
}

/// Whether the sign bit is set.
pub open spec fn neg_of(f: Fmt, bits: u64) -> bool {
    bits >= f.sign()
}

/// The pattern without its sign bit.
pub open spec fn mag_of(f: Fmt, bits: u64) -> nat {
    if neg_of(f, bits) {
        (bits - f.sign()) as nat
    } else {
        bits as nat
    }
}

pub open spec fn is_nan(f: Fmt, bits: u64) -> bool {
    mag_of(f, bits) > f.inf()
}

/// A NaN whose top significand bit is clear.
pub open spec fn is_snan(f: Fmt, bits: u64) -> bool {
    f.inf() < mag_of(f, bits) < f.inf() + f.min_normal() / 2
}

/// NV where an operand is a signalling NaN.
pub open spec fn snan_flag(snan: bool) -> u32 {
    if snan {
        NV
    } else {
        0
    }
}

/// Sign and magnitude of a pattern.
fn parts(f: Fmt, bits: u64) -> (r: (bool, u64))
    ensures
        r.0 == neg_of(f, bits),
        r.1 == mag_of(f, bits),
{
    if bits >= f.sign_bit() {
        (true, bits - f.sign_bit())
    } else {
        (false, bits)
    }
}

fn snan(f: Fmt, bits: u64) -> (r: bool)
    ensures
        r == is_snan(f, bits),
{
    let (_, m) = parts(f, bits);
    m > f.inf_bits() && m < f.inf_bits() + f.min_normal_bits() / 2
}

fn signed_inf(f: Fmt, neg: bool) -> (r: u64)
    ensures
        r == with_sign(f, neg, f.inf()),
{
    if neg {
        f.inf_bits() + f.sign_bit()
    } else {
        f.inf_bits()
    }
}

fn signed_zero(f: Fmt, neg: bool) -> (r: u64)
    ensures
        r == with_sign(f, neg, 0),
{
    if neg {
        f.sign_bit()
    } else {
        0
    }
}

fn invalid(snan: bool) -> (r: u32)
    ensures
        r == snan_flag(snan),
{
    if snan {
        NV
    } else {
        0
    }
}

// ---------------------------------------------------------------------------
// NaN boxing.
// ---------------------------------------------------------------------------

/// The single-precision value in an f-register; one that is not NaN-boxed
/// reads as the canonical NaN.
pub open spec fn unboxed(v: u64) -> u32 {
    if v >= 0xffff_ffff_0000_0000 {
        (v - 0xffff_ffff_0000_0000) as u32
    } else {
        QNAN32
    }
}

pub(crate) proof fn lemma_box(v: u64)
    by (bit_vector)
    ensures
        0xffff_ffff_0000_0000 | (v & 0xffff_ffff) == 0xffff_ffff_0000_0000 + v % 0x1_0000_0000,
        v >> 32 == v / 0x1_0000_0000,
        v & 0xffff_ffff == v % 0x1_0000_0000,
        v as u32 == v % 0x1_0000_0000,
        (v >> 5) & 7 == (v / 0x20) % 8,
{
}

pub fn unbox32(v: u64) -> (r: u32)
    ensures
        r == unboxed(v),
{
    proof {
        lemma_box(v);
    }
    if v >> 32 == 0xffff_ffff {
        v as u32
    } else {
        QNAN32
    }
}

pub fn box32(v: u32) -> (r: u64)
    ensures
        r == boxed(v as u64),
{
    proof {
        lemma_box(v as u64);
    }
    0xffff_ffff_0000_0000 | (v as u64 & 0xffff_ffff)
}

/// Unboxing gives back what boxing took.
pub proof fn unboxed_of_boxed(v: u32)
    ensures
        unboxed(boxed(v as u64)) == v,
{
    lemma_box(v as u64);
}

pub fn is_snan32(bits: u32) -> (r: bool)
    ensures
        r == is_snan(Fmt::Single, bits as u64),
{
    snan(Fmt::Single, bits as u64)
}

pub fn is_snan64(bits: u64) -> (r: bool)
    ensures
        r == is_snan(Fmt::Double, bits),
{
    snan(Fmt::Double, bits)
}

// ---------------------------------------------------------------------------
// Arithmetic.
// ---------------------------------------------------------------------------

/// The bits and flags of a sum, difference, product or quotient.
pub open spec fn op2_of(f: Fmt, a: u64, b: u64, op: Op2, rm: Rm) -> (nat, u32) {
    let (na, ma) = (neg_of(f, a), mag_of(f, a));
    let (nb, mb) = (neg_of(f, b) != (op == Op2::Sub), mag_of(f, b));
    let (inf, neg) = (f.inf(), na != nb);
    if ma > inf || mb > inf {
        (quiet(f), snan_flag(is_snan(f, a) || is_snan(f, b)))
    } else {
        match op {
            Op2::Add | Op2::Sub => if ma == inf && mb == inf && neg {
                (quiet(f), NV)
            } else if ma == inf {
                (with_sign(f, na, inf), 0)
            } else if mb == inf {
                (with_sign(f, nb, inf), 0)
            } else {
                sum_of(f, op, na, ma, nb, mb, rm)
            },
            Op2::Mul => if (ma == 0 && mb == inf) || (ma == inf && mb == 0) {
                (quiet(f), NV)
            } else if ma == inf || mb == inf {
                (with_sign(f, neg, inf), 0)
            } else {
                product_of(f, na, ma, nb, mb, rm)
            },
            Op2::Div => if (ma == 0 && mb == 0) || (ma == inf && mb == inf) {
                (quiet(f), NV)
            } else if ma == inf {
                (with_sign(f, neg, inf), 0)
            } else if mb == inf {
                (with_sign(f, neg, 0), 0)
            } else if mb == 0 {
                // A finite nonzero value over zero: exact infinity, DZ only.
                (with_sign(f, neg, inf), DZ)
            } else {
                quotient_of(f, na, ma, nb, mb, rm)
            },
        }
    }
}

fn op2(f: Fmt, a: u64, b: u64, op: Op2, rm: Rm) -> (r: (u64, u32))
    requires
        of_format(f, a),
        of_format(f, b),
    ensures
        (r.0 as nat, r.1) == op2_of(f, a, b, op, rm),
        of_format(f, r.0),
{
    let (na, ma): (bool, u64) = parts(f, a);
    let (nb0, mb): (bool, u64) = parts(f, b);
    let nb: bool = nb0 != (op == Op2::Sub);
    let inf: u64 = f.inf_bits();
    let neg: bool = na != nb;
    if ma > inf || mb > inf {
        return (quiet_bits(f), invalid(snan(f, a) || snan(f, b)));
    }
    match op {
        Op2::Add | Op2::Sub => if ma == inf && mb == inf && neg {
            (quiet_bits(f), NV)
        } else if ma == inf {
            (signed_inf(f, na), 0)
        } else if mb == inf {
            (signed_inf(f, nb), 0)
        } else {
            add_finite(f, op, na, ma, nb, mb, rm)
        },
        Op2::Mul => if (ma == 0 && mb == inf) || (ma == inf && mb == 0) {
            (quiet_bits(f), NV)
        } else if ma == inf || mb == inf {
            (signed_inf(f, neg), 0)
        } else {
            mul_finite(f, na, ma, nb, mb, rm)
        },
        Op2::Div => if (ma == 0 && mb == 0) || (ma == inf && mb == inf) {
            (quiet_bits(f), NV)
        } else if ma == inf {
            (signed_inf(f, neg), 0)
        } else if mb == inf {
            (signed_zero(f, neg), 0)
        } else if mb == 0 {
            (signed_inf(f, neg), DZ)
        } else {
            div_finite(f, na, ma, nb, mb, rm)
        },
    }
}

/// f32 binary op: result bits and exception flags.
pub fn f32_op2(a: u32, b: u32, op: Op2, rm: Rm) -> (r: (u32, u32))
    ensures
        (r.0 as nat, r.1) == op2_of(Fmt::Single, a as u64, b as u64, op, rm),
{
    let (bits, fl): (u64, u32) = op2(Fmt::Single, a as u64, b as u64, op, rm);
    (bits as u32, fl)
}

/// f64 binary op: result bits and exception flags.
pub fn f64_op2(a: u64, b: u64, op: Op2, rm: Rm) -> (r: (u64, u32))
    ensures
        (r.0 as nat, r.1) == op2_of(Fmt::Double, a, b, op, rm),
{
    op2(Fmt::Double, a, b, op, rm)
}

/// The bits and flags of a square root. Negative values other than zero have
/// none; zeros and infinity are their own.
pub open spec fn sqrt_of(f: Fmt, a: u64) -> (nat, u32) {
    let m = mag_of(f, a);
    if m > f.inf() {
        (quiet(f), snan_flag(is_snan(f, a)))
    } else if m == 0 {
        (a as nat, 0)
    } else if neg_of(f, a) {
        (quiet(f), NV)
    } else if m == f.inf() {
        (a as nat, 0)
    } else {
        let (r, nx) = root_mag(f, m);
        (
            r,
            if nx {
                NX
            } else {
                0
            },
        )
    }
}

fn sqrt(f: Fmt, a: u64) -> (r: (u64, u32))
    requires
        of_format(f, a),
    ensures
        (r.0 as nat, r.1) == sqrt_of(f, a),
        of_format(f, r.0),
{
    let (neg, m): (bool, u64) = parts(f, a);
    if m > f.inf_bits() {
        (quiet_bits(f), invalid(snan(f, a)))
    } else if m == 0 {
        (a, 0)
    } else if neg {
        (quiet_bits(f), NV)
    } else if m == f.inf_bits() {
        (a, 0)
    } else {
        let (r, nx): (u64, bool) = sqrt_finite(f, m);
        (
            r,
            if nx {
                NX
            } else {
                0
            },
        )
    }
}

pub fn f32_sqrt(a: u32) -> (r: (u32, u32))
    ensures
        (r.0 as nat, r.1) == sqrt_of(Fmt::Single, a as u64),
{
    let (bits, fl): (u64, u32) = sqrt(Fmt::Single, a as u64);
    (bits as u32, fl)
}

pub fn f64_sqrt(a: u64) -> (r: (u64, u32))
    ensures
        (r.0 as nat, r.1) == sqrt_of(Fmt::Double, a),
{
    sqrt(Fmt::Double, a)
}

/// The bits and flags of a fused multiply-add, `a * b + c`, with the product
/// or the addend negated on request.
pub open spec fn fma_of(f: Fmt, a: u64, b: u64, c: u64, neg_prod: bool, neg_add: bool) -> (
    nat,
    u32,
) {
    let (ma, mb, mc) = (mag_of(f, a), mag_of(f, b), mag_of(f, c));
    let np = (neg_of(f, a) != neg_of(f, b)) != neg_prod;
    let nc = neg_of(f, c) != neg_add;
    let inf = f.inf();
    if (ma == 0 && mb == inf) || (ma == inf && mb == 0) {
        // 0 * inf is invalid even when the addend is a quiet NaN.
        (quiet(f), NV)
    } else if ma > inf || mb > inf || mc > inf {
        (quiet(f), snan_flag(is_snan(f, a) || is_snan(f, b) || is_snan(f, c)))
    } else if mc == inf && np != nc && (ma == inf || mb == inf) {
        (quiet(f), NV)
    } else if ma == inf || mb == inf {
        (with_sign(f, np, inf), 0)
    } else if mc == inf {
        (with_sign(f, nc, inf), 0)
    } else {
        fused_of(f, np, ma, mb, nc, mc)
    }
}

#[verifier::spinoff_prover]
#[verifier::rlimit(40)]
fn fma(f: Fmt, a: u64, b: u64, c: u64, neg_prod: bool, neg_add: bool) -> (r: (u64, u32))
    requires
        of_format(f, a),
        of_format(f, b),
        of_format(f, c),
    ensures
        (r.0 as nat, r.1) == fma_of(f, a, b, c, neg_prod, neg_add),
        of_format(f, r.0),
{
    let (na, ma): (bool, u64) = parts(f, a);
    let (nb, mb): (bool, u64) = parts(f, b);
    let (nc0, mc): (bool, u64) = parts(f, c);
    let np: bool = (na != nb) != neg_prod;
    let nc: bool = nc0 != neg_add;
    let inf: u64 = f.inf_bits();
    if (ma == 0 && mb == inf) || (ma == inf && mb == 0) {
        return (quiet_bits(f), NV);
    }
    if ma > inf || mb > inf || mc > inf {
        return (quiet_bits(f), invalid(snan(f, a) || snan(f, b) || snan(f, c)));
    }
    if mc == inf && np != nc && (ma == inf || mb == inf) {
        return (quiet_bits(f), NV);
    }
    if ma == inf || mb == inf {
        (signed_inf(f, np), 0)
    } else if mc == inf {
        (signed_inf(f, nc), 0)
    } else {
        fma_finite(f, np, ma, mb, nc, mc)
    }
}

/// Fused multiply-add over f32.
pub fn f32_fma(a: u32, b: u32, c: u32, neg_prod: bool, neg_add: bool) -> (r: (u32, u32))
    ensures
        (r.0 as nat, r.1) == fma_of(Fmt::Single, a as u64, b as u64, c as u64, neg_prod, neg_add),
{
    let (bits, fl): (u64, u32) = fma(
        Fmt::Single,
        a as u64,
        b as u64,
        c as u64,
        neg_prod,
        neg_add,
    );
    (bits as u32, fl)
}

/// Fused multiply-add over f64.
pub fn f64_fma(a: u64, b: u64, c: u64, neg_prod: bool, neg_add: bool) -> (r: (u64, u32))
    ensures
        (r.0 as nat, r.1) == fma_of(Fmt::Double, a, b, c, neg_prod, neg_add),
{
    fma(Fmt::Double, a, b, c, neg_prod, neg_add)
}

// ---------------------------------------------------------------------------
// Ordering and classes.
// ---------------------------------------------------------------------------

/// A number that orders as the values do; both zeros have the same.
pub open spec fn order_key(f: Fmt, bits: u64) -> int {
    signed(neg_of(f, bits), mag_of(f, bits))
}

/// fmin and fmax. A NaN gives way to a number, and -0 is below +0.
pub open spec fn minmax_of(f: Fmt, a: u64, b: u64, is_max: bool) -> (nat, u32) {
    let r = if is_nan(f, a) && is_nan(f, b) {
        quiet(f)
    } else if is_nan(f, a) {
        b as nat
    } else if is_nan(f, b) {
        a as nat
    } else if mag_of(f, a) == 0 && mag_of(f, b) == 0 && (neg_of(f, a) || neg_of(f, b)) {
        // min(-0,+0) = -0; max(-0,+0) = +0.
        if is_max {
            0
        } else {
            f.sign()
        }
    } else if (order_key(f, a) < order_key(f, b)) != is_max {
        a as nat
    } else {
        b as nat
    };
    (r, snan_flag(is_snan(f, a) || is_snan(f, b)))
}

/// Whether the value of `a` is below that of `b`; neither is a NaN.
fn less(f: Fmt, a: u64, b: u64) -> (r: bool)
    ensures
        r == (order_key(f, a) < order_key(f, b)),
{
    let (na, ma): (bool, u64) = parts(f, a);
    let (nb, mb): (bool, u64) = parts(f, b);
    if na {
        if nb {
            mb < ma
        } else {
            ma != 0 || mb != 0
        }
    } else {
        !nb && ma < mb
    }
}

fn minmax(f: Fmt, a: u64, b: u64, is_max: bool) -> (r: (u64, u32))
    requires
        of_format(f, a),
        of_format(f, b),
    ensures
        (r.0 as nat, r.1) == minmax_of(f, a, b, is_max),
        of_format(f, r.0),
{
    let (na, ma): (bool, u64) = parts(f, a);
    let (nb, mb): (bool, u64) = parts(f, b);
    let fl: u32 = invalid(snan(f, a) || snan(f, b));
    let inf: u64 = f.inf_bits();
    let r: u64 = if ma > inf && mb > inf {
        quiet_bits(f)
    } else if ma > inf {
        b
    } else if mb > inf {
        a
    } else if ma == 0 && mb == 0 && (na || nb) {
        signed_zero(f, !is_max)
    } else if less(f, a, b) != is_max {
        a
    } else {
        b
    };
    (r, fl)
}

pub fn f32_minmax(a: u32, b: u32, is_max: bool) -> (r: (u32, u32))
    ensures
        (r.0 as nat, r.1) == minmax_of(Fmt::Single, a as u64, b as u64, is_max),
{
    let (bits, fl): (u64, u32) = minmax(Fmt::Single, a as u64, b as u64, is_max);
    (bits as u32, fl)
}

pub fn f64_minmax(a: u64, b: u64, is_max: bool) -> (r: (u64, u32))
    ensures
        (r.0 as nat, r.1) == minmax_of(Fmt::Double, a, b, is_max),
{
    minmax(Fmt::Double, a, b, is_max)
}

/// The comparisons, selected by funct3: 2 feq, 1 flt, 0 fle. With a NaN all
/// are false; feq objects to signalling ones only.
pub open spec fn compared(f: Fmt, a: u64, b: u64, sel: u32) -> Option<(bool, u32)> {
    let nan = is_nan(f, a) || is_nan(f, b);
    let (ka, kb) = (order_key(f, a), order_key(f, b));
    if sel == 2 {
        Some((!nan && ka == kb, snan_flag(is_snan(f, a) || is_snan(f, b))))
    } else if sel == 1 {
        Some((!nan && ka < kb, snan_flag(nan)))
    } else if sel == 0 {
        Some((!nan && ka <= kb, snan_flag(nan)))
    } else {
        None
    }
}

fn compare(f: Fmt, a: u64, b: u64, sel: u32) -> (r: Option<(bool, u32)>)
    ensures
        r == compared(f, a, b, sel),
{
    let (_, ma) = parts(f, a);
    let (_, mb) = parts(f, b);
    let nan: bool = ma > f.inf_bits() || mb > f.inf_bits();
    match sel {
        2 => Some(
            (!nan && !less(f, a, b) && !less(f, b, a), invalid(snan(f, a) || snan(f, b))),
        ),
        1 => Some((!nan && less(f, a, b), invalid(nan))),
        0 => Some((!nan && !less(f, b, a), invalid(nan))),
        _ => None,
    }
}

/// The fclass mask: one bit set, for the class of the value.
pub open spec fn class_of(f: Fmt, a: u64) -> u64 {
    let (neg, m) = (neg_of(f, a), mag_of(f, a));
    if m == f.inf() {
        if neg {
            0x1
        } else {
            0x80
        }
    } else if m > f.inf() {
        if is_snan(f, a) {
            0x100
        } else {
            0x200
        }
    } else if m == 0 {
        if neg {
            0x8
        } else {
            0x10
        }
    } else if m < f.min_normal() {
        if neg {
            0x4
        } else {
            0x20
        }
    } else if neg {
        0x2
    } else {
        0x40
    }
}

fn fclass(f: Fmt, a: u64) -> (r: u64)
    ensures
        r == class_of(f, a),
{
    let (neg, m): (bool, u64) = parts(f, a);
    if m == f.inf_bits() {
        if neg {
            0x1
        } else {
            0x80
        }
    } else if m > f.inf_bits() {
        if snan(f, a) {
            0x100
        } else {
            0x200
        }
    } else if m == 0 {
        if neg {
            0x8
        } else {
            0x10
        }
    } else if m < f.min_normal_bits() {
        if neg {
            0x4
        } else {
            0x20
        }
    } else if neg {
        0x2
    } else {
        0x40
    }
}

pub fn fclass32(a: u32) -> (r: u64)
    ensures
        r == class_of(Fmt::Single, a as u64),
{
    fclass(Fmt::Single, a as u64)
}

pub fn fclass64(a: u64) -> (r: u64)
    ensures
        r == class_of(Fmt::Double, a),
{
    fclass(Fmt::Double, a)
}

/// Sign injection, selected by funct3: 0 fsgnj, 1 fsgnjn, 2 fsgnjx.
pub open spec fn sign_injected(f: Fmt, a: u64, b: u64, sel: u32) -> Option<nat> {
    let (na, nb, m) = (neg_of(f, a), neg_of(f, b), mag_of(f, a));
    if sel == 0 {
        Some(with_sign(f, nb, m))
    } else if sel == 1 {
        Some(with_sign(f, !nb, m))
    } else if sel == 2 {
        Some(with_sign(f, na != nb, m))
    } else {
        None
    }
}

fn inject_sign(f: Fmt, a: u64, b: u64, sel: u32) -> (r: Option<u64>)
    requires
        of_format(f, a),
        of_format(f, b),
    ensures
        match r {
            Some(v) => sign_injected(f, a, b, sel) == Some(v as nat) && of_format(f, v),
            None => sign_injected(f, a, b, sel) is None,
        },
{
    let (na, m): (bool, u64) = parts(f, a);
    let (nb, _) = parts(f, b);
    let neg: bool = match sel {
        0 => nb,
        1 => !nb,
        2 => na != nb,
        _ => return None,
    };
    Some(
        if neg {
            m + f.sign_bit()
        } else {
            m
        },
    )
}

// ---------------------------------------------------------------------------
// Conversions.
// ---------------------------------------------------------------------------

/// The integer type of a conversion.
#[derive(Debug, Clone, Copy, PartialEq, Eq, Structural)]
pub enum IntKind {
    W,
    Wu,
    L,
    Lu,
}

impl IntKind {
    pub open spec fn min(self) -> int {
        match self {
            IntKind::W => -0x8000_0000,
            IntKind::L => -0x8000_0000_0000_0000,
            _ => 0,
        }
    }

    pub open spec fn max(self) -> int {
        match self {
            IntKind::W => 0x7fff_ffff,
            IntKind::Wu => 0xffff_ffff,
            IntKind::L => 0x7fff_ffff_ffff_ffff,
            IntKind::Lu => 0xffff_ffff_ffff_ffff,
        }
    }

    /// How a register holds the integer: both word kinds are sign-extended.
    pub open spec fn register(self, v: int) -> u64 {
        match self {
            IntKind::W | IntKind::Wu => wrap32(v),
            IntKind::L | IntKind::Lu => wrap64(v),
        }
    }

    /// The integer that a register holds.
    pub open spec fn value(self, x: u64) -> int {
        match self {
            IntKind::W => s32(x),
            IntKind::Wu => u32_of(x),
            IntKind::L => s64(x),
            IntKind::Lu => x as int,
        }
    }

    /// The greatest magnitude of the given sign.
    fn limit(self, neg: bool) -> (r: u64)
        ensures
            signed(neg, r as nat) == (if neg {
                self.min()
            } else {
                self.max()
            }),
    {
        match self {
            IntKind::W => if neg {
                0x8000_0000
            } else {
                0x7fff_ffff
            },
            IntKind::Wu => if neg {
                0
            } else {
                0xffff_ffff
            },
            IntKind::L => if neg {
                0x8000_0000_0000_0000
            } else {
                0x7fff_ffff_ffff_ffff
            },
            IntKind::Lu => if neg {
                0
            } else {
                0xffff_ffff_ffff_ffff
            },
        }
    }

    fn register_of(self, neg: bool, mag: u64) -> (r: u64)
        requires
            self.min() <= signed(neg, mag as nat) <= self.max(),
        ensures
            r == self.register(signed(neg, mag as nat)),
    {
        match self {
            IntKind::W | IntKind::Wu => {
                let word: u64 = if neg && mag != 0 {
                    0x1_0000_0000 - mag
                } else {
                    mag
                };
                if word < 0x8000_0000 {
                    word
                } else {
                    word + 0xffff_ffff_0000_0000
                }
            },
            IntKind::L | IntKind::Lu => if neg && mag != 0 {
                0xffff_ffff_ffff_ffff - mag + 1
            } else {
                mag
            },
        }
    }

    /// Sign and magnitude of the integer that a register holds.
    fn parts_of(self, x: u64) -> (r: (bool, u64))
        ensures
            signed(r.0, r.1 as nat) == self.value(x),
    {
        match self {
            IntKind::W => {
                let w: u64 = x % 0x1_0000_0000;
                if w < 0x8000_0000 {
                    (false, w)
                } else {
                    (true, 0x1_0000_0000 - w)
                }
            },
            IntKind::Wu => (false, x % 0x1_0000_0000),
            IntKind::L => if x < 0x8000_0000_0000_0000 {
                (false, x)
            } else {
                (true, 0xffff_ffff_ffff_ffff - x + 1)
            },
            IntKind::Lu => (false, x),
        }
    }
}

/// float -> int. NaN and what is out of range saturate with NV.
pub open spec fn to_int_of(f: Fmt, bits: u64, kind: IntKind, rm: Rm) -> (u64, u32) {
    let (neg, m) = (neg_of(f, bits), mag_of(f, bits));
    if m > f.inf() {
        (kind.register(kind.max()), NV)
    } else if m == f.inf() {
        (
            kind.register(
                if neg {
                    kind.min()
                } else {
                    kind.max()
                },
            ),
            NV,
        )
    } else {
        let (q, ix) = integer_of(f, m, neg, rm);
        let v = signed(neg, q);
        if v < kind.min() {
            (kind.register(kind.min()), NV)
        } else if v > kind.max() {
            (kind.register(kind.max()), NV)
        } else {
            (
                kind.register(v),
                if ix {
                    NX
                } else {
                    0
                },
            )
        }
    }
}

/// float -> int conversion of a value of the given format.
pub fn fcvt_to_int(f: Fmt, bits: u64, kind: IntKind, rm: Rm) -> (r: (u64, u32))
    ensures
        r == to_int_of(f, bits, kind, rm),
{
    let (neg, m): (bool, u64) = parts(f, bits);
    if m > f.inf_bits() {
        return (kind.register_of(false, kind.limit(false)), NV);
    }
    if m == f.inf_bits() {
        return (kind.register_of(neg, kind.limit(neg)), NV);
    }
    let (mag, ix): (u128, bool) = round_int(f, m, neg, rm);
    let limit: u64 = kind.limit(neg);
    if mag > limit as u128 {
        (kind.register_of(neg, limit), NV)
    } else {
        (
            kind.register_of(neg, mag as u64),
            if ix {
                NX
            } else {
                0
            },
        )
    }
}

/// f64 -> f32.
pub open spec fn to_single_of(bits: u64, rm: Rm) -> (nat, u32) {
    let f = Fmt::Double;
    let (neg, m) = (neg_of(f, bits), mag_of(f, bits));
    if m > f.inf() {
        (quiet(Fmt::Single), snan_flag(is_snan(f, bits)))
    } else if m == f.inf() {
        (with_sign(Fmt::Single, neg, Fmt::Single.inf()), 0)
    } else if m == 0 {
        (with_sign(Fmt::Single, neg, 0), 0)
    } else {
        narrowed(m, neg, rm)
    }
}

/// Round an f64 to f32 with full rm support.
pub fn f64_to_f32_rm(bits: u64, rm: Rm) -> (r: (u32, u32))
    ensures
        (r.0 as nat, r.1) == to_single_of(bits, rm),
{
    let (neg, m): (bool, u64) = parts(Fmt::Double, bits);
    let inf: u64 = Fmt::Double.inf_bits();
    if m > inf {
        (QNAN32, invalid(snan(Fmt::Double, bits)))
    } else if m == inf {
        (signed_inf(Fmt::Single, neg) as u32, 0)
    } else if m == 0 {
        (signed_zero(Fmt::Single, neg) as u32, 0)
    } else {
        let (b, fl): (u64, u32) = narrow_finite(m, neg, rm);
        (b as u32, fl)
    }
}

/// f32 -> f64, which is exact.
pub open spec fn to_double_of(bits: u64) -> (nat, u32) {
    let f = Fmt::Single;
    let (neg, m) = (neg_of(f, bits), mag_of(f, bits));
    if m > f.inf() {
        (quiet(Fmt::Double), snan_flag(is_snan(f, bits)))
    } else if m == f.inf() {
        (with_sign(Fmt::Double, neg, Fmt::Double.inf()), 0)
    } else if m == 0 {
        (with_sign(Fmt::Double, neg, 0), 0)
    } else {
        (with_sign(Fmt::Double, neg, widened(m)), 0)
    }
}

/// Exact widening.
pub fn f32_to_f64(bits: u32) -> (r: (u64, u32))
    ensures
        (r.0 as nat, r.1) == to_double_of(bits as u64),
{
    let (neg, m): (bool, u64) = parts(Fmt::Single, bits as u64);
    let inf: u64 = Fmt::Single.inf_bits();
    if m > inf {
        (QNAN64, invalid(snan(Fmt::Single, bits as u64)))
    } else if m == inf {
        (signed_inf(Fmt::Double, neg), 0)
    } else if m == 0 {
        (signed_zero(Fmt::Double, neg), 0)
    } else {
        let w: u64 = widen_finite(m);
        if neg {
            (w + Fmt::Double.sign_bit(), 0)
        } else {
            (w, 0)
        }
    }
}

/// The bits of the integer that a register holds.
fn from_int(f: Fmt, kind: IntKind, x: u64, rm: Rm) -> (r: (u64, u32))
    ensures
        (r.0 as nat, r.1) == from_int_of(f, kind.value(x), rm),
        of_format(f, r.0),
{
    let (neg, mag): (bool, u64) = kind.parts_of(x);
    int_to_float(f, neg, mag, rm)
}

/// Sign and magnitude of an integer.
fn parts_of_i64(v: i64) -> (r: (bool, u64))
    ensures
        signed(r.0, r.1 as nat) == v,
{
    if v == i64::MIN {
        (true, 0x8000_0000_0000_0000)
    } else if v < 0 {
        (true, (-v) as u64)
    } else {
        (false, v as u64)
    }
}

/// A signed integer as a double.
pub fn fcvt_i64_to_f64(v: i64, rm: Rm) -> (r: (u64, u32))
    ensures
        (r.0 as nat, r.1) == from_int_of(Fmt::Double, v as int, rm),
{
    let (neg, mag): (bool, u64) = parts_of_i64(v);
    int_to_float(Fmt::Double, neg, mag, rm)
}

/// An unsigned integer as a double.
pub fn fcvt_u64_to_f64(v: u64, rm: Rm) -> (r: (u64, u32))
    ensures
        (r.0 as nat, r.1) == from_int_of(Fmt::Double, v as int, rm),
{
    int_to_float(Fmt::Double, false, v, rm)
}

/// A signed integer as a single.
pub fn fcvt_i64_to_f32(v: i64, rm: Rm) -> (r: (u32, u32))
    ensures
        (r.0 as nat, r.1) == from_int_of(Fmt::Single, v as int, rm),
{
    let (neg, mag): (bool, u64) = parts_of_i64(v);
    let (bits, fl): (u64, u32) = int_to_float(Fmt::Single, neg, mag, rm);
    (bits as u32, fl)
}

/// An unsigned integer as a single.
pub fn fcvt_u64_to_f32(v: u64, rm: Rm) -> (r: (u32, u32))
    ensures
        (r.0 as nat, r.1) == from_int_of(Fmt::Single, v as int, rm),
{
    let (bits, fl): (u64, u32) = int_to_float(Fmt::Single, false, v, rm);
    (bits as u32, fl)
}

// ---------------------------------------------------------------------------
// Execution.
// ---------------------------------------------------------------------------

/// What an OP-FP instruction leaves behind.
#[derive(Debug, Clone, Copy, PartialEq, Eq, Structural)]
pub enum FpResult {
    /// A value for an f-register, and the flags it raised.
    F { bits: u64, flags: u32 },
    /// A value for an x-register, and the flags it raised.
    X { val: u64, flags: u32 },
    /// Bits moved to an f-register.
    MoveF(u64),
    /// Bits moved to an x-register.
    MoveX(u64),
}

/// The value of the format that an f-register holds.
pub open spec fn held(f: Fmt, v: u64) -> u64 {
    match f {
        Fmt::Single => unboxed(v) as u64,
        Fmt::Double => v,
    }
}

/// The value as an f-register holds it.
pub open spec fn kept(f: Fmt, bits: nat) -> u64 {
    match f {
        Fmt::Single => boxed(bits as u64),
        Fmt::Double => bits as u64,
    }
}

fn hold(f: Fmt, v: u64) -> (r: u64)
    ensures
        r == held(f, v),
        of_format(f, r),
{
    match f {
        Fmt::Single => unbox32(v) as u64,
        Fmt::Double => v,
    }
}

fn keep(f: Fmt, bits: u64) -> (r: u64)
    requires
        of_format(f, bits),
    ensures
        r == kept(f, bits as nat),
{
    match f {
        Fmt::Single => box32(bits as u32),
        Fmt::Double => bits,
    }
}

/// The format of the fmt field.
pub open spec fn fmt_of(field: u32) -> Option<Fmt> {
    if field == 0 {
        Some(Fmt::Single)
    } else if field == 1 {
        Some(Fmt::Double)
    } else {
        None
    }
}

fn fmt(field: u32) -> (r: Option<Fmt>)
    ensures
        r == fmt_of(field),
{
    match field {
        0 => Some(Fmt::Single),
        1 => Some(Fmt::Double),
        _ => None,
    }
}

/// The rounding mode an rm field selects; 7 takes that of fcsr.
pub open spec fn rm_of(fcsr: u64, field: u32) -> Option<Rm> {
    let eff = if field == 7 {
        (fcsr / 0x20) % 8
    } else {
        field as u64
    };
    if eff == 0 {
        Some(Rm::Rne)
    } else if eff == 1 {
        Some(Rm::Rtz)
    } else if eff == 2 {
        Some(Rm::Rdn)
    } else if eff == 3 {
        Some(Rm::Rup)
    } else if eff == 4 {
        Some(Rm::Rmm)
    } else {
        None
    }
}

/// The integer kind the rs2 field of a conversion selects.
pub open spec fn kind_of(field: u8) -> Option<IntKind> {
    if field == 0 {
        Some(IntKind::W)
    } else if field == 1 {
        Some(IntKind::Wu)
    } else if field == 2 {
        Some(IntKind::L)
    } else if field == 3 {
        Some(IntKind::Lu)
    } else {
        None
    }
}

fn kind(field: u8) -> (r: Option<IntKind>)
    ensures
        r == kind_of(field),
{
    match field {
        0 => Some(IntKind::W),
        1 => Some(IntKind::Wu),
        2 => Some(IntKind::L),
        3 => Some(IntKind::Lu),
        _ => None,
    }
}

/// The hart with the exception flags accrued.
pub open spec fn flagged(h: Hart, fl: u32) -> Hart {
    fs_dirtied(
        Hart {
            csrs: Csrs {
                fcsr: if fl != 0 {
                    h.csrs.fcsr | (fl as u64 & 0x1f)
                } else {
                    h.csrs.fcsr
                },
                ..h.csrs
            },
            ..h
        },
    )
}

/// The hart with the bits in an f-register.
pub open spec fn with_f(h: Hart, rd: u8, bits: u64) -> Hart {
    fs_dirtied(Hart { f: h.f.update(rd as int, bits), ..h })
}

/// The hart after an OP-FP result went to register `rd`.
pub open spec fn with_result(h: Hart, rd: u8, r: FpResult) -> Hart {
    match r {
        FpResult::F { bits, flags } => with_f(flagged(h, flags), rd, bits),
        FpResult::X { val, flags } => with_x(flagged(h, flags), rd, val),
        FpResult::MoveF(bits) => with_f(h, rd, bits),
        FpResult::MoveX(val) => with_x(h, rd, val),
    }
}

/// A result of the format, for an f-register.
pub open spec fn to_f(f: Fmt, r: (nat, u32)) -> FpResult {
    FpResult::F { bits: kept(f, r.0), flags: r.1 }
}

/// Sums, differences, products, quotients and square roots; sign injection,
/// minimum and maximum.
#[verifier::opaque]
pub open spec fn arithmetic_of(f: Fmt, op: u32, a: u64, b: u64, sel: u32, rs2: u8, rm: Option<
    Rm,
>) -> Option<FpResult> {
    if op <= 3 {
        match rm {
            Some(m) => Some(
                to_f(
                    f,
                    op2_of(
                        f,
                        a,
                        b,
                        if op == 0 {
                            Op2::Add
                        } else if op == 1 {
                            Op2::Sub
                        } else if op == 2 {
                            Op2::Mul
                        } else {
                            Op2::Div
                        },
                        m,
                    ),
                ),
            ),
            None => None,
        }
    } else if op == 0xb {
        if rs2 == 0 && rm is Some {
            Some(to_f(f, sqrt_of(f, a)))
        } else {
            None
        }
    } else if op == 4 {
        match sign_injected(f, a, b, sel) {
            Some(bits) => Some(FpResult::MoveF(kept(f, bits))),
            None => None,
        }
    } else if op == 5 && sel <= 1 {
        Some(to_f(f, minmax_of(f, a, b, sel == 1)))
    } else {
        None
    }
}

/// Conversions between the formats and with integers. `src` is the source
/// f-register, `x` the source x-register.
#[verifier::opaque]
pub open spec fn conversion_of(f: Fmt, op: u32, src: u64, x: u64, rs2: u8, rm: Option<Rm>) -> Option<
    FpResult,
> {
    match rm {
        None => None,
        Some(m) => if op == 8 {
            if f == Fmt::Single && rs2 == 1 {
                Some(to_f(f, to_single_of(src, m)))
            } else if f == Fmt::Double && rs2 == 0 {
                Some(to_f(f, to_double_of(unboxed(src) as u64)))
            } else {
                None
            }
        } else {
            match kind_of(rs2) {
                None => None,
                Some(k) => if op == 0x18 {
                    let (val, flags) = to_int_of(f, held(f, src), k, m);
                    Some(FpResult::X { val, flags })
                } else {
                    Some(to_f(f, from_int_of(f, k.value(x), m)))
                },
            }
        },
    }
}

/// Comparisons, classes and moves between the register files. fmv.x.w moves
/// the raw low 32 bits, with no NaN-box check.
#[verifier::opaque]
pub open spec fn move_of(f: Fmt, op: u32, v1: u64, v2: u64, x: u64, sel: u32, rs2: u8) -> Option<
    FpResult,
> {
    if op == 0x14 {
        match compared(f, held(f, v1), held(f, v2), sel) {
            Some((b, flags)) => Some(
                FpResult::X {
                    val: if b {
                        1
                    } else {
                        0
                    },
                    flags,
                },
            ),
            None => None,
        }
    } else if rs2 != 0 {
        None
    } else if op == 0x1c && sel == 0 {
        Some(
            FpResult::MoveX(
                match f {
                    Fmt::Single => extended(v1, 4, true),
                    Fmt::Double => v1,
                },
            ),
        )
    } else if op == 0x1c && sel == 1 {
        Some(FpResult::MoveX(class_of(f, held(f, v1))))
    } else if op == 0x1e && sel == 0 {
        Some(
            FpResult::MoveF(
                match f {
                    Fmt::Single => boxed(x),
                    Fmt::Double => x,
                },
            ),
        )
    } else {
        None
    }
}

/// The result of an OP-FP instruction, from its encoding and the registers.
pub open spec fn opfp_of(h: Hart, raw: u32) -> Option<FpResult> {
    let op = funct7_of(raw) / 4;
    let (v1, v2) = (h.f[rs1_of(raw) as int], h.f[rs2_of(raw) as int]);
    let x = h.x[rs1_of(raw) as int];
    let sel = funct3_of(raw);
    let rm = rm_of(h.csrs.fcsr, sel);
    match fmt_of(funct7_of(raw) % 4) {
        None => None,
        Some(f) => if op <= 5 || op == 0xb {
            arithmetic_of(f, op, held(f, v1), held(f, v2), sel, rs2_of(raw), rm)
        } else if op == 8 || op == 0x18 || op == 0x1a {
            conversion_of(f, op, v1, x, rs2_of(raw), rm)
        } else {
            move_of(f, op, v1, v2, x, sel, rs2_of(raw))
        },
    }
}

/// The width an FP load or store selects.
pub open spec fn fp_width(sel: u32) -> Option<int> {
    if sel == 2 {
        Some(4)
    } else if sel == 3 {
        Some(8)
    } else {
        None
    }
}

/// flw and fld.
#[verifier::opaque]
pub open spec fn fp_loaded(h: Hart, raw: u32, size: int, next: u64) -> (
    Hart,
    Result<(Option<VmExit>, bool), Exception>,
) {
    let va = h.x[rs1_of(raw) as int].wrapping_add(imm_i_of(raw) as u64);
    let (h1, r) = loaded(h, va, size);
    match r {
        Err(e) => (h1, Err(e)),
        Ok(LoadResult::Ram(v)) => (
            with_f(
                h1,
                rd_of(raw),
                if size == 4 {
                    boxed(v)
                } else {
                    v
                },
            ),
            Ok((None, false)),
        ),
        Ok(LoadResult::Mmio(pa)) => (
            Hart {
                pending: Some(
                    PendingLoad {
                        rd: rd_of(raw),
                        size: size as u8,
                        sign: false,
                        freg: true,
                        next_pc: next,
                    },
                ),
                ..h1
            },
            Ok((Some(VmExit::MmioRead { addr: pa, size: size as u8 }), true)),
        ),
    }
}

/// fsw and fsd. One to the registered `tohost` address exits with the word
/// there.
#[verifier::opaque]
pub open spec fn fp_stored(h0: Hart, raw: u32, size: int) -> (
    Hart,
    Result<(Option<VmExit>, bool), Exception>,
) {
    let va = h0.x[rs1_of(raw) as int].wrapping_add(imm_s_of(raw) as u64);
    let data = extended(h0.f[rs2_of(raw) as int], size, false);
    let (h1, r) = stored(Hart { reservation: None, ..h0 }, va, size, data);
    match r {
        Err(e) => (h1, Err(e)),
        Ok(StoreResult::Ram(pa)) => (h1, Ok((tohost_exit(h1, pa), false))),
        Ok(StoreResult::Mmio(pa)) => (
            h1,
            Ok((Some(VmExit::MmioWrite { addr: pa, size: size as u8, data }), false)),
        ),
    }
}

/// One F/D instruction. The flag says that an MMIO read leaves pc where it is
/// until its data arrives.
#[verifier::opaque]
pub open spec fn fp_executed(h: Hart, raw: u32, next: u64) -> (
    Hart,
    Result<(Option<VmExit>, bool), Exception>,
) {
    let ill = (h, Err(Exception::IllegalInstruction(raw as u64)));
    let op = opcode_of(raw);
    let sel = funct3_of(raw);
    if !fs_on(h) {
        ill
    } else if op == 0x07 {
        match fp_width(sel) {
            Some(size) => fp_loaded(h, raw, size, next),
            None => ill,
        }
    } else if op == 0x27 {
        match fp_width(sel) {
            Some(size) => fp_stored(h, raw, size),
            None => ill,
        }
    } else if op == 0x43 || op == 0x47 || op == 0x4b || op == 0x4f {
        match (rm_of(h.csrs.fcsr, sel), fmt_of(funct7_of(raw) % 4)) {
            (Some(_), Some(f)) => (
                with_result(
                    h,
                    rd_of(raw),
                    to_f(
                        f,
                        fma_of(
                            f,
                            held(f, h.f[rs1_of(raw) as int]),
                            held(f, h.f[rs2_of(raw) as int]),
                            held(f, h.f[funct5_of(raw) as int]),
                            op == 0x4b || op == 0x4f,
                            op == 0x47 || op == 0x4f,
                        ),
                    ),
                ),
                Ok((None, false)),
            ),
            _ => ill,
        }
    } else if op == 0x53 {
        match opfp_of(h, raw) {
            Some(r) => (with_result(h, rd_of(raw), r), Ok((None, false))),
            None => ill,
        }
    } else {
        ill
    }
}

/// The result, for an f-register.
fn result_f(f: Fmt, r: (u64, u32)) -> (out: FpResult)
    requires
        of_format(f, r.0),
    ensures
        out == to_f(f, (r.0 as nat, r.1)),
{
    FpResult::F { bits: keep(f, r.0), flags: r.1 }
}

fn arithmetic(f: Fmt, op: u32, a: u64, b: u64, sel: u32, rs2: u8, rm: Option<Rm>) -> (r: Option<
    FpResult,
>)
    requires
        of_format(f, a),
        of_format(f, b),
    ensures
        r == arithmetic_of(f, op, a, b, sel, rs2, rm),
{
    proof {
        reveal(arithmetic_of);
    }
    match op {
        0..=3 => match rm {
            Some(m) => {
                let which = match op {
                    0 => Op2::Add,
                    1 => Op2::Sub,
                    2 => Op2::Mul,
                    _ => Op2::Div,
                };
                Some(result_f(f, op2(f, a, b, which, m)))
            },
            None => None,
        },
        0xb => if rs2 == 0 && rm.is_some() {
            Some(result_f(f, sqrt(f, a)))
        } else {
            None
        },
        4 => match inject_sign(f, a, b, sel) {
            Some(bits) => Some(FpResult::MoveF(keep(f, bits))),
            None => None,
        },
        5 => if sel <= 1 {
            Some(result_f(f, minmax(f, a, b, sel == 1)))
        } else {
            None
        },
        _ => None,
    }
}

fn conversion(f: Fmt, op: u32, src: u64, x: u64, rs2: u8, rm: Option<Rm>) -> (r: Option<FpResult>)
    requires
        op == 8 || op == 0x18 || op == 0x1a,
    ensures
        r == conversion_of(f, op, src, x, rs2, rm),
{
    proof {
        reveal(conversion_of);
    }
    let m = match rm {
        Some(m) => m,
        None => return None,
    };
    if op == 8 {
        return if f == Fmt::Single && rs2 == 1 {
            let (bits, flags): (u32, u32) = f64_to_f32_rm(src, m);
            Some(result_f(f, (bits as u64, flags)))
        } else if f == Fmt::Double && rs2 == 0 {
            let (bits, flags): (u64, u32) = f32_to_f64(unbox32(src));
            Some(result_f(f, (bits, flags)))
        } else {
            None
        };
    }
    let k = match kind(rs2) {
        Some(k) => k,
        None => return None,
    };
    if op == 0x18 {
        let (val, flags): (u64, u32) = fcvt_to_int(f, hold(f, src), k, m);
        Some(FpResult::X { val, flags })
    } else {
        Some(result_f(f, from_int(f, k, x, m)))
    }
}

fn move_or_compare(f: Fmt, op: u32, v1: u64, v2: u64, x: u64, sel: u32, rs2: u8) -> (r: Option<
    FpResult,
>)
    ensures
        r == move_of(f, op, v1, v2, x, sel, rs2),
{
    proof {
        reveal(move_of);
    }
    if op == 0x14 {
        return match compare(f, hold(f, v1), hold(f, v2), sel) {
            Some((b, flags)) => Some(
                FpResult::X {
                    val: if b {
                        1
                    } else {
                        0
                    },
                    flags,
                },
            ),
            None => None,
        };
    }
    if rs2 != 0 {
        None
    } else if op == 0x1c && sel == 0 {
        Some(
            FpResult::MoveX(
                match f {
                    Fmt::Single => crate::cpu::extend(v1, 4, true),
                    Fmt::Double => v1,
                },
            ),
        )
    } else if op == 0x1c && sel == 1 {
        Some(FpResult::MoveX(fclass(f, hold(f, v1))))
    } else if op == 0x1e && sel == 0 {
        proof {
            lemma_box(x);
            lemma_box(x % 0x1_0000_0000);
        }
        Some(
            FpResult::MoveF(
                match f {
                    Fmt::Single => box32((x % 0x1_0000_0000) as u32),
                    Fmt::Double => x,
                },
            ),
        )
    } else {
        None
    }
}

impl Cpu {
    /// The rounding mode an rm field selects.
    fn rm(&self, field: u32) -> (r: Option<Rm>)
        ensures
            r == rm_of(self@.csrs.fcsr, field),
    {
        proof {
            lemma_box(self.csrs.fcsr);
        }
        let eff: u64 = if field == 7 {
            (self.csrs.fcsr >> 5) & 7
        } else {
            field as u64
        };
        match eff {
            0 => Some(Rm::Rne),
            1 => Some(Rm::Rtz),
            2 => Some(Rm::Rdn),
            3 => Some(Rm::Rup),
            4 => Some(Rm::Rmm),
            _ => None,
        }
    }

    fn set_flags(&mut self, fl: u32)
        requires
            old(self).wf(),
        ensures
            final(self).wf(),
            final(self)@ == flagged(old(self)@, fl),
    {
        if fl != 0 {
            self.csrs.fcsr = self.csrs.fcsr | (fl as u64 & 0x1f);
        }
        self.mark_fs_dirty();
    }

    fn set_f(&mut self, rd: u8, bits: u64)
        requires
            old(self).wf(),
            rd < 32,
        ensures
            final(self).wf(),
            final(self)@ == with_f(old(self)@, rd, bits),
    {
        self.fregs[rd as usize] = bits;
        self.mark_fs_dirty();
    }

    fn set_result(&mut self, rd: u8, r: FpResult)
        requires
            old(self).wf(),
            rd < 32,
        ensures
            final(self).wf(),
            final(self)@ == with_result(old(self)@, rd, r),
    {
        match r {
            FpResult::F { bits, flags } => {
                self.set_flags(flags);
                self.set_f(rd, bits);
            },
            FpResult::X { val, flags } => {
                self.set_flags(flags);
                self.set_x(rd, val);
            },
            FpResult::MoveF(bits) => self.set_f(rd, bits),
            FpResult::MoveX(val) => self.set_x(rd, val),
        }
    }

    /// Execute one OP-FP instruction; None where the encoding is illegal.
    fn exec_opfp(&mut self, raw: u32) -> (r: Option<()>)
        requires
            old(self).wf(),
        ensures
            final(self).wf(),
            match opfp_of(old(self)@, raw) {
                Some(v) => r is Some && final(self)@ == with_result(old(self)@, rd_of(raw), v),
                None => r is None && final(self)@ == old(self)@,
            },
    {
        let op: u32 = funct7(raw) / 4;
        let sel: u32 = funct3(raw);
        let v1: u64 = self.fregs[rs1(raw) as usize];
        let v2: u64 = self.fregs[rs2(raw) as usize];
        let x: u64 = self.xregs[rs1(raw) as usize];
        let f = match fmt(funct7(raw) % 4) {
            Some(f) => f,
            None => return None,
        };
        let rm = self.rm(sel);
        let res = if op <= 5 || op == 0xb {
            arithmetic(f, op, hold(f, v1), hold(f, v2), sel, rs2(raw), rm)
        } else if op == 8 || op == 0x18 || op == 0x1a {
            conversion(f, op, v1, x, rs2(raw), rm)
        } else {
            move_or_compare(f, op, v1, v2, x, sel, rs2(raw))
        };
        match res {
            Some(v) => {
                self.set_result(rd(raw), v);
                Some(())
            },
            None => None,
        }
    }

    fn exec_fp_load(&mut self, raw: u32, size: usize, next: u64) -> (r: Result<
        (Option<VmExit>, bool),
        Exception,
    >)
        requires
            old(self).wf(),
            size == 4 || size == 8,
        ensures
            final(self).wf(),
            (final(self)@, r) == fp_loaded(old(self)@, raw, size as int, next),
    {
        proof {
            reveal(fp_loaded);
        }
        let va: u64 = self.xregs[rs1(raw) as usize].wrapping_add(imm_i(raw) as u64);
        match self.load_vaddr(va, size) {
            Ok(LoadResult::Ram(v)) => {
                proof {
                    lemma_box(v);
                    lemma_box(v % 0x1_0000_0000);
                }
                let bits: u64 = if size == 4 {
                    box32((v % 0x1_0000_0000) as u32)
                } else {
                    v
                };
                self.set_f(rd(raw), bits);
                Ok((None, false))
            },
            Ok(LoadResult::Mmio(pa)) => {
                self.pending_load = Some(
                    PendingLoad {
                        rd: rd(raw),
                        size: size as u8,
                        sign: false,
                        freg: true,
                        next_pc: next,
                    },
                );
                Ok((Some(VmExit::MmioRead { addr: pa, size: size as u8 }), true))
            },
            Err(e) => Err(e),
        }
    }

    fn exec_fp_store(&mut self, raw: u32, size: usize) -> (r: Result<
        (Option<VmExit>, bool),
        Exception,
    >)
        requires
            old(self).wf(),
            size == 4 || size == 8,
        ensures
            final(self).wf(),
            (final(self)@, r) == fp_stored(old(self)@, raw, size as int),
    {
        proof {
            reveal(fp_stored);
        }
        let va: u64 = self.xregs[rs1(raw) as usize].wrapping_add(imm_s(raw) as u64);
        let data: u64 = crate::cpu::extend(self.fregs[rs2(raw) as usize], size, false);
        self.reservation = None;
        let ghost before = self@;
        match self.store_vaddr(va, size, data) {
            Ok(StoreResult::Ram(pa)) => {
                proof {
                    crate::mmu::stored_in_ram(before, va, size as int, data);
                }
                Ok((self.tohost_exit_for(pa), false))
            },
            Ok(StoreResult::Mmio(pa)) => Ok(
                (Some(VmExit::MmioWrite { addr: pa, size: size as u8, data }), false),
            ),
            Err(e) => Err(e),
        }
    }

    /// Execute one F/D instruction. `next` is the fall-through pc. Returns
    /// the same (exit, early-return) contract as integer loads/stores: an
    /// MmioRead exit leaves pc unadvanced until `complete_mmio_read`.
    pub fn exec_fp(&mut self, raw: u32, next: u64) -> (r: Result<
        (Option<VmExit>, bool),
        Exception,
    >)
        requires
            old(self).wf(),
        ensures
            final(self).wf(),
            (final(self)@, r) == fp_executed(old(self)@, raw, next),
    {
        proof {
            reveal(fp_executed);
        }
        let ill = Exception::IllegalInstruction(raw as u64);
        if self.check_fs_on().is_err() {
            return Err(ill);
        }
        let op: u32 = opcode(raw);
        let sel: u32 = funct3(raw);
        match op {
            0x07 => match sel {
                2 => self.exec_fp_load(raw, 4, next),
                3 => self.exec_fp_load(raw, 8, next),
                _ => Err(ill),
            },
            0x27 => match sel {
                2 => self.exec_fp_store(raw, 4),
                3 => self.exec_fp_store(raw, 8),
                _ => Err(ill),
            },
            0x43 | 0x47 | 0x4b | 0x4f => {
                // FMA is RNE-correct; directed modes accept RNE.
                if self.rm(sel).is_none() {
                    return Err(ill);
                }
                let f = match fmt(funct7(raw) % 4) {
                    Some(f) => f,
                    None => return Err(ill),
                };
                let a: u64 = hold(f, self.fregs[rs1(raw) as usize]);
                let b: u64 = hold(f, self.fregs[rs2(raw) as usize]);
                let c: u64 = hold(f, self.fregs[funct5(raw) as usize]);
                let neg_prod: bool = op == 0x4b || op == 0x4f;
                let neg_add: bool = op == 0x47 || op == 0x4f;
                let v = result_f(f, fma(f, a, b, c, neg_prod, neg_add));
                self.set_result(rd(raw), v);
                Ok((None, false))
            },
            0x53 => match self.exec_opfp(raw) {
                Some(()) => Ok((None, false)),
                None => Err(ill),
            },
            _ => Err(ill),
        }
    }
}

} // verus!
