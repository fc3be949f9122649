//! What conversions between numbers give, what a square root is, and which
//! instruction does what with the floating-point registers.

use vstd::arithmetic::power2::{lemma_pow2_adds, lemma_pow2_pos, pow2};
use vstd::prelude::*;

use crate::cpu::{boxed, Hart};
use crate::decode::{funct3_of, funct7_of, rs1_of, rs2_of};
use crate::fpu::{
    arithmetic_of, class_of, compared, conversion_of, kind_of, lemma_box, mag_of, minmax_of,
    move_of, neg_of, of_format, op2_of, opfp_of, rm_of, sign_injected, sqrt_of, to_double_of,
    to_int_of, to_single_of, unboxed, FpResult, IntKind,
};
use crate::numeric::{
    amount, canonical_nan, directed, finite, infinite, lemma_fields, lemma_signed_pattern, nan,
    nearest, negative, rounded, zero,
};
use crate::rounding::distance;
use crate::semantics::{datum, word_signed};
use crate::softfloat::{abs_of, from_int_of, integer_of, signed, units, widened, Fmt, Op2, Rm};

verus! {

/// The least and greatest integers of a kind, and the width of its register.
pub open spec fn bounds(k: IntKind) -> (int, int) {
    match k {
        IntKind::W => (-0x8000_0000, 0x8000_0000 - 1),
        IntKind::Wu => (0, 0x1_0000_0000 - 1),
        IntKind::L => (-0x8000_0000_0000_0000, 0x8000_0000_0000_0000 - 1),
        IntKind::Lu => (0, 0x1_0000_0000_0000_0000 - 1),
    }
}

/// The integer that a register holds.
pub open spec fn integer_in(k: IntKind, x: u64) -> int {
    match k {
        IntKind::W => datum(x, 4, true),
        IntKind::Wu => datum(x, 4, false),
        IntKind::L => datum(x, 8, true),
        IntKind::Lu => x as int,
    }
}

/// A register holds an integer of its kind, and gives it back; a word of either
/// kind is held sign-extended.
pub proof fn registers_hold_integers(k: IntKind, v: int, x: u64)
    requires
        bounds(k).0 <= v <= bounds(k).1,
    ensures
        k.min() == bounds(k).0,
        k.max() == bounds(k).1,
        k.value(x) == integer_in(k, x),
        integer_in(k, k.register(v)) == v,
        k == IntKind::W || k == IntKind::Wu ==> word_signed(k.register(v)) == k.register(v),
{
}

/// The modes and kinds by their numbers; the eighth mode is the one in the
/// control register.
pub proof fn modes_and_kinds_have_numbers(fcsr: u64)
    ensures
        rm_of(fcsr, 0) == Some(Rm::Rne),
        rm_of(fcsr, 1) == Some(Rm::Rtz),
        rm_of(fcsr, 2) == Some(Rm::Rdn),
        rm_of(fcsr, 3) == Some(Rm::Rup),
        rm_of(fcsr, 4) == Some(Rm::Rmm),
        rm_of(fcsr, 5) is None,
        rm_of(fcsr, 6) is None,
        fcsr / 32 % 8 != 7 ==> rm_of(fcsr, 7) == rm_of(0, (fcsr / 32 % 8) as u32),
        fcsr / 32 % 8 == 7 ==> rm_of(fcsr, 7) is None,
        kind_of(0) == Some(IntKind::W),
        kind_of(1) == Some(IntKind::Wu),
        kind_of(2) == Some(IntKind::L),
        kind_of(3) == Some(IntKind::Lu),
        forall|n: u8| n > 3 ==> #[trigger] kind_of(n) is None,
{
}

/// Units to one.
pub open spec fn one(f: Fmt) -> nat {
    pow2(
        match f {
            Fmt::Single => 149,
            Fmt::Double => 1074,
        },
    )
}

/// Whether `v` is `num / den` rounded to an integer.
pub open spec fn rounds_to(num: int, den: nat, v: int, rm: Rm) -> bool {
    &&& rm == Rm::Rdn ==> v * den <= num < (v + 1) * den
    &&& rm == Rm::Rup ==> (v - 1) * den < num <= v * den
    &&& rm == Rm::Rtz && num >= 0 ==> v * den <= num < (v + 1) * den
    &&& rm == Rm::Rtz && num <= 0 ==> (v - 1) * den < num <= v * den
    &&& rm == Rm::Rne || rm == Rm::Rmm ==> 2 * distance(num, v * den) <= den
    &&& rm == Rm::Rne && 2 * distance(num, v * den) == den ==> v % 2 == 0
    &&& rm == Rm::Rmm && 2 * distance(num, v * den) == den ==> distance(v * den, 0) > distance(
        num,
        0,
    )
}

/// A finite number is converted to the integer that it rounds to, or the end of
/// the range that lies nearest, with the invalid flag; where it is not exact a
/// flag tells. An infinity is beyond every integer, and a NaN gives the
/// greatest.
#[verifier::rlimit(50)]
pub proof fn numbers_become_integers(f: Fmt, a: u64, k: IntKind, rm: Rm)
    requires
        of_format(f, a),
    ensures
        ({
            let x = a as nat;
            let (r, fl) = to_int_of(f, a, k, rm);
            let (lo, hi) = bounds(k);
            let got = integer_in(k, r);
            &&& nan(f, x) || (infinite(f, x) && !negative(f, x)) ==> got == hi && fl == 16
            &&& infinite(f, x) && negative(f, x) ==> got == lo && fl == 16
            &&& finite(f, x) ==> exists|v: int|
                #![trigger rounds_to(amount(f, x), one(f), v, rm)]
                {
                    &&& rounds_to(amount(f, x), one(f), v, rm)
                    &&& v < lo ==> got == lo && fl == 16
                    &&& v > hi ==> got == hi && fl == 16
                    &&& lo <= v <= hi ==> got == v && fl == (if v * one(f) == amount(f, x) {
                        0u32
                    } else {
                        1
                    })
                }
        }),
{
    lemma_fields(f, a);
    registers_hold_integers(k, k.min(), 0);
    registers_hold_integers(k, k.max(), 0);
    if finite(f, a as nat) {
        let (neg, m) = (neg_of(f, a), mag_of(f, a));
        let (q, ix) = integer_of(f, m, neg, rm);
        let v = signed(neg, q);
        lemma_integer(units(f, m), one(f), neg, rm, f, m);
        assert(rounds_to(amount(f, a as nat), one(f), v, rm));
        if k.min() <= v <= k.max() {
            registers_hold_integers(k, v, 0);
        }
    }
}

/// Rounding a magnitude to an integer.
#[verifier::rlimit(50)]
proof fn lemma_integer(num: nat, den: nat, neg: bool, rm: Rm, f: Fmt, m: nat)
    requires
        num == units(f, m),
        den == pow2(f.unit()),
    ensures
        ({
            let (q, ix) = integer_of(f, m, neg, rm);
            &&& rounds_to(signed(neg, num), den, signed(neg, q), rm)
            &&& ix <==> signed(neg, q) * den != signed(neg, num)
        }),
{
    lemma_pow2_pos(f.unit());
    let (t, rem) = (num / den, num % den);
    vstd::arithmetic::div_mod::lemma_fundamental_div_mod(num as int, den as int);
    assert(0 <= rem < den) by (nonlinear_arith)
        requires
            den > 0,
            rem == num % den,
    ;
    let q = integer_of(f, m, neg, rm).0;
    assert(den * t == t * den) by (nonlinear_arith);
    assert((t + 1) * den == t * den + den) by (nonlinear_arith);
    assert((t + 2) * den == t * den + 2 * den) by (nonlinear_arith);
    assert((t - 1) * den == t * den - den) by (nonlinear_arith);
    assert((-t) * den == -(t * den)) by (nonlinear_arith);
    assert((-(t + 1)) * den == -(t * den) - den) by (nonlinear_arith);
    assert((-(t + 2)) * den == -(t * den) - 2 * den) by (nonlinear_arith);
    assert((-t + 1) * den == -(t * den) + den) by (nonlinear_arith);
    assert(t * den >= 0) by (nonlinear_arith);
    assert(q == t || q == t + 1);
    if neg {
        assert(signed(neg, q) == -(q as int));
        assert(signed(neg, q) - 1 == -(q + 1));
        assert(signed(neg, q) + 1 == -(q as int) + 1);
    }
}

/// An integer is converted to the number that it rounds to.
pub proof fn integers_become_numbers(f: Fmt, v: int, rm: Rm)
    requires
        -0x8000_0000_0000_0000 <= v < 0x1_0000_0000_0000_0000,
    ensures
        ({
            let num = v * one(f);
            let r = from_int_of(f, v, rm).0;
            &&& v == 0 ==> r == 0
            &&& v != 0 && rm == Rm::Rne ==> nearest(f, r, num, 1)
            &&& v != 0 ==> directed(f, r, num, 1, rm)
        }),
{
    let n = abs_of(v) * one(f);
    lemma_pow2_pos(f.unit());
    crate::numeric::lemma_sign_of_product(v < 0, abs_of(v), false, one(f));
    assert(signed(v < 0, abs_of(v)) == v);
    if v != 0 {
        crate::numeric::lemma_nearest(f, v < 0, n, 1);
        if rm == Rm::Rdn || rm == Rm::Rup || rm == Rm::Rtz {
            crate::numeric::lemma_directed(f, v < 0, n, 1, rm);
        }
        assert(from_int_of(f, v, rm).0 == rounded(f, v < 0, n, 1, rm));
    }
}

/// A double is converted to the single that it rounds to, and a single to the
/// double of its own value; zeros and infinities keep their sign, and a NaN
/// becomes the canonical one.
#[verifier::rlimit(50)]
pub proof fn formats_are_converted_by_value(a: u64, b: u64, rm: Rm)
    requires
        of_format(Fmt::Single, b),
    ensures
        ({
            let (d, s) = (Fmt::Double, Fmt::Single);
            let x = a as nat;
            let (r, fl) = to_single_of(a, rm);
            &&& nan(d, x) ==> canonical_nan(s, r)
            &&& infinite(d, x) ==> infinite(s, r) && negative(s, r) == negative(d, x) && fl == 0
            &&& zero(d, x) ==> zero(s, r) && negative(s, r) == negative(d, x) && fl == 0
            &&& finite(d, x) && !zero(d, x) && rm == Rm::Rne ==> nearest(
                s,
                r,
                amount(d, x),
                pow2(925),
            )
            &&& finite(d, x) && !zero(d, x) ==> directed(s, r, amount(d, x), pow2(925), rm)
        }),
        ({
            let (d, s) = (Fmt::Double, Fmt::Single);
            let y = b as nat;
            let (r, fl) = to_double_of(b);
            &&& nan(s, y) ==> canonical_nan(d, r)
            &&& infinite(s, y) ==> infinite(d, r) && negative(d, r) == negative(s, y) && fl == 0
            &&& finite(s, y) ==> negative(d, r) == negative(s, y) && amount(d, r) == amount(s, y)
                * pow2(925) && fl == 0
        }),
{
    let (d, s) = (Fmt::Double, Fmt::Single);
    lemma_fields(d, a);
    lemma_fields(s, b);
    crate::numeric::lemma_canonical(s);
    crate::numeric::lemma_canonical(d);
    lemma_pow2_pos(925);
    let (na, nb) = (neg_of(d, a), neg_of(s, b));
    lemma_signed_pattern(s, na, 0);
    lemma_signed_pattern(s, na, s.inf());
    lemma_signed_pattern(d, nb, 0);
    lemma_signed_pattern(d, nb, d.inf());
    assert(units(d, 0) == 0 && units(s, 0) == 0) by {
        lemma_pow2_pos(23);
        lemma_pow2_pos(52);
    }
    crate::rounding::magnitudes_order_as_values(d, mag_of(d, a), 0);
    if finite(d, a as nat) && !zero(d, a as nat) {
        let u = units(d, mag_of(d, a));
        crate::numeric::lemma_nearest(s, na, u, pow2(925));
        if rm == Rm::Rdn || rm == Rm::Rup || rm == Rm::Rtz {
            crate::numeric::lemma_directed(s, na, u, pow2(925), rm);
        }
        assert(to_single_of(a, rm).0 == rounded(s, na, u, pow2(925), rm));
    }
    if finite(s, b as nat) {
        lemma_widened(mag_of(s, b), nb);
        assert(0 * pow2(925) == 0);
    }
}

/// A wider format holds the value.
proof fn lemma_widened(m: nat, neg: bool)
    requires
        m < Fmt::Single.inf(),
    ensures
        widened(m) < Fmt::Double.inf(),
        units(Fmt::Double, widened(m)) == units(Fmt::Single, m) * pow2(925),
        ({
            let r = crate::softfloat::with_sign(Fmt::Double, neg, widened(m));
            amount(Fmt::Double, r) == signed(neg, units(Fmt::Single, m)) * pow2(925) && negative(
                Fmt::Double,
                r,
            ) == neg
        }),
{
    let d = Fmt::Double;
    let num = units(Fmt::Single, m) * pow2(925);
    crate::softfloat::widening_is_exact(m);
    crate::rounding::inexact_results_differ(d, num, 1, false, Rm::Rne);
    assert(units(d, widened(m)) * 1 == num);
    lemma_widest(m);
    crate::rounding::magnitudes_order_as_values(d, widened(m), d.inf());
    lemma_signed_pattern(d, neg, widened(m));
    crate::numeric::lemma_sign_of_product(neg, units(Fmt::Single, m), false, pow2(925));
}

/// No single is as great as the doubles go.
proof fn lemma_widest(m: nat)
    requires
        m < Fmt::Single.inf(),
    ensures
        units(Fmt::Single, m) * pow2(925) < units(Fmt::Double, Fmt::Double.inf()),
{
    let (d, s) = (Fmt::Double, Fmt::Single);
    vstd::arithmetic::power2::lemma2_to64();
    vstd::arithmetic::power2::lemma2_to64_rest();
    crate::rounding::magnitudes_order_as_values(s, m, s.inf());
    let (u, top) = (units(s, m), units(s, s.inf()));
    assert(s.inf() / pow2(23) == 255 && s.inf() % pow2(23) == 0);
    assert(d.inf() / pow2(52) == 2047 && d.inf() % pow2(52) == 0);
    lemma_pow2_adds(23, 254);
    lemma_pow2_adds(52, 2046);
    lemma_pow2_adds(277, 925);
    assert(top == pow2(277));
    assert(units(d, d.inf()) == pow2(2098));
    lemma_pow2_pos(925);
    assert(u * pow2(925) < top * pow2(925)) by (nonlinear_arith)
        requires
            u < top,
            pow2(925) > 0,
    ;
    vstd::arithmetic::power2::lemma_pow2_strictly_increases(1202, 2098);
}

/// The register that an instruction's operand is held in, as a pattern of the
/// format: of singles one that is not held as such reads as the canonical NaN.
pub open spec fn operand(f: Fmt, v: u64) -> u64 {
    match f {
        Fmt::Double => v,
        Fmt::Single => if v / 0x1_0000_0000 == 0xffff_ffff {
            v % 0x1_0000_0000
        } else {
            0x7fc0_0000
        },
    }
}

/// A pattern of the format, as a register holds it.
pub open spec fn register(f: Fmt, bits: nat) -> u64 {
    match f {
        Fmt::Double => bits as u64,
        Fmt::Single => (0xffff_ffff_0000_0000 + (bits as u64) % 0x1_0000_0000) as u64,
    }
}

/// A result for a floating-point register.
pub open spec fn gives(o: Option<FpResult>, f: Fmt, r: (nat, u32)) -> bool {
    o == Some(FpResult::F { bits: register(f, r.0), flags: r.1 })
}

/// A result for an integer register.
pub open spec fn gives_integer(o: Option<FpResult>, val: u64, flags: u32) -> bool {
    o == Some(FpResult::X { val, flags })
}

/// Which instruction does what: by the seven bits at the top, of which the
/// lowest two are the format, the three that select among several or hold the
/// rounding mode, and for conversions the second source.
#[verifier::rlimit(50)]
pub proof fn operations_have_their_codes(h: Hart, raw: u32)
    requires
        h.x.len() == 32,
        h.f.len() == 32,
        rs1_of(raw) < 32,
        rs2_of(raw) < 32,
    ensures
        ({
            let (code, sel, second) = (funct7_of(raw), funct3_of(raw), rs2_of(raw));
            let (v1, v2) = (h.f[rs1_of(raw) as int], h.f[second as int]);
            let x = h.x[rs1_of(raw) as int];
            let o = opfp_of(h, raw);
            let f = if code % 4 == 0 {
                Fmt::Single
            } else {
                Fmt::Double
            };
            let (a, b) = (operand(f, v1), operand(f, v2));
            let base = code - code % 4;
            code % 4 > 1 ==> o is None
        }),
        ({
            let (code, sel, second) = (funct7_of(raw), funct3_of(raw), rs2_of(raw));
            let (v1, v2) = (h.f[rs1_of(raw) as int], h.f[second as int]);
            let x = h.x[rs1_of(raw) as int];
            let o = opfp_of(h, raw);
            let f = if code % 4 == 0 {
                Fmt::Single
            } else {
                Fmt::Double
            };
            let (a, b) = (operand(f, v1), operand(f, v2));
            let base = code - code % 4;
            code % 4 <= 1 ==> match rm_of(h.csrs.fcsr, sel) {
                None => base == 0x00 || base == 0x04 || base == 0x08 || base == 0x0c || base == 0x2c
                    || base == 0x20 || base == 0x60 || base == 0x68 ==> o is None,
                Some(rm) => {
                    &&& base == 0x00 ==> gives(o, f, op2_of(f, a, b, Op2::Add, rm))
                    &&& base == 0x04 ==> gives(o, f, op2_of(f, a, b, Op2::Sub, rm))
                    &&& base == 0x08 ==> gives(o, f, op2_of(f, a, b, Op2::Mul, rm))
                    &&& base == 0x0c ==> gives(o, f, op2_of(f, a, b, Op2::Div, rm))
                    &&& base == 0x2c && second == 0 ==> gives(o, f, sqrt_of(f, a))
                    &&& code == 0x20 && second == 1 ==> gives(o, f, to_single_of(v1, rm))
                    &&& code == 0x21 && second == 0 ==> gives(
                        o,
                        f,
                        to_double_of(operand(Fmt::Single, v1)),
                    )
                    &&& base == 0x60 && second == 0 ==> gives_integer(
                        o,
                        to_int_of(f, a, IntKind::W, rm).0,
                        to_int_of(f, a, IntKind::W, rm).1,
                    )
                    &&& base == 0x60 && second == 1 ==> gives_integer(
                        o,
                        to_int_of(f, a, IntKind::Wu, rm).0,
                        to_int_of(f, a, IntKind::Wu, rm).1,
                    )
                    &&& base == 0x60 && second == 2 ==> gives_integer(
                        o,
                        to_int_of(f, a, IntKind::L, rm).0,
                        to_int_of(f, a, IntKind::L, rm).1,
                    )
                    &&& base == 0x60 && second == 3 ==> gives_integer(
                        o,
                        to_int_of(f, a, IntKind::Lu, rm).0,
                        to_int_of(f, a, IntKind::Lu, rm).1,
                    )
                    &&& base == 0x68 && second == 0 ==> gives(
                        o,
                        f,
                        from_int_of(f, datum(x, 4, true), rm),
                    )
                    &&& base == 0x68 && second == 1 ==> gives(
                        o,
                        f,
                        from_int_of(f, datum(x, 4, false), rm),
                    )
                    &&& base == 0x68 && second == 2 ==> gives(
                        o,
                        f,
                        from_int_of(f, datum(x, 8, true), rm),
                    )
                    &&& base == 0x68 && second == 3 ==> gives(o, f, from_int_of(f, x as int, rm))
                },
            }
        }),
        ({
            let (code, sel, second) = (funct7_of(raw), funct3_of(raw), rs2_of(raw));
            let (v1, v2) = (h.f[rs1_of(raw) as int], h.f[second as int]);
            let x = h.x[rs1_of(raw) as int];
            let o = opfp_of(h, raw);
            let f = if code % 4 == 0 {
                Fmt::Single
            } else {
                Fmt::Double
            };
            let (a, b) = (operand(f, v1), operand(f, v2));
            let base = code - code % 4;
            code % 4 <= 1 ==> {
                &&& base == 0x10 ==> match sign_injected(f, a, b, sel) {
                    Some(bits) => o == Some(FpResult::MoveF(register(f, bits))),
                    None => o is None,
                }
                &&& base == 0x14 && sel == 0 ==> gives(o, f, minmax_of(f, a, b, false))
                &&& base == 0x14 && sel == 1 ==> gives(o, f, minmax_of(f, a, b, true))
                &&& base == 0x50 ==> match compared(f, a, b, sel) {
                    Some((true, flags)) => gives_integer(o, 1, flags),
                    Some((false, flags)) => gives_integer(o, 0, flags),
                    None => o is None,
                }
                &&& base == 0x70 && second == 0 && sel == 1 ==> o == Some(
                    FpResult::MoveX(class_of(f, a)),
                )
                &&& code == 0x70 && second == 0 && sel == 0 ==> o == Some(
                    FpResult::MoveX(word_signed(v1)),
                )
                &&& code == 0x71 && second == 0 && sel == 0 ==> o == Some(FpResult::MoveX(v1))
                &&& base == 0x78 && second == 0 && sel == 0 ==> o == Some(
                    FpResult::MoveF(register(f, x as nat)),
                )
            }
        }),
{
    reveal(arithmetic_of);
    reveal(conversion_of);
    reveal(move_of);
    let (code, second) = (funct7_of(raw), rs2_of(raw));
    let (v1, v2) = (h.f[rs1_of(raw) as int], h.f[second as int]);
    lemma_operand(v1);
    lemma_operand(v2);
    let x = h.x[rs1_of(raw) as int];
    registers_hold_integers(IntKind::W, 0, x);
    registers_hold_integers(IntKind::Wu, 0, x);
    registers_hold_integers(IntKind::L, 0, x);
}

pub(crate) proof fn lemma_operand(v: u64)
    ensures
        unboxed(v) == operand(Fmt::Single, v),
        forall|w: u64| #[trigger] boxed(w) == 0xffff_ffff_0000_0000 + w % 0x1_0000_0000,
{
    assert forall|w: u64| #[trigger] boxed(w) == 0xffff_ffff_0000_0000 + w % 0x1_0000_0000 by {
        lemma_box(w);
    }
}

} // verus!
