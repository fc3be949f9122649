//! What the floating-point operations mean: the encoding of IEEE 754 read
//! field by field, the value of a pattern, and what each operation gives in
//! terms of the values of its operands.

use vstd::arithmetic::div_mod::lemma_fundamental_div_mod_converse;
use vstd::arithmetic::power2::{lemma2_to64, lemma2_to64_rest, lemma_pow2_pos, pow2};
use vstd::prelude::*;

use crate::fpu::{
    class_of, compared, fma_of, is_nan, is_snan, mag_of, minmax_of, neg_of, of_format, op2_of,
    quiet, sign_injected,
};
use crate::rounding::{
    distance, inexact_results_differ, magnitudes_order_as_values, rounding_is_correct,
};
use crate::softfloat::{
    abs_of, finished, fused_of, in_range, product_of, quotient_of, round_mag, signed, sum_of, units,
    with_sign, Fmt, Op2, Rm,
};

verus! {

/// How many fractions a format tells apart.
pub open spec fn fractions(f: Fmt) -> nat {
    match f {
        Fmt::Single => 0x80_0000,
        Fmt::Double => 0x10_0000_0000_0000,
    }
}

/// How many exponents a format tells apart.
pub open spec fn exponents(f: Fmt) -> nat {
    match f {
        Fmt::Single => 256,
        Fmt::Double => 2048,
    }
}

#[verifier::opaque]
pub open spec fn fraction(f: Fmt, b: nat) -> nat {
    b % fractions(f)
}

#[verifier::opaque]
pub open spec fn exponent(f: Fmt, b: nat) -> nat {
    (b / fractions(f)) % exponents(f)
}

/// The topmost bit.
#[verifier::opaque]
pub open spec fn negative(f: Fmt, b: nat) -> bool {
    (b / (fractions(f) * exponents(f))) % 2 == 1
}

#[verifier::opaque]
pub open spec fn nan(f: Fmt, b: nat) -> bool {
    exponent(f, b) == exponents(f) - 1 && fraction(f, b) != 0
}

/// A NaN whose topmost fraction bit is clear.
#[verifier::opaque]
pub open spec fn signalling(f: Fmt, b: nat) -> bool {
    nan(f, b) && fraction(f, b) < fractions(f) / 2
}

#[verifier::opaque]
pub open spec fn infinite(f: Fmt, b: nat) -> bool {
    exponent(f, b) == exponents(f) - 1 && fraction(f, b) == 0
}

#[verifier::opaque]
pub open spec fn finite(f: Fmt, b: nat) -> bool {
    exponent(f, b) < exponents(f) - 1
}

#[verifier::opaque]
pub open spec fn zero(f: Fmt, b: nat) -> bool {
    exponent(f, b) == 0 && fraction(f, b) == 0
}

/// The NaN that operations give: positive, quiet, with no payload.
pub open spec fn canonical_nan(f: Fmt, b: nat) -> bool {
    nan(f, b) && !negative(f, b) && fraction(f, b) == fractions(f) / 2 && b < 2 * fractions(f)
        * exponents(f)
}

/// The absolute value of a pattern that is not a NaN, in units of the least
/// positive value; an infinity counts as the power of two that follows the
/// greatest finite value.
#[verifier::opaque]
pub open spec fn size(f: Fmt, b: nat) -> nat {
    if exponent(f, b) == 0 {
        fraction(f, b)
    } else {
        (fractions(f) + fraction(f, b)) * pow2((exponent(f, b) - 1) as nat)
    }
}

/// The value of a pattern that is not a NaN, in the same units.
#[verifier::opaque]
pub open spec fn amount(f: Fmt, b: nat) -> int {
    if negative(f, b) {
        -(size(f, b) as int)
    } else {
        size(f, b) as int
    }
}

/// The fields of a pattern that is put together of a sign and a magnitude.
pub proof fn lemma_signed_pattern(f: Fmt, neg: bool, m: nat)
    requires
        m < f.sign(),
    ensures
        ({
            let b = with_sign(f, neg, m);
            &&& b < 2 * f.sign()
            &&& negative(f, b) == neg
            &&& fraction(f, b) == m % fractions(f)
            &&& exponent(f, b) == m / fractions(f)
            &&& size(f, b) == units(f, m)
            &&& amount(f, b) == signed(neg, units(f, m))
            &&& nan(f, b) == (m > f.inf())
            &&& infinite(f, b) == (m == f.inf())
            &&& finite(f, b) == (m < f.inf())
            &&& zero(f, b) == (m == 0)
            &&& signalling(f, b) == (f.inf() < m < f.inf() + f.min_normal() / 2)
        }),
{
    lemma2_to64();
    lemma2_to64_rest();
    reveal(fraction);
    reveal(exponent);
    reveal(negative);
    reveal(nan);
    reveal(signalling);
    reveal(infinite);
    reveal(finite);
    reveal(zero);
    reveal(size);
    reveal(amount);
    let b = with_sign(f, neg, m);
    let p = fractions(f);
    assert(pow2(f.frac()) == p);
    match f {
        Fmt::Single => {
            assert(b % 0x80_0000 == m % 0x80_0000);
            assert((b / 0x80_0000) % 256 == m / 0x80_0000);
            assert((b / 0x8000_0000) % 2 == (if neg {
                1int
            } else {
                0
            }));
        },
        Fmt::Double => {
            assert(b % 0x10_0000_0000_0000 == m % 0x10_0000_0000_0000);
            assert((b / 0x10_0000_0000_0000) % 2048 == m / 0x10_0000_0000_0000);
            assert((b / 0x8000_0000_0000_0000) % 2 == (if neg {
                1int
            } else {
                0
            }));
        },
    }
    if m < p {
        assert(m / p == 0 && m % p == m);
    } else {
        assert(m / p >= 1);
    }
}

/// The fields of an operand.
pub proof fn lemma_fields(f: Fmt, a: u64)
    requires
        of_format(f, a),
    ensures
        mag_of(f, a) < f.sign(),
        a == with_sign(f, neg_of(f, a), mag_of(f, a)),
        negative(f, a as nat) == neg_of(f, a),
        size(f, a as nat) == units(f, mag_of(f, a)),
        amount(f, a as nat) == signed(neg_of(f, a), units(f, mag_of(f, a))),
        nan(f, a as nat) == is_nan(f, a),
        signalling(f, a as nat) == is_snan(f, a),
        infinite(f, a as nat) == (mag_of(f, a) == f.inf()),
        finite(f, a as nat) == (mag_of(f, a) < f.inf()),
        zero(f, a as nat) == (mag_of(f, a) == 0),
        fraction(f, a as nat) == mag_of(f, a) % fractions(f),
        exponent(f, a as nat) == mag_of(f, a) / fractions(f),
{
    lemma_signed_pattern(f, neg_of(f, a), mag_of(f, a));
}

/// The sign of a value and the order of two, by their magnitudes.
proof fn lemma_order(f: Fmt, a: u64, b: u64)
    requires
        of_format(f, a),
        of_format(f, b),
    ensures
        ({
            let (x, y) = (amount(f, a as nat), amount(f, b as nat));
            let (i, j) = (
                signed(neg_of(f, a), mag_of(f, a)),
                signed(neg_of(f, b), mag_of(f, b)),
            );
            &&& x < y <==> i < j
            &&& x == y <==> i == j
            &&& x == 0 <==> i == 0
        }),
{
    lemma_fields(f, a);
    lemma_fields(f, b);
    let (m, n) = (mag_of(f, a), mag_of(f, b));
    crate::rounding::magnitudes_order_as_values(f, m, n);
    crate::rounding::magnitudes_order_as_values(f, m, 0);
    crate::rounding::magnitudes_order_as_values(f, n, 0);
    assert(units(f, 0) == 0) by {
        lemma_pow2_pos(f.frac());
    }
}

/// The minimum and the maximum are one of the operands, the lesser or the
/// greater by value; among zeros the negative one is the lesser. A NaN gives
/// way to the other operand, two give the canonical one, and only a signalling
/// one raises the invalid flag.
#[verifier::rlimit(50)]
pub proof fn min_and_max_by_value(f: Fmt, a: u64, b: u64, is_max: bool)
    requires
        of_format(f, a),
        of_format(f, b),
    ensures
        ({
            let (r, fl) = minmax_of(f, a, b, is_max);
            let (x, y) = (a as nat, b as nat);
            &&& nan(f, x) && nan(f, y) ==> canonical_nan(f, r)
            &&& nan(f, x) && !nan(f, y) ==> r == y
            &&& !nan(f, x) && nan(f, y) ==> r == x
            &&& !nan(f, x) && !nan(f, y) && is_max ==> amount(f, r) >= amount(f, x) && amount(f, r)
                >= amount(f, y)
            &&& !nan(f, x) && !nan(f, y) && !is_max ==> amount(f, r) <= amount(f, x) && amount(
                f,
                r,
            ) <= amount(f, y)
            &&& !nan(f, x) && !nan(f, y) && !(zero(f, x) && zero(f, y)) ==> r == x || r == y
            &&& zero(f, x) && zero(f, y) ==> zero(f, r) && (negative(f, r) <==> !is_max && (
            negative(f, x) || negative(f, y)))
            &&& fl == (if signalling(f, x) || signalling(f, y) {
                0x10u32
            } else {
                0
            })
        }),
{
    lemma_fields(f, a);
    lemma_fields(f, b);
    lemma_order(f, a, b);
    lemma_canonical(f);
    lemma_signed_pattern(f, false, 0);
    lemma_signed_pattern(f, true, 0);
    assert(units(f, 0) == 0) by {
        lemma_pow2_pos(f.frac());
    }
}

/// The comparisons go by value, and so take the two zeros as equal; a NaN is
/// neither equal to, less than nor greater than anything. An ordering raises
/// the invalid flag for every NaN, equality for a signalling one.
pub proof fn comparisons_go_by_value(f: Fmt, a: u64, b: u64)
    requires
        of_format(f, a),
        of_format(f, b),
    ensures
        ({
            let (x, y) = (a as nat, b as nat);
            let ordered = !nan(f, x) && !nan(f, y);
            let (le, lt, eq) = (compared(f, a, b, 0), compared(f, a, b, 1), compared(f, a, b, 2));
            &&& le matches Some(v) && v.0 == (ordered && amount(f, x) <= amount(f, y)) && v.1 == (
            if ordered {
                0u32
            } else {
                0x10
            })
            &&& lt matches Some(v) && v.0 == (ordered && amount(f, x) < amount(f, y)) && v.1 == (
            if ordered {
                0u32
            } else {
                0x10
            })
            &&& eq matches Some(v) && v.0 == (ordered && amount(f, x) == amount(f, y)) && v.1 == (
            if signalling(f, x) || signalling(f, y) {
                0x10u32
            } else {
                0
            })
        }),
        forall|sel: u32| sel > 2 ==> #[trigger] compared(f, a, b, sel) is None,
{
    lemma_fields(f, a);
    lemma_fields(f, b);
    lemma_order(f, a, b);
}

/// The class of a pattern is one bit of ten, from minus infinity up to the
/// quiet NaN.
pub proof fn classes_partition_the_patterns(f: Fmt, a: u64)
    requires
        of_format(f, a),
    ensures
        ({
            let x = a as nat;
            let c = class_of(f, a);
            let (neg, normal) = (negative(f, x), finite(f, x) && exponent(f, x) != 0);
            let subnormal = exponent(f, x) == 0 && fraction(f, x) != 0;
            &&& c == 1 <==> infinite(f, x) && neg
            &&& c == 2 <==> normal && neg
            &&& c == 4 <==> subnormal && neg
            &&& c == 8 <==> zero(f, x) && neg
            &&& c == 16 <==> zero(f, x) && !neg
            &&& c == 32 <==> subnormal && !neg
            &&& c == 64 <==> normal && !neg
            &&& c == 128 <==> infinite(f, x) && !neg
            &&& c == 256 <==> signalling(f, x)
            &&& c == 512 <==> nan(f, x) && !signalling(f, x)
        }),
{
    lemma_fields(f, a);
    let m = mag_of(f, a);
    lemma_subnormal(f, m);
}

/// The magnitudes below the first fraction's end have exponent zero.
proof fn lemma_subnormal(f: Fmt, m: nat)
    ensures
        m / fractions(f) == 0 <==> m < fractions(f),
        m < fractions(f) ==> m % fractions(f) == m,
{
    let p = fractions(f) as int;
    if m < p {
        lemma_fundamental_div_mod_converse(m as int, p, 0, m as int);
    } else {
        vstd::arithmetic::div_mod::lemma_div_non_zero(m as int, p);
    }
}

/// Sign injection keeps the first operand's exponent and fraction and gives it
/// the second one's sign, its opposite, or the exclusive or of both signs.
pub proof fn sign_injection_keeps_the_size(f: Fmt, a: u64, b: u64)
    requires
        of_format(f, a),
        of_format(f, b),
    ensures
        ({
            let (x, y) = (a as nat, b as nat);
            let (j, n, e) = (
                sign_injected(f, a, b, 0),
                sign_injected(f, a, b, 1),
                sign_injected(f, a, b, 2),
            );
            &&& j matches Some(r) && same_size(f, r, x) && negative(f, r) == negative(f, y)
            &&& n matches Some(r) && same_size(f, r, x) && negative(f, r) == !negative(f, y)
            &&& e matches Some(r) && same_size(f, r, x) && negative(f, r) == (negative(f, x)
                != negative(f, y))
        }),
        forall|sel: u32| sel > 2 ==> #[trigger] sign_injected(f, a, b, sel) is None,
{
    lemma_fields(f, a);
    lemma_fields(f, b);
    lemma_signed_pattern(f, true, mag_of(f, a));
    lemma_signed_pattern(f, false, mag_of(f, a));
}

/// Two patterns of a format that differ in their sign at most.
pub open spec fn same_size(f: Fmt, r: nat, x: nat) -> bool {
    &&& r < 2 * fractions(f) * exponents(f)
    &&& exponent(f, r) == exponent(f, x)
    &&& fraction(f, r) == fraction(f, x)
}

// ---------------------------------------------------------------------------
// Rounded results.
// ---------------------------------------------------------------------------

/// Whether a pattern is one of the format and no NaN.
pub open spec fn number(f: Fmt, b: nat) -> bool {
    b < 2 * fractions(f) * exponents(f) && !nan(f, b)
}

/// Whether `r` stands for `num / den` rounded to nearest: no number of the
/// format is nearer, and of two that are as near it is the one whose fraction
/// is even.
#[verifier::opaque]
pub open spec fn nearest(f: Fmt, r: nat, num: int, den: nat) -> bool {
    &&& number(f, r)
    &&& forall|n: nat|
        #![trigger amount(f, n)]
        number(f, n) ==> {
            let (near, far) = (distance(amount(f, r) * den, num), distance(amount(f, n) * den, num));
            near <= far && (near == far && amount(f, n) != amount(f, r) ==> fraction(f, r) % 2 == 0)
        }
}

/// Whether `r` stands for `num / den` rounded downward: it is the greatest
/// number that is not greater, or minus infinity below all.
#[verifier::opaque]
pub open spec fn downward(f: Fmt, r: nat, num: int, den: nat) -> bool {
    &&& number(f, r)
    &&& if finite(f, r) {
        amount(f, r) * den <= num
    } else {
        negative(f, r)
    }
    &&& forall|n: nat|
        #![trigger amount(f, n)]
        number(f, n) && finite(f, n) && amount(f, n) * den <= num ==> amount(f, n) <= amount(f, r)
}

/// Whether `r` stands for `num / den` rounded upward.
#[verifier::opaque]
pub open spec fn upward(f: Fmt, r: nat, num: int, den: nat) -> bool {
    &&& number(f, r)
    &&& if finite(f, r) {
        amount(f, r) * den >= num
    } else {
        !negative(f, r)
    }
    &&& forall|n: nat|
        #![trigger amount(f, n)]
        number(f, n) && finite(f, n) && amount(f, n) * den >= num ==> amount(f, n) >= amount(f, r)
}

/// Whether `r` stands for `num / den` rounded in one of the modes that have a
/// direction: toward zero is downward above zero and upward below it.
pub open spec fn directed(f: Fmt, r: nat, num: int, den: nat, rm: Rm) -> bool {
    &&& rm == Rm::Rdn ==> downward(f, r, num, den)
    &&& rm == Rm::Rup ==> upward(f, r, num, den)
    &&& rm == Rm::Rtz && num >= 0 ==> downward(f, r, num, den)
    &&& rm == Rm::Rtz && num <= 0 ==> upward(f, r, num, den)
}

/// A pattern, as sign and magnitude.
proof fn lemma_pattern(f: Fmt, n: nat)
    requires
        number(f, n),
    ensures
        ({
            let (neg, m) = (n >= f.sign(), (n % f.sign()) as nat);
            &&& n == with_sign(f, neg, m)
            &&& m <= f.inf()
            &&& amount(f, n) == signed(neg, units(f, m))
            &&& finite(f, n) == (m < f.inf())
        }),
{
    let (neg, m) = (n >= f.sign(), (n % f.sign()) as nat);
    match f {
        Fmt::Single => {
            assert(n < 0x1_0000_0000);
            assert(m == n - if neg {
                0x8000_0000int
            } else {
                0
            });
        },
        Fmt::Double => {
            assert(n < 0x1_0000_0000_0000_0000);
            assert(m == n - if neg {
                0x8000_0000_0000_0000int
            } else {
                0
            });
        },
    }
    lemma_signed_pattern(f, neg, m);
}

/// A result with its sign.
pub open spec fn rounded(f: Fmt, neg: bool, num: nat, den: nat, rm: Rm) -> nat {
    with_sign(f, neg, in_range(f, round_mag(f, num, den, neg, rm), neg, rm))
}

/// The product with a divisor keeps the order.
proof fn lemma_scaled(a: nat, b: nat, den: nat)
    requires
        den > 0,
    ensures
        a <= b <==> a * den <= b * den,
        a < b <==> a * den < b * den,
        a == b <==> a * den == b * den,
        a * den >= 0,
{
    assert(a <= b <==> a * den <= b * den) by (nonlinear_arith)
        requires
            den > 0,
    ;
    assert(a < b <==> a * den < b * den) by (nonlinear_arith)
        requires
            den > 0,
    ;
}

proof fn lemma_negated(u: nat, den: nat)
    ensures
        (-(u as int)) * den == -(u * den),
{
    assert((-(u as int)) * den == -(u * den)) by (nonlinear_arith);
}

/// Rounding to nearest, of magnitudes.
#[verifier::rlimit(50)]
pub proof fn lemma_nearest(f: Fmt, neg: bool, num: nat, den: nat)
    requires
        den > 0,
    ensures
        nearest(f, rounded(f, neg, num, den, Rm::Rne), signed(neg, num), den),
{
    reveal(nearest);
    let rm = Rm::Rne;
    let m = round_mag(f, num, den, neg, rm);
    let out = in_range(f, m, neg, rm);
    let r = with_sign(f, neg, out);
    lemma_signed_pattern(f, neg, out);
    lemma_negated(units(f, out), den);
    assert(fractions(f) % 2 == 0);
    assert forall|n: nat|
        #![trigger amount(f, n)]
        number(f, n) implies {
        let (near, far) = (
            distance(amount(f, r) * den, signed(neg, num)),
            distance(amount(f, n) * den, signed(neg, num)),
        );
        near <= far && (near == far && amount(f, n) != amount(f, r) ==> fraction(f, r) % 2 == 0)
    } by {
        lemma_pattern(f, n);
        let (nneg, k) = (n >= f.sign(), (n % f.sign()) as nat);
        lemma_negated(units(f, k), den);
        let (um, uo, uk, ui) = (units(f, m), units(f, out), units(f, k), units(f, f.inf()));
        rounding_is_correct(f, num, den, neg, rm, k);
        rounding_is_correct(f, num, den, neg, rm, 0);
        rounding_is_correct(f, num, den, neg, rm, f.inf());
        magnitudes_order_as_values(f, m, f.inf());
        magnitudes_order_as_values(f, k, f.inf());
        magnitudes_order_as_values(f, m, k);
        magnitudes_order_as_values(f, m, 0);
        lemma_scaled(um, ui, den);
        lemma_scaled(ui, um, den);
        lemma_scaled(uk, ui, den);
        lemma_scaled(uk, um, den);
        assert(units(f, 0) == 0) by {
            lemma_pow2_pos(f.frac());
        }
        lemma_scaled(0, uk, den);
        lemma_scaled(0, um, den);
        lemma_even(f, out);
        lemma_even(f, m);
    }
}

/// A fraction is as even as its magnitude.
proof fn lemma_even(f: Fmt, m: nat)
    ensures
        (m % fractions(f)) % 2 == m % 2,
        f.inf() % 2 == 0,
{
}

/// Rounding in a direction, of magnitudes.
#[verifier::rlimit(50)]
pub proof fn lemma_directed(f: Fmt, neg: bool, num: nat, den: nat, rm: Rm)
    requires
        den > 0,
        num > 0,
        rm == Rm::Rdn || rm == Rm::Rup || rm == Rm::Rtz,
    ensures
        directed(f, rounded(f, neg, num, den, rm), signed(neg, num), den, rm),
{
    reveal(downward);
    reveal(upward);
    let m = round_mag(f, num, den, neg, rm);
    let out = in_range(f, m, neg, rm);
    let r = with_sign(f, neg, out);
    lemma_signed_pattern(f, neg, out);
    lemma_negated(units(f, out), den);
    let (um, uo, ui) = (units(f, m), units(f, out), units(f, f.inf()));
    magnitudes_order_as_values(f, m, f.inf());
    magnitudes_order_as_values(f, out, m);
    lemma_scaled(um, ui, den);
    lemma_scaled(uo, um, den);
    rounding_is_correct(f, num, den, neg, rm, f.inf());
    assert forall|n: nat| #![trigger amount(f, n)] number(f, n) && finite(f, n) implies {
        let (x, a, b) = (signed(neg, num), amount(f, n), amount(f, r));
        &&& rm == Rm::Rdn || (rm == Rm::Rtz && !neg) ==> (a * den <= x ==> a <= b)
        &&& rm == Rm::Rup || (rm == Rm::Rtz && neg) ==> (a * den >= x ==> a >= b)
    } by {
        lemma_pattern(f, n);
        let k = (n % f.sign()) as nat;
        let uk = units(f, k);
        lemma_negated(uk, den);
        rounding_is_correct(f, num, den, neg, rm, k);
        magnitudes_order_as_values(f, k, m);
        magnitudes_order_as_values(f, k, out);
        magnitudes_order_as_values(f, k, f.inf());
        lemma_scaled(uk, um, den);
        lemma_scaled(uk, uo, den);
        lemma_scaled(0, uk, den);
        lemma_scaled(0, um, den);
    }
}

/// The exact value of an operation on two numbers, as a fraction in units of
/// the least positive value.
pub open spec fn exact(f: Fmt, a: nat, b: nat, op: Op2) -> (int, nat) {
    let (x, y) = (amount(f, a), amount(f, b));
    // Units to one.
    let one = pow2(
        match f {
            Fmt::Single => 149,
            Fmt::Double => 1074,
        },
    );
    match op {
        Op2::Add => (x + y, 1),
        Op2::Sub => (x - y, 1),
        Op2::Mul => (x * y, one),
        Op2::Div => (
            if y < 0 {
                -(x * one)
            } else {
                x * one
            },
            abs_of(y),
        ),
    }
}

/// The sign of a zero that an operation gives.
pub open spec fn zero_is_negative(f: Fmt, a: nat, b: nat, op: Op2) -> bool {
    match op {
        Op2::Add => negative(f, a) && negative(f, b),
        Op2::Sub => negative(f, a) && !negative(f, b),
        _ => negative(f, a) != negative(f, b),
    }
}

/// The sum, difference, product and quotient of two finite numbers is the
/// exact one rounded: to nearest, and in a direction where that was asked for
/// (of doubles, and of quotients, where the result to nearest is a normal
/// number). A zero has its own rule of signs. The flags tell how it was rounded
/// to nearest.
#[verifier::rlimit(50)]
pub proof fn results_are_rounded(f: Fmt, a: u64, b: u64, op: Op2, rm: Rm)
    requires
        of_format(f, a),
        of_format(f, b),
        finite(f, a as nat),
        finite(f, b as nat),
        op == Op2::Div ==> !zero(f, b as nat),
    ensures
        ({
            let (num, den) = exact(f, a as nat, b as nat, op);
            let near = op2_of(f, a, b, op, Rm::Rne).0;
            let r = op2_of(f, a, b, op, rm).0;
            &&& den > 0
            &&& num == 0 ==> zero(f, r) && negative(f, r) == zero_is_negative(
                f,
                a as nat,
                b as nat,
                op,
            )
            &&& num != 0 ==> nearest(f, near, num, den)
            &&& flags_tell(f, near, op2_of(f, a, b, op, Rm::Rne).1, num, den)
            &&& rm == Rm::Rmm ==> r == near
            &&& num != 0 && ((f == Fmt::Single && op != Op2::Div) || (finite(f, near) && exponent(
                f,
                near,
            ) != 0)) ==> directed(f, r, num, den, rm)
        }),
{
    lemma_fields(f, a);
    lemma_fields(f, b);
    match op {
        Op2::Add | Op2::Sub => lemma_sum(f, a, b, op, rm),
        Op2::Mul => lemma_product(f, a, b, rm),
        Op2::Div => lemma_quotient(f, a, b, rm),
    }
}

/// What is owed where the exact result is a fraction.
spec fn owed(
    f: Fmt,
    op: Op2,
    num: int,
    den: nat,
    near: (nat, u32),
    r: nat,
    minus: bool,
    rm: Rm,
) -> bool {
    &&& den > 0
    &&& flags_tell(f, near.0, near.1, num, den)
    &&& num == 0 ==> zero(f, r) && negative(f, r) == minus
    &&& num != 0 ==> nearest(f, near.0, num, den)
    &&& rm == Rm::Rmm ==> r == near.0
    &&& num != 0 && ((f == Fmt::Single && op != Op2::Div) || (finite(f, near.0) && exponent(f, near.0)
        != 0)) ==> directed(f, r, num, den, rm)
}

#[verifier::rlimit(60)]
proof fn lemma_sum(f: Fmt, a: u64, b: u64, op: Op2, rm: Rm)
    requires
        of_format(f, a),
        of_format(f, b),
        mag_of(f, a) < f.inf(),
        mag_of(f, b) < f.inf(),
        op == Op2::Add || op == Op2::Sub,
    ensures
        ({
            let (num, den) = exact(f, a as nat, b as nat, op);
            let near = op2_of(f, a, b, op, Rm::Rne);
            let r = op2_of(f, a, b, op, rm).0;
            owed(f, op, num, den, near, r, zero_is_negative(f, a as nat, b as nat, op), rm)
        }),
{
    lemma_fields(f, a);
    lemma_fields(f, b);
    let (na, nb) = (neg_of(f, a), neg_of(f, b) != (op == Op2::Sub));
    let (ma, mb) = (mag_of(f, a), mag_of(f, b));
    let s = signed(na, units(f, ma)) + signed(nb, units(f, mb));
    assert(exact(f, a as nat, b as nat, op) == (s, 1nat));
    lemma_added(f, op, na, ma, nb, mb, rm);
    lemma_added(f, op, na, ma, nb, mb, Rm::Rne);
    assert(op2_of(f, a, b, op, rm) == sum_of(f, op, na, ma, nb, mb, rm));
    assert(op2_of(f, a, b, op, Rm::Rne) == sum_of(f, op, na, ma, nb, mb, Rm::Rne));
    if s != 0 {
        lemma_owed(f, op, s, 1, zero_is_negative(f, a as nat, b as nat, op), rm);
    } else {
        lemma_signed_pattern(f, na && nb, 0);
        assert(units(f, 0) == 0) by {
            lemma_pow2_pos(f.frac());
        }
    }
}

proof fn lemma_owed(f: Fmt, op: Op2, num: int, den: nat, minus: bool, rm: Rm)
    requires
        num != 0,
        den > 0,
    ensures
        owed(
            f,
            op,
            num,
            den,
            finished(f, op, num < 0, abs_of(num), den, Rm::Rne),
            finished(f, op, num < 0, abs_of(num), den, rm).0,
            minus,
            rm,
        ),
{
    lemma_finished(f, op, num < 0, abs_of(num), den, rm);
    assert(signed(num < 0, abs_of(num)) == num);
}

proof fn lemma_added(f: Fmt, op: Op2, na: bool, a: nat, nb: bool, b: nat, rm: Rm)
    ensures
        ({
            let s = signed(na, units(f, a)) + signed(nb, units(f, b));
            sum_of(f, op, na, a, nb, b, rm) == (if s == 0 {
                (with_sign(f, na && nb, 0), 0u32)
            } else {
                finished(f, op, s < 0, abs_of(s), 1, rm)
            })
        }),
{
    reveal(sum_of);
}

#[verifier::rlimit(50)]
proof fn lemma_product(f: Fmt, a: u64, b: u64, rm: Rm)
    requires
        of_format(f, a),
        of_format(f, b),
        mag_of(f, a) < f.inf(),
        mag_of(f, b) < f.inf(),
    ensures
        ({
            let (num, den) = exact(f, a as nat, b as nat, Op2::Mul);
            let near = op2_of(f, a, b, Op2::Mul, Rm::Rne);
            let r = op2_of(f, a, b, Op2::Mul, rm).0;
            owed(f, Op2::Mul, num, den, near, r, zero_is_negative(f, a as nat, b as nat, Op2::Mul), rm)
        }),
{
    reveal(product_of);
    lemma_fields(f, a);
    lemma_fields(f, b);
    lemma_signed_pattern(f, false, 0);
    lemma_signed_pattern(f, true, 0);
    assert(units(f, 0) == 0) by {
        lemma_pow2_pos(f.frac());
    }
    assert(forall|d: nat| #[trigger] (0 * d) == 0);
    lemma_pow2_pos(f.unit());
    let (na, nb) = (neg_of(f, a), neg_of(f, b));
    let (ua, ub) = (units(f, mag_of(f, a)), units(f, mag_of(f, b)));
    lemma_sign_of_product(na, ua, nb, ub);
    assert(exact(f, a as nat, b as nat, Op2::Mul) == (signed(na != nb, ua * ub), pow2(f.unit())));
    if ua * ub != 0 {
        lemma_finished(f, Op2::Mul, na != nb, ua * ub, pow2(f.unit()), rm);
    }
}

#[verifier::rlimit(50)]
proof fn lemma_quotient(f: Fmt, a: u64, b: u64, rm: Rm)
    requires
        of_format(f, a),
        of_format(f, b),
        mag_of(f, a) < f.inf(),
        0 < mag_of(f, b) < f.inf(),
    ensures
        ({
            let (num, den) = exact(f, a as nat, b as nat, Op2::Div);
            let near = op2_of(f, a, b, Op2::Div, Rm::Rne);
            let r = op2_of(f, a, b, Op2::Div, rm).0;
            owed(f, Op2::Div, num, den, near, r, zero_is_negative(f, a as nat, b as nat, Op2::Div), rm)
        }),
{
    reveal(quotient_of);
    lemma_fields(f, a);
    lemma_fields(f, b);
    lemma_signed_pattern(f, false, 0);
    lemma_signed_pattern(f, true, 0);
    assert(units(f, 0) == 0) by {
        lemma_pow2_pos(f.frac());
    }
    assert(forall|d: nat| #[trigger] (0 * d) == 0);
    lemma_pow2_pos(f.unit());
    let (na, nb) = (neg_of(f, a), neg_of(f, b));
    let (ua, ub) = (units(f, mag_of(f, a)), units(f, mag_of(f, b)));
    magnitudes_order_as_values(f, mag_of(f, b), 0);
    let one = pow2(f.unit());
    lemma_sign_of_product(na, ua, false, one);
    assert(exact(f, a as nat, b as nat, Op2::Div) == (signed(na != nb, ua * one), ub));
    if ua != 0 {
        lemma_finished(f, Op2::Div, na != nb, ua * one, ub, rm);
    } else {
        assert(0 * ub == 0);
        assert(amount(f, op2_of(f, a, b, Op2::Div, Rm::Rne).0) == 0);
    }
}

pub proof fn lemma_sign_of_product(na: bool, a: nat, nb: bool, b: nat)
    ensures
        signed(na, a) * signed(nb, b) == signed(na != nb, a * b),
        a * b == 0 <==> a == 0 || b == 0,
{
    let (x, y) = (a as int, b as int);
    assert((-x) * (-y) == x * y && (-x) * y == -(x * y) && x * (-y) == -(x * y)) by (nonlinear_arith);
    assert(a * b == 0 <==> a == 0 || b == 0) by (nonlinear_arith);
}

/// A result that is not zero.
#[verifier::rlimit(50)]
proof fn lemma_finished(f: Fmt, op: Op2, neg: bool, num: nat, den: nat, rm: Rm)
    requires
        den > 0,
        num > 0,
    ensures
        ({
            let near = finished(f, op, neg, num, den, Rm::Rne).0;
            let r = finished(f, op, neg, num, den, rm).0;
            &&& nearest(f, near, signed(neg, num), den)
            &&& flags_tell(
                f,
                near,
                finished(f, op, neg, num, den, Rm::Rne).1,
                signed(neg, num),
                den,
            )
            &&& rm == Rm::Rmm ==> r == near
            &&& (f == Fmt::Single && op != Op2::Div) || (finite(f, near) && exponent(f, near) != 0)
                ==> directed(f, r, signed(neg, num), den, rm)
        }),
{
    lemma_nearest(f, neg, num, den);
    lemma_flags(f, op, neg, num, den);
    let m = round_mag(f, num, den, neg, Rm::Rne);
    let out = in_range(f, m, neg, Rm::Rne);
    lemma_signed_pattern(f, neg, out);
    assert(finished(f, op, neg, num, den, Rm::Rne).0 == rounded(f, neg, num, den, Rm::Rne));
    if rm == Rm::Rdn || rm == Rm::Rup || rm == Rm::Rtz {
        lemma_directed(f, neg, num, den, rm);
    }
    if finite(f, with_sign(f, neg, out)) && exponent(f, with_sign(f, neg, out)) != 0 {
        assert(out == m);
        assert(m >= f.min_normal());
    }
}

/// Operands that are not finite: a NaN gives the canonical one; so do, with the
/// invalid flag, the difference of two infinities, a zero times an infinity,
/// and the quotient of two zeros or two infinities. An infinity else stays one
/// and makes a quotient zero; a number over zero is an infinity, with the flag
/// for that.
#[verifier::rlimit(50)]
pub proof fn infinities_and_nans(f: Fmt, a: u64, b: u64, op: Op2, rm: Rm)
    requires
        of_format(f, a),
        of_format(f, b),
    ensures
        ({
            let (x, y) = (a as nat, b as nat);
            let (r, fl) = op2_of(f, a, b, op, rm);
            let sum = op == Op2::Add || op == Op2::Sub;
            let ysign = negative(f, y) != (op == Op2::Sub);
            let invalid = {
                ||| sum && infinite(f, x) && infinite(f, y) && negative(f, x) != ysign
                ||| op == Op2::Mul && zero(f, x) && infinite(f, y)
                ||| op == Op2::Mul && infinite(f, x) && zero(f, y)
                ||| op == Op2::Div && zero(f, x) && zero(f, y)
                ||| op == Op2::Div && infinite(f, x) && infinite(f, y)
            };
            let some_nan = nan(f, x) || nan(f, y);
            &&& some_nan || invalid ==> canonical_nan(f, r)
            &&& some_nan ==> fl == (if signalling(f, x) || signalling(f, y) {
                16u32
            } else {
                0
            })
            &&& invalid ==> fl == 16
            &&& !some_nan && !invalid ==> {
                &&& sum && infinite(f, x) ==> infinite(f, r) && negative(f, r) == negative(f, x)
                    && fl == 0
                &&& sum && infinite(f, y) ==> infinite(f, r) && negative(f, r) == ysign && fl == 0
                &&& op == Op2::Mul && (infinite(f, x) || infinite(f, y)) ==> infinite(f, r)
                    && negative(f, r) == (negative(f, x) != negative(f, y)) && fl == 0
                &&& op == Op2::Div && infinite(f, x) ==> infinite(f, r) && negative(f, r) == (
                negative(f, x) != negative(f, y)) && fl == 0
                &&& op == Op2::Div && infinite(f, y) ==> zero(f, r) && negative(f, r) == (negative(
                    f,
                    x,
                ) != negative(f, y)) && fl == 0
                &&& op == Op2::Div && finite(f, x) && zero(f, y) ==> infinite(f, r) && negative(
                    f,
                    r,
                ) == (negative(f, x) != negative(f, y)) && fl == 8
            }
        }),
{
    lemma_fields(f, a);
    lemma_fields(f, b);
    lemma_signed_pattern(f, false, 0);
    lemma_signed_pattern(f, true, 0);
    lemma_signed_pattern(f, false, f.inf());
    lemma_signed_pattern(f, true, f.inf());
    lemma_canonical(f);
}

pub proof fn lemma_canonical(f: Fmt)
    ensures
        canonical_nan(f, quiet(f)),
{
    lemma_signed_pattern(f, false, quiet(f));
    lemma_fundamental_div_mod_converse(
        quiet(f) as int,
        fractions(f) as int,
        exponents(f) - 1,
        (fractions(f) / 2) as int,
    );
}

/// What the flags of a rounded result tell: overflow where it is infinite,
/// nothing where it is exact, and else that it is not, with underflow where it
/// is subnormal.
pub open spec fn flags_tell(f: Fmt, r: nat, fl: u32, num: int, den: nat) -> bool {
    &&& infinite(f, r) ==> fl == 5
    &&& finite(f, r) && amount(f, r) * den == num ==> fl == 0
    &&& finite(f, r) && amount(f, r) * den != num && exponent(f, r) == 0 ==> fl == 3
    &&& finite(f, r) && amount(f, r) * den != num && exponent(f, r) != 0 ==> fl == 1
}

proof fn lemma_flags(f: Fmt, op: Op2, neg: bool, num: nat, den: nat)
    requires
        num > 0,
        den > 0,
    ensures
        ({
            let (r, fl) = finished(f, op, neg, num, den, Rm::Rne);
            flags_tell(f, r, fl, signed(neg, num), den)
        }),
{
    let m = round_mag(f, num, den, neg, Rm::Rne);
    let out = in_range(f, m, neg, Rm::Rne);
    lemma_signed_pattern(f, neg, out);
    lemma_negated(units(f, out), den);
    inexact_results_differ(f, num, den, neg, Rm::Rne);
    lemma_flag_sums(0);
}

proof fn lemma_flag_sums(x: u32)
    by (bit_vector)
    ensures
        4u32 | 1u32 == 5,
        1u32 | 2u32 == 3,
        x | 0 == x,
{
}

/// A fused multiplication and addition of finite numbers rounds once: the exact
/// product, with its sign turned where that is asked for, plus the addend, with
/// its sign turned where that is, is rounded to nearest.
#[verifier::rlimit(50)]
pub proof fn fused_results_are_rounded_once(
    f: Fmt,
    a: u64,
    b: u64,
    c: u64,
    neg_prod: bool,
    neg_add: bool,
)
    requires
        of_format(f, a),
        of_format(f, b),
        of_format(f, c),
        finite(f, a as nat),
        finite(f, b as nat),
        finite(f, c as nat),
    ensures
        ({
            let one = pow2(
                match f {
                    Fmt::Single => 149,
                    Fmt::Double => 1074,
                },
            );
            let product = amount(f, a as nat) * amount(f, b as nat);
            let addend = amount(f, c as nat) * one;
            let sum = (if neg_prod {
                -product
            } else {
                product
            }) + (if neg_add {
                -addend
            } else {
                addend
            });
            let minus = (negative(f, a as nat) != negative(f, b as nat)) != neg_prod;
            let (r, fl) = fma_of(f, a, b, c, neg_prod, neg_add);
            &&& sum != 0 ==> nearest(f, r, sum, one)
            &&& sum == 0 ==> zero(f, r) && fl == 0 && negative(f, r) == (minus && negative(
                f,
                c as nat,
            ) != neg_add)
        }),
{
    lemma_fields(f, a);
    lemma_fields(f, b);
    lemma_fields(f, c);
    lemma_signed_pattern(f, false, 0);
    lemma_signed_pattern(f, true, 0);
    lemma_pow2_pos(f.unit());
    let one = pow2(f.unit());
    let (na, nb, nc) = (neg_of(f, a), neg_of(f, b), neg_of(f, c));
    let (ma, mb, mc) = (mag_of(f, a), mag_of(f, b), mag_of(f, c));
    let (ua, ub, uc) = (units(f, ma), units(f, mb), units(f, mc));
    lemma_sign_of_product(na, ua, nb, ub);
    lemma_sign_of_product(nc, uc, false, one);
    let np = (na != nb) != neg_prod;
    let s = signed(np, ua * ub) + signed(nc != neg_add, uc * one);
    lemma_fused(f, np, ma, mb, nc != neg_add, mc);
    assert(fma_of(f, a, b, c, neg_prod, neg_add) == fused_of(f, np, ma, mb, nc != neg_add, mc));
    if s != 0 {
        lemma_nearest(f, s < 0, abs_of(s), one);
        assert(signed(s < 0, abs_of(s)) == s);
    }
}

proof fn lemma_fused(f: Fmt, np: bool, a: nat, b: nat, nc: bool, c: nat)
    ensures
        ({
            let one = pow2(f.unit());
            let s = signed(np, units(f, a) * units(f, b)) + signed(nc, units(f, c) * one);
            &&& s != 0 ==> fused_of(f, np, a, b, nc, c).0 == rounded(
                f,
                s < 0,
                abs_of(s),
                one,
                Rm::Rne,
            )
            &&& s == 0 ==> fused_of(f, np, a, b, nc, c) == (with_sign(f, np && nc, 0), 0u32)
        }),
{
    reveal(fused_of);
}

} // verus!
