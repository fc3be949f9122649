//! What rounding is: among the values of a format, which one stands for an
//! exact result. Everything here speaks of values, not of how they are found.

use vstd::arithmetic::div_mod::{lemma_fundamental_div_mod, lemma_fundamental_div_mod_converse};
use vstd::arithmetic::power2::{lemma_pow2_adds, lemma_pow2_pos, lemma_pow2_unfold, pow2};
use vstd::prelude::*;

use crate::softfloat::{
    excess, floor_sqrt, inexact, lemma_bitlen, lemma_floor_sqrt, quantum, root_mag, round_mag,
    units, Fmt, Rm,
};

verus! {

/// Patterns are ordered as the values that they stand for: the next pattern is
/// a greater value.
proof fn lemma_next_is_greater(f: Fmt, m: nat)
    ensures
        units(f, m) < units(f, m + 1),
{
    let p = pow2(f.frac());
    lemma_pow2_pos(f.frac());
    if m + 1 < p {
    } else if m < p {
        // The first normal value follows the last subnormal one.
        assert(m + 1 == p);
        lemma_fundamental_div_mod_converse((m + 1) as int, p as int, 1, 0);
        assert(pow2(0) == 1) by {
            vstd::arithmetic::power2::lemma2_to64();
        }
        assert((p + 0) * pow2(0) == p) by (nonlinear_arith)
            requires
                pow2(0) == 1,
        ;
    } else {
        let (q, r) = (m / p, m % p);
        lemma_fundamental_div_mod(m as int, p as int);
        assert(p * q == q * p) by (nonlinear_arith);
        let e = (q - 1) as nat;
        assert(q >= 1) by (nonlinear_arith)
            requires
                m == p * q + r,
                r < p,
                m >= p,
                p > 0,
                q >= 0,
        ;
        lemma_pow2_pos(e);
        if r + 1 < p {
            lemma_fundamental_div_mod_converse((m + 1) as int, p as int, q as int, (r + 1) as int);
            assert((p + r) * pow2(e) < (p + r + 1) * pow2(e)) by (nonlinear_arith)
                requires
                    pow2(e) > 0,
            ;
        } else {
            assert((q + 1) * p == q * p + p) by (nonlinear_arith);
            lemma_fundamental_div_mod_converse((m + 1) as int, p as int, (q + 1) as int, 0);
            lemma_pow2_unfold(q as nat);
            assert((p + r) * pow2(e) < (p + 0) * pow2(q as nat)) by (nonlinear_arith)
                requires
                    pow2(q as nat) == 2 * pow2(e),
                    pow2(e) > 0,
                    r < p,
            ;
        }
    }
}

proof fn lemma_greater(f: Fmt, m: nat, n: nat)
    requires
        m < n,
    ensures
        units(f, m) < units(f, n),
    decreases n,
{
    lemma_next_is_greater(f, (n - 1) as nat);
    if m < n - 1 {
        lemma_greater(f, m, (n - 1) as nat);
    }
}

/// A greater magnitude is a greater value.
pub proof fn magnitudes_order_as_values(f: Fmt, m: nat, n: nat)
    ensures
        m < n <==> units(f, m) < units(f, n),
        m == n <==> units(f, m) == units(f, n),
{
    if m < n {
        lemma_greater(f, m, n);
    } else if n < m {
        lemma_greater(f, n, m);
    }
}

/// The value of a magnitude, by its quantum and significand.
proof fn lemma_units_at(f: Fmt, k: nat, t: nat)
    requires
        k == 0 || pow2(f.frac()) <= t,
        t <= 2 * pow2(f.frac()),
    ensures
        units(f, k * pow2(f.frac()) + t) == t * pow2(k),
{
    let p = pow2(f.frac());
    lemma_pow2_pos(f.frac());
    vstd::arithmetic::power2::lemma2_to64();
    let m = k * p + t;
    if t < p {
        assert(m == t) by (nonlinear_arith)
            requires
                m == k * p + t,
                k == 0,
        ;
        assert(t * 1 == t);
    } else if t < 2 * p {
        assert((k + 1) * p == k * p + p) by (nonlinear_arith);
        lemma_fundamental_div_mod_converse(m as int, p as int, (k + 1) as int, (t - p) as int);
        assert(m >= p) by (nonlinear_arith)
            requires
                m == k * p + t,
                t >= p,
        ;
    } else {
        assert((k + 2) * p == k * p + 2 * p) by (nonlinear_arith);
        lemma_fundamental_div_mod_converse(m as int, p as int, (k + 2) as int, 0);
        assert(m >= p) by (nonlinear_arith)
            requires
                m == k * p + t,
                t >= p,
        ;
        lemma_pow2_unfold(k + 1);
        assert((p + 0) * pow2(k + 1) == t * pow2(k)) by (nonlinear_arith)
            requires
                t == 2 * p,
                pow2(k + 1) == 2 * pow2(k),
        ;
    }
}

/// The magnitude just at or below `num / den` units.
pub open spec fn below(f: Fmt, num: nat, den: nat) -> nat {
    let k = quantum(f, num, den);
    k * pow2(f.frac()) + num / (den * pow2(k))
}

/// An exact value lies between two neighbouring values of the format, and
/// the remainder of the division tells where.
#[verifier::rlimit(50)]
proof fn lemma_below(f: Fmt, num: nat, den: nat)
    requires
        den > 0,
    ensures
        ({
            let k = quantum(f, num, den);
            let d = den * pow2(k);
            let m = below(f, num, den);
            &&& d > 0
            &&& units(f, m) * den + num % d == num
            &&& units(f, m + 1) * den == units(f, m) * den + d
            &&& num % d < d
        }),
{
    let p = pow2(f.frac());
    let k = quantum(f, num, den);
    let q = num / den;
    let d = den * pow2(k);
    lemma_pow2_pos(k);
    lemma_pow2_pos(f.frac());
    assert(d > 0) by (nonlinear_arith)
        requires
            den > 0,
            pow2(k) > 0,
            d == den * pow2(k),
    ;
    let t = num / d;
    let two = 2 * p;
    lemma_pow2_unfold(f.frac() + 1);
    vstd::arithmetic::div_mod::lemma_div_denominator(num as int, den as int, pow2(k) as int);
    assert(t == q / pow2(k));
    let l = crate::softfloat::bitlen(q);
    if q > 0 {
        lemma_bitlen(q);
    }
    if k == 0 {
        vstd::arithmetic::power2::lemma2_to64();
        assert(t == q);
        if q > 0 && l < f.frac() + 1 {
            vstd::arithmetic::power2::lemma_pow2_strictly_increases(l, f.frac() + 1);
        }
        assert(t < two);
    } else {
        assert(l == f.frac() + 1 + k);
        lemma_pow2_adds(f.frac(), k);
        lemma_pow2_adds(f.frac() + 1, k);
        assert(p * pow2(k) <= q < two * pow2(k));
        lemma_fundamental_div_mod(q as int, pow2(k) as int);
        assert(p <= t < two) by (nonlinear_arith)
            requires
                p * pow2(k) <= q < two * pow2(k),
                q == pow2(k) * t + q % pow2(k),
                0 <= q % pow2(k) < pow2(k),
                pow2(k) > 0,
        ;
    }
    lemma_units_at(f, k, t);
    lemma_units_at(f, k, t + 1);
    assert(k * p + (t + 1) == (k * p + t) + 1);
    lemma_fundamental_div_mod(num as int, d as int);
    assert((t * pow2(k)) * den == d * t) by (nonlinear_arith)
        requires
            d == den * pow2(k),
    ;
    assert(((t + 1) * pow2(k)) * den == d * t + d) by (nonlinear_arith)
        requires
            d == den * pow2(k),
    ;
}

/// The distance of two numbers.
pub open spec fn distance(a: int, b: int) -> int {
    if a < b {
        b - a
    } else {
        a - b
    }
}

/// Rounding gives a neighbour of the exact value: no value of the format lies
/// strictly between the two. Toward zero it is the one that is no greater;
/// upward and downward go by the sign; to nearest no value of the format is
/// nearer, and of two that are as near it is the even one, or the greater one
/// where ties go away from zero.
#[verifier::rlimit(50)]
pub proof fn rounding_is_correct(f: Fmt, num: nat, den: nat, neg: bool, rm: Rm, n: nat)
    requires
        den > 0,
    ensures
        ({
            let m = round_mag(f, num, den, neg, rm);
            let (at, x) = ((units(f, m) * den) as int, num as int);
            let other = (units(f, n) * den) as int;
            // A neighbour.
            &&& !(at < other < x) && !(x < other < at)
            &&& other == x ==> at == x
            // The directions.
            &&& rm == Rm::Rtz ==> at <= x
            &&& rm == Rm::Rdn ==> (if neg {
                at >= x
            } else {
                at <= x
            })
            &&& rm == Rm::Rup ==> (if neg {
                at <= x
            } else {
                at >= x
            })
            // To nearest.
            &&& rm == Rm::Rne || rm == Rm::Rmm ==> distance(at, x) <= distance(other, x)
            &&& rm == Rm::Rne && m != n && distance(at, x) == distance(other, x) ==> m % 2 == 0
            &&& rm == Rm::Rmm && m != n && distance(at, x) == distance(other, x) ==> m > n
        }),
{
    let k = quantum(f, num, den);
    let p = pow2(f.frac());
    let d = den * pow2(k);
    let t = num / d;
    let low = below(f, num, den);
    lemma_below(f, num, den);
    lemma_pow2_pos(k);
    magnitudes_order_as_values(f, n, low);
    magnitudes_order_as_values(f, n, low + 1);
    let (un, ul, uh) = (units(f, n), units(f, low), units(f, low + 1));
    assert(un <= ul ==> un * den <= ul * den) by (nonlinear_arith)
        requires
            den > 0,
    ;
    assert(un < ul ==> un * den < ul * den) by (nonlinear_arith)
        requires
            den > 0,
    ;
    assert(un >= uh ==> un * den >= uh * den) by (nonlinear_arith)
        requires
            den > 0,
    ;
    assert(un > uh ==> un * den > uh * den) by (nonlinear_arith)
        requires
            den > 0,
    ;
    // A quantum's significand is as even as the magnitude.
    lemma_pow2_unfold(f.frac());
    assert((k * p) % 2 == 0) by {
        let h = pow2((f.frac() - 1) as nat);
        assert(k * p == 2 * (k * h)) by (nonlinear_arith)
            requires
                p == 2 * h,
        ;
    }
    assert(low % 2 == t % 2);
}

/// A result is exact where it is not called inexact, and only there.
pub proof fn inexact_results_differ(f: Fmt, num: nat, den: nat, neg: bool, rm: Rm)
    requires
        den > 0,
    ensures
        inexact(f, num, den) <==> units(f, round_mag(f, num, den, neg, rm)) * den != num,
        inexact(f, num, den) <==> forall|n: nat| #[trigger] units(f, n) * den != num,
{
    lemma_below(f, num, den);
    if inexact(f, num, den) {
        assert forall|n: nat| #[trigger] units(f, n) * den != num by {
            rounding_is_correct(f, num, den, neg, Rm::Rtz, n);
        }
    } else {
        assert(units(f, below(f, num, den)) * den == num);
    }
}

/// A square root is rounded to nearest: the exact root lies on this side of the
/// middle between the result and any other value of the format, and where it
/// lies in the middle the result is even. It is exact where its square is the
/// operand.
#[verifier::rlimit(50)]
pub proof fn square_roots_are_nearest(f: Fmt, a: nat, n: nat)
    ensures
        ({
            let x = units(f, a) * pow2(f.unit());
            let (m, nx) = root_mag(f, a);
            let sum = units(f, m) + units(f, n);
            &&& n > m ==> 4 * x <= sum * sum
            &&& n < m ==> 4 * x >= sum * sum
            &&& n != m && 4 * x == sum * sum ==> m % 2 == 0
            &&& nx <==> units(f, m) * units(f, m) != x
        }),
{
    let x = units(f, a) * pow2(f.unit());
    let s = floor_sqrt(x);
    let p = pow2(f.frac());
    let k = excess(crate::softfloat::bitlen(s) as int, f.frac() + 1);
    let t = s / pow2(k);
    let low = k * p + t;
    lemma_floor_sqrt(x);
    lemma_below(f, s, 1);
    assert(s / 1 == s);
    assert(1 * pow2(k) == pow2(k));
    assert(quantum(f, s, 1) == k);
    assert(below(f, s, 1) == low);
    let (l, h) = (units(f, low), units(f, low + 1));
    assert(l * 1 == l && h * 1 == h);
    assert(l <= s < h);
    assert(h == l + pow2(k));
    lemma_pow2_pos(k);
    lemma_fundamental_div_mod(s as int, pow2(k) as int);
    assert(l == t * pow2(k)) by {
        assert(pow2(k) * t == t * pow2(k)) by (nonlinear_arith);
    }
    let mid = (2 * t + 1) * pow2(k);
    assert(mid == l + h) by (nonlinear_arith)
        requires
            mid == (2 * t + 1) * pow2(k),
            l == t * pow2(k),
            h == l + pow2(k),
    ;
    assert(l * l <= x) by (nonlinear_arith)
        requires
            0 <= l <= s,
            s * s <= x,
    ;
    assert(x < h * h) by (nonlinear_arith)
        requires
            s + 1 <= h,
            x < (s + 1) * (s + 1),
    ;
    lemma_pow2_unfold(f.frac());
    assert((k * p) % 2 == 0) by {
        let q = pow2((f.frac() - 1) as nat);
        assert(k * p == 2 * (k * q)) by (nonlinear_arith)
            requires
                p == 2 * q,
        ;
    }
    assert(low % 2 == t % 2);
    assert(4 * (l * l) < mid * mid) by (nonlinear_arith)
        requires
            mid == l + h,
            l < h,
    ;
    let m = root_mag(f, a).0;
    assert(m == low || m == low + 1);
    if l * l == x {
        assert(m == low);
    }
    let u = units(f, n);
    magnitudes_order_as_values(f, n, low);
    magnitudes_order_as_values(f, n, low + 1);
    assert(u >= h ==> (l + u) * (l + u) >= mid * mid) by (nonlinear_arith)
        requires
            mid == l + h,
    ;
    assert(u < l ==> (l + u) * (l + u) < 4 * (l * l)) by (nonlinear_arith);
    assert(u > h ==> (h + u) * (h + u) > 4 * (h * h)) by (nonlinear_arith);
    assert(u <= l ==> (h + u) * (h + u) <= mid * mid) by (nonlinear_arith)
        requires
            mid == l + h,
    ;
}

} // verus!
