//! Correctly rounded IEEE-754 arithmetic on bit patterns.
//!
//! Every finite value of a format is a whole number of its smallest
//! subnormal. Exact results are fractions of that unit, and rounding is
//! stated on them.

use vstd::arithmetic::div_mod::{
    lemma_div_denominator, lemma_fundamental_div_mod, lemma_fundamental_div_mod_converse,
};
use vstd::arithmetic::power2::{
    lemma_pow2_adds, lemma_pow2_pos, lemma_pow2_strictly_increases, lemma_pow2_unfold, pow2,
};
use vstd::prelude::*;

verus! {

#[derive(Debug, Clone, Copy, PartialEq, Eq, Structural)]
pub enum Rm {
    /// To nearest, ties to even.
    Rne,
    /// Toward zero.
    Rtz,
    /// Toward minus infinity.
    Rdn,
    /// Toward plus infinity.
    Rup,
    /// To nearest, ties away from zero.
    Rmm,
}

/// A binary interchange format.
#[derive(Debug, Clone, Copy, PartialEq, Eq, Structural)]
pub enum Fmt {
    Single,
    Double,
}

impl Fmt {
    /// Bits of the stored significand.
    pub open spec fn frac(self) -> nat {
        match self {
            Fmt::Single => 23,
            Fmt::Double => 52,
        }
    }

    /// The smallest subnormal is 2 to the minus this.
    pub open spec fn unit(self) -> nat {
        match self {
            Fmt::Single => 149,
            Fmt::Double => 1074,
        }
    }

    /// The magnitude bits of infinity; greater ones are NaNs.
    pub open spec fn inf(self) -> nat {
        match self {
            Fmt::Single => 0x7f80_0000,
            Fmt::Double => 0x7ff0_0000_0000_0000,
        }
    }

    /// The sign bit.
    pub open spec fn sign(self) -> nat {
        match self {
            Fmt::Single => 0x8000_0000,
            Fmt::Double => 0x8000_0000_0000_0000,
        }
    }

    /// The least magnitude of a normal number.
    pub open spec fn min_normal(self) -> nat {
        match self {
            Fmt::Single => 0x80_0000,
            Fmt::Double => 0x10_0000_0000_0000,
        }
    }

    fn frac_bits(self) -> (r: u32)
        ensures
            r == self.frac(),
    {
        match self {
            Fmt::Single => 23,
            Fmt::Double => 52,
        }
    }

    fn unit_bits(self) -> (r: u32)
        ensures
            r == self.unit(),
    {
        match self {
            Fmt::Single => 149,
            Fmt::Double => 1074,
        }
    }

    pub fn inf_bits(self) -> (r: u64)
        ensures
            r == self.inf(),
    {
        match self {
            Fmt::Single => 0x7f80_0000,
            Fmt::Double => 0x7ff0_0000_0000_0000,
        }
    }

    pub fn sign_bit(self) -> (r: u64)
        ensures
            r == self.sign(),
    {
        match self {
            Fmt::Single => 0x8000_0000,
            Fmt::Double => 0x8000_0000_0000_0000,
        }
    }

    pub fn min_normal_bits(self) -> (r: u64)
        ensures
            r == self.min_normal(),
    {
        match self {
            Fmt::Single => 0x80_0000,
            Fmt::Double => 0x10_0000_0000_0000,
        }
    }
}

proof fn lemma_fmt(f: Fmt)
    ensures
        pow2(f.frac()) == f.min_normal(),
        f.min_normal() < f.inf() < f.sign(),
        f.sign() == 2 * pow2(62) || f.sign() == 2 * pow2(30),
{
    vstd::arithmetic::power2::lemma2_to64();
    vstd::arithmetic::power2::lemma2_to64_rest();
}

// ---------------------------------------------------------------------------
// Numbers and bits.
// ---------------------------------------------------------------------------

/// The number of binary digits of `x`.
pub open spec fn bitlen(x: nat) -> nat
    decreases x,
{
    if x == 0 {
        0
    } else {
        1 + bitlen(x / 2)
    }
}

/// By how much `len` exceeds `width`.
pub open spec fn excess(len: int, width: nat) -> nat {
    if len > width {
        (len - width) as nat
    } else {
        0
    }
}

/// The value of a finite magnitude, in units of the smallest subnormal.
pub open spec fn units(f: Fmt, mag: nat) -> nat {
    let p = pow2(f.frac());
    if mag < p {
        mag
    } else {
        (p + mag % p) * pow2((mag / p - 1) as nat)
    }
}

/// Whether a quotient `t` with remainder `rem` of divisor `d` is rounded away
/// from zero.
pub open spec fn rounds_up(t: nat, rem: nat, d: nat, neg: bool, rm: Rm) -> bool {
    match rm {
        Rm::Rne => 2 * rem > d || (2 * rem == d && t % 2 == 1),
        Rm::Rmm => 2 * rem >= d,
        Rm::Rtz => false,
        Rm::Rdn => neg && rem != 0,
        Rm::Rup => !neg && rem != 0,
    }
}

/// The exponent of the quantum at which `num / den` units are rounded.
pub open spec fn quantum(f: Fmt, num: nat, den: nat) -> nat {
    excess(bitlen(num / den) as int, f.frac() + 1)
}

/// The magnitude bits of `num / den` units, rounded. A magnitude at or beyond
/// that of infinity is out of range. The quantum's exponent stands in the
/// exponent field, and a carry out of the significand lands there too.
pub open spec fn round_mag(f: Fmt, num: nat, den: nat, neg: bool, rm: Rm) -> nat {
    let k = quantum(f, num, den);
    let d = den * pow2(k);
    let t = num / d;
    k * pow2(f.frac()) + t + if rounds_up(t, num % d, d, neg, rm) {
        1nat
    } else {
        0
    }
}

/// Whether `num / den` units lie between two values of the format.
pub open spec fn inexact(f: Fmt, num: nat, den: nat) -> bool {
    num % (den * pow2(quantum(f, num, den))) != 0
}

/// The integer square root.
pub open spec fn floor_sqrt(x: nat) -> nat
    decreases x,
{
    if x == 0 {
        0
    } else {
        let r = 2 * floor_sqrt(x / 4);
        if (r + 1) * (r + 1) <= x {
            r + 1
        } else {
            r
        }
    }
}

pub proof fn lemma_bitlen(x: nat)
    requires
        x > 0,
    ensures
        bitlen(x) > 0,
        pow2((bitlen(x) - 1) as nat) <= x < pow2(bitlen(x)),
    decreases x,
{
    if x == 1 {
        assert(bitlen(0) == 0);
        assert(bitlen(1) == 1 + bitlen(0));
        vstd::arithmetic::power2::lemma2_to64();
    } else {
        lemma_bitlen(x / 2);
        lemma_pow2_unfold(bitlen(x));
        lemma_pow2_unfold((bitlen(x) - 1) as nat);
    }
}

/// Shifting right shortens by the shift.
proof fn lemma_bitlen_div(x: nat, s: nat)
    ensures
        bitlen(x / pow2(s)) == (if bitlen(x) > s {
            (bitlen(x) - s) as nat
        } else {
            0
        }),
    decreases s,
{
    lemma_pow2_pos(s);
    if s == 0 {
        vstd::arithmetic::power2::lemma2_to64();
        assert(x / 1 == x);
    } else {
        lemma_bitlen_div(x / 2, (s - 1) as nat);
        lemma_pow2_unfold(s);
        lemma_pow2_pos((s - 1) as nat);
        lemma_div_denominator(x as int, 2, pow2((s - 1) as nat) as int);
        assert(x / pow2(s) == (x / 2) / pow2((s - 1) as nat));
    }
}

/// 2 to the power `k`.
fn pow2_u128(k: u32) -> (r: u128)
    requires
        k < 128,
    ensures
        r == pow2(k as nat),
{
    let mut i: u32 = 0;
    let mut p: u128 = 1;
    proof {
        vstd::arithmetic::power2::lemma2_to64();
        lemma_pow2_127();
    }
    while i < k
        invariant
            i <= k < 128,
            p == pow2(i as nat),
            pow2(127) == 0x8000_0000_0000_0000_0000_0000_0000_0000,
        decreases k - i,
    {
        proof {
            lemma_pow2_unfold((i + 1) as nat);
            if i + 1 < 127 {
                lemma_pow2_strictly_increases((i + 1) as nat, 127);
            }
        }
        p = p * 2;
        i = i + 1;
    }
    p
}

proof fn lemma_pow2_127()
    ensures
        pow2(127) == 0x8000_0000_0000_0000_0000_0000_0000_0000,
        pow2(126) == 0x4000_0000_0000_0000_0000_0000_0000_0000,
        pow2(125) == 0x2000_0000_0000_0000_0000_0000_0000_0000,
        pow2(107) == 0x800_0000_0000_0000_0000_0000_0000,
        pow2(64) == 0x1_0000_0000_0000_0000,
        pow2(53) == 0x20_0000_0000_0000,
        pow2(32) == 0x1_0000_0000,
        pow2(24) == 0x100_0000,
        pow2(16) == 0x1_0000,
        pow2(8) == 0x100,
        pow2(4) == 0x10,
        pow2(2) == 4,
        pow2(1) == 2,
        pow2(0) == 1,
{
    vstd::arithmetic::power2::lemma2_to64();
    vstd::arithmetic::power2::lemma2_to64_rest();
    lemma_pow2_adds(64, 63);
    lemma_pow2_adds(64, 62);
    lemma_pow2_adds(64, 61);
    lemma_pow2_adds(64, 43);
    assert(pow2(63) == 0x8000_0000_0000_0000);
    assert(pow2(62) == 0x4000_0000_0000_0000);
    assert(pow2(61) == 0x2000_0000_0000_0000);
    assert(pow2(43) == 0x800_0000_0000);
}

fn bitlen_u128(x: u128) -> (r: u32)
    ensures
        r == bitlen(x as nat),
        r <= 128,
{
    let mut n: u128 = x;
    let mut c: u32 = 0;
    proof {
        lemma_pow2_127();
        lemma_pow2_unfold(128);
        lemma_bitlen_bound(x as nat, 128);
    }
    while n > 0
        invariant
            bitlen(x as nat) == c + bitlen(n as nat),
            bitlen(x as nat) <= 128,
        decreases n,
    {
        n = n / 2;
        c = c + 1;
    }
    c
}

// ---------------------------------------------------------------------------
// Rounding a truncated value.
// ---------------------------------------------------------------------------

/// The exponent of the quantum of a value that `n` truncates at 2^e units.
pub open spec fn core_quantum(f: Fmt, n: nat, e: int) -> nat {
    excess(bitlen(n) + e, f.frac() + 1)
}

/// Whether a value that `n` truncates is rounded away from zero when `low` of
/// the `c` bits of `n` below the quantum are cut off; `sticky` tells whether
/// anything lies below `n`.
pub open spec fn core_up(
    t: nat,
    low: nat,
    half: nat,
    sticky: bool,
    neg: bool,
    rm: Rm,
) -> bool {
    match rm {
        Rm::Rne => low > half || (low == half && (sticky || t % 2 == 1)),
        Rm::Rmm => low >= half,
        Rm::Rtz => false,
        Rm::Rdn => neg && (low != 0 || sticky),
        Rm::Rup => !neg && (low != 0 || sticky),
    }
}

/// The rounded magnitude bits of a value that `n` truncates at 2^e units.
pub open spec fn core_mag(f: Fmt, n: nat, e: int, sticky: bool, neg: bool, rm: Rm) -> nat {
    let k = core_quantum(f, n, e);
    let c = k - e;
    if c <= 0 {
        k * pow2(f.frac()) + n * pow2((-c) as nat)
    } else {
        let t = n / pow2(c as nat);
        let low = n % pow2(c as nat);
        k * pow2(f.frac()) + t + if core_up(t, low, pow2((c - 1) as nat), sticky, neg, rm) {
            1nat
        } else {
            0
        }
    }
}

/// Whether a value that `n` truncates at 2^e units is not a value of the
/// format.
pub open spec fn core_inexact(f: Fmt, n: nat, e: int, sticky: bool) -> bool {
    let c = core_quantum(f, n, e) - e;
    sticky || (c > 0 && n % pow2(c as nat) != 0)
}

/// `n` keeps enough bits for what it truncates to be rounded.
pub open spec fn enough(f: Fmt, n: nat, e: int, sticky: bool) -> bool {
    sticky ==> bitlen(n) >= f.frac() + 3 || e <= -2
}

fn round_core(f: Fmt, n: u128, e: i32, sticky: bool, neg: bool, rm: Rm) -> (r: (u64, bool))
    requires
        n < pow2(127),
        -3000 <= e <= 3900,
        enough(f, n as nat, e as int, sticky),
        n == 0 ==> e <= 0,
        core_quantum(f, n as nat, e as int) <= 4000,
    ensures
        r.0 == core_mag(f, n as nat, e as int, sticky, neg, rm),
        r.1 == core_inexact(f, n as nat, e as int, sticky),
{
    let fb: u32 = f.frac_bits();
    let len: i32 = bitlen_u128(n) as i32 + e;
    let k: i32 = if len > fb as i32 + 1 {
        len - (fb as i32 + 1)
    } else {
        0
    };
    let c: i32 = k - e;
    let p: u64 = f.min_normal_bits();
    proof {
        lemma_fmt(f);
        lemma_pow2_127();
        lemma_bitlen_bound(n as nat, 127);
        lemma_core_fits(f, n as nat, e as int);
    }
    assert(k * p <= 4000 * 0x10_0000_0000_0000) by (nonlinear_arith)
        requires
            0 <= k <= 4000,
            0 <= p <= 0x10_0000_0000_0000,
    ;
    let base: u64 = k as u64 * p;
    if c <= 0 {
        proof {
            if n == 0 {
                assert(0 * pow2((-c) as nat) == 0);
            }
        }
        let t: u128 = if n == 0 {
            0
        } else {
            mul_pow2(n, (-c) as u32)
        };
        (base + t as u64, sticky)
    } else if c >= 128 {
        proof {
            lemma_pow2_strictly_increases(127, c as nat);
            if c - 1 > 127 {
                lemma_pow2_strictly_increases(127, (c - 1) as nat);
            }
            vstd::arithmetic::div_mod::lemma_basic_div(n as int, pow2(c as nat) as int);
            vstd::arithmetic::div_mod::lemma_small_mod(n as nat, pow2(c as nat));
        }
        let some: bool = sticky || n != 0;
        let up: bool = match rm {
            Rm::Rdn => neg && some,
            Rm::Rup => !neg && some,
            _ => false,
        };
        (
            base + if up {
                1
            } else {
                0
            },
            some,
        )
    } else {
        let q: u128 = pow2_u128(c as u32);
        proof {
            lemma_pow2_pos(c as nat);
        }
        let half: u128 = pow2_u128((c - 1) as u32);
        let t: u128 = n / q;
        let low: u128 = n % q;
        let up: bool = match rm {
            Rm::Rne => low > half || (low == half && (sticky || t % 2 == 1)),
            Rm::Rmm => low >= half,
            Rm::Rtz => false,
            Rm::Rdn => neg && (low != 0 || sticky),
            Rm::Rup => !neg && (low != 0 || sticky),
        };
        (
            base + t as u64 + if up {
                1
            } else {
                0
            },
            sticky || low != 0,
        )
    }
}

proof fn lemma_bitlen_bound(n: nat, b: nat)
    requires
        n < pow2(b),
    ensures
        bitlen(n) <= b,
{
    if n > 0 {
        lemma_bitlen(n);
        if bitlen(n) > b && b < bitlen(n) - 1 {
            lemma_pow2_strictly_increases(b, (bitlen(n) - 1) as nat);
        }
    }
}

/// The kept significand fits in its bits.
proof fn lemma_core_fits(f: Fmt, n: nat, e: int)
    ensures
        ({
            let c = core_quantum(f, n, e) - e;
            if c <= 0 {
                n > 0 ==> n * pow2((-c) as nat) < 2 * f.min_normal()
            } else {
                n / pow2(c as nat) < 2 * f.min_normal()
            }
        }),
{
    let w = f.frac() + 1;
    let c = core_quantum(f, n, e) - e;
    lemma_fmt(f);
    lemma_pow2_unfold(w);
    if n > 0 {
        lemma_bitlen(n);
        if c <= 0 {
            let s = (-c) as nat;
            lemma_pow2_adds(bitlen(n), s);
            lemma_pow2_pos(s);
            assert(n * pow2(s) < pow2(bitlen(n)) * pow2(s)) by (nonlinear_arith)
                requires
                    n < pow2(bitlen(n)),
                    pow2(s) > 0,
            ;
            assert(bitlen(n) + s <= w);
            if bitlen(n) + s < w {
                lemma_pow2_strictly_increases((bitlen(n) + s) as nat, w);
            }
        } else {
            lemma_bitlen_div(n, c as nat);
            let t = n / pow2(c as nat);
            if t > 0 {
                lemma_bitlen(t);
                if bitlen(t) < w {
                    lemma_pow2_strictly_increases(bitlen(t), w);
                }
            }
            lemma_pow2_pos(w);
        }
    } else if c > 0 {
        lemma_pow2_pos(c as nat);
        vstd::arithmetic::div_mod::lemma_basic_div(0, pow2(c as nat) as int);
        lemma_pow2_pos(w);
    }
}

/// `n` times 2 to the power `k`.
fn mul_pow2(n: u128, k: u32) -> (r: u128)
    requires
        n > 0,
        n * pow2(k as nat) < pow2(127),
    ensures
        r == n * pow2(k as nat),
{
    proof {
        lemma_pow2_127();
        lemma_pow2_pos(k as nat);
        assert(pow2(k as nat) <= n * pow2(k as nat)) by (nonlinear_arith)
            requires
                n >= 1,
                pow2(k as nat) > 0,
        ;
        if k > 127 {
            lemma_pow2_strictly_increases(127, k as nat);
        }
    }
    n * pow2_u128(k)
}

/// `num / den` units, truncated at 2^e units, is `n`; `sticky` tells whether
/// that cut anything off.
pub open spec fn truncates(num: nat, den: nat, n: nat, e: int, sticky: bool) -> bool {
    let p = pow2(if e < 0 {
        (-e) as nat
    } else {
        0
    });
    let q = pow2(if e > 0 {
        e as nat
    } else {
        0
    });
    den > 0 && n == (num * p) / (den * q) && sticky == ((num * p) % (den * q) != 0)
}

/// A common factor of dividend and divisor scales the remainder only.
proof fn lemma_scaled_div(a: nat, d: nat, c: nat)
    requires
        d > 0,
        c > 0,
    ensures
        d * c > 0,
        (a * c) / (d * c) == a / d,
        (a * c) % (d * c) == (a % d) * c,
{
    let (q, r) = (a / d, a % d);
    lemma_fundamental_div_mod(a as int, d as int);
    assert(d * c > 0) by (nonlinear_arith)
        requires
            d > 0,
            c > 0,
    ;
    assert(a * c == q * (d * c) + r * c) by (nonlinear_arith)
        requires
            a == d * q + r,
    ;
    assert(0 <= r * c < d * c) by (nonlinear_arith)
        requires
            0 <= r < d,
            c > 0,
    ;
    lemma_fundamental_div_mod_converse((a * c) as int, (d * c) as int, q as int, (r * c) as int);
}

proof fn lemma_same_quantum(f: Fmt, num: nat, den: nat, n: nat, e: int, sticky: bool)
    requires
        truncates(num, den, n, e, sticky),
        n == 0 ==> e <= 0,
    ensures
        quantum(f, num, den) == core_quantum(f, n, e),
{
    let q0 = num / den;
    if e >= 0 {
        let q = pow2(e as nat);
        vstd::arithmetic::power2::lemma2_to64();
        lemma_pow2_pos(e as nat);
        assert(num * 1 == num);
        assert(n == num / (den * q));
        lemma_div_denominator(num as int, den as int, q as int);
        lemma_bitlen_div(q0, e as nat);
    } else {
        let p = pow2((-e) as nat);
        vstd::arithmetic::power2::lemma2_to64();
        lemma_pow2_pos((-e) as nat);
        assert(den * 1 == den);
        assert(n == (num * p) / den);
        lemma_div_denominator((num * p) as int, den as int, p as int);
        lemma_scaled_div(num, den, p);
        assert(n / p == q0);
        lemma_bitlen_div(n, (-e) as nat);
    }
}

/// How the parts of a truncated value compare with half a quantum.
proof fn lemma_half(b: nat, dd: nat, p: nat, low: nat, h: nat, d0: nat, r0: nat)
    requires
        p > 0,
        d0 > 0,
        b * p == low * d0 + r0,
        dd * p == (2 * h) * d0,
        r0 < d0,
    ensures
        2 * b > dd <==> low > h || (low == h && r0 > 0),
        2 * b == dd <==> low == h && r0 == 0,
        b == 0 <==> low == 0 && r0 == 0,
{
    let (x, y) = (2 * b, dd);
    assert((2 * b) * p == 2 * (low * d0 + r0)) by (nonlinear_arith)
        requires
            b * p == low * d0 + r0,
    ;
    if low > h {
        assert(2 * (low * d0 + r0) > (2 * h) * d0) by (nonlinear_arith)
            requires
                low > h,
                d0 > 0,
        ;
    } else if low == h {
        assert(2 * (low * d0 + r0) == (2 * h) * d0 + 2 * r0) by (nonlinear_arith)
            requires
                low == h,
        ;
    } else {
        assert(2 * (low * d0 + r0) < (2 * h) * d0) by (nonlinear_arith)
            requires
                low + 1 <= h,
                r0 < d0,
        ;
    }
    assert(x > y ==> x * p > y * p) by (nonlinear_arith)
        requires
            p > 0,
    ;
    assert(x < y ==> x * p < y * p) by (nonlinear_arith)
        requires
            p > 0,
    ;
    assert(b == 0 <==> b * p == 0) by (nonlinear_arith)
        requires
            p > 0,
    ;
    assert(low * d0 == 0 <==> low == 0) by (nonlinear_arith)
        requires
            d0 > 0,
    ;
}

/// Rounding what truncates a value rounds the value.
proof fn lemma_core_rounds(
    f: Fmt,
    num: nat,
    den: nat,
    n: nat,
    e: int,
    sticky: bool,
    neg: bool,
    rm: Rm,
)
    requires
        truncates(num, den, n, e, sticky),
        enough(f, n, e, sticky),
        n == 0 ==> e <= 0,
    ensures
        core_mag(f, n, e, sticky, neg, rm) == round_mag(f, num, den, neg, rm),
        core_inexact(f, n, e, sticky) == inexact(f, num, den),
{
    lemma_same_quantum(f, num, den, n, e, sticky);
    let k = core_quantum(f, n, e);
    let c = k - e;
    let ep = if e < 0 {
        (-e) as nat
    } else {
        0
    };
    let eq = if e > 0 {
        e as nat
    } else {
        0
    };
    let (p, q, pk) = (pow2(ep), pow2(eq), pow2(k));
    let dd = den * pk;
    let d0 = den * q;
    lemma_pow2_pos(ep);
    lemma_pow2_pos(eq);
    lemma_pow2_pos(k);
    assert(dd > 0 && d0 > 0) by (nonlinear_arith)
        requires
            den > 0,
            pk > 0,
            q > 0,
            dd == den * pk,
            d0 == den * q,
    ;
    lemma_fundamental_div_mod((num * p) as int, d0 as int);
    let r0 = (num * p) % d0;
    assert(num * p == d0 * n + r0);
    if c <= 0 {
        assert(!sticky);
        let s = (-c) as nat;
        vstd::arithmetic::power2::lemma2_to64();
        assert(p == 1);
        lemma_pow2_adds(s, k);
        let t = n * pow2(s);
        assert(q == pow2(s) * pk);
        assert(num == t * dd + 0) by (nonlinear_arith)
            requires
                num * p == d0 * n + r0,
                p == 1,
                r0 == 0,
                d0 == den * q,
                q == pow2(s) * pk,
                dd == den * pk,
                t == n * pow2(s),
        ;
        lemma_fundamental_div_mod_converse(num as int, dd as int, t as int, 0);
    } else {
        let cc = pow2(c as nat);
        let h = pow2((c - 1) as nat);
        lemma_pow2_unfold(c as nat);
        lemma_pow2_pos(c as nat);
        // cc * q == pk * p
        vstd::arithmetic::power2::lemma2_to64();
        if e >= 0 {
            lemma_pow2_adds(c as nat, eq);
            assert(c as nat + eq == k);
            assert(p == 1);
            assert(pk * p == pk) by (nonlinear_arith)
                requires
                    p == 1,
            ;
        } else {
            lemma_pow2_adds(k, ep);
            assert(k + ep == c as nat);
            assert(q == 1);
            assert(cc * q == cc) by (nonlinear_arith)
                requires
                    q == 1,
            ;
        }
        assert(cc * q == pk * p);
        let (t, low) = (n / cc, n % cc);
        lemma_fundamental_div_mod(n as int, cc as int);
        let rest = low * d0 + r0;
        assert(cc * d0 == dd * p) by (nonlinear_arith)
            requires
                cc * q == pk * p,
                d0 == den * q,
                dd == den * pk,
        ;
        assert(num * p == t * (dd * p) + rest) by (nonlinear_arith)
            requires
                num * p == d0 * n + r0,
                n == cc * t + low,
                cc * d0 == dd * p,
                rest == low * d0 + r0,
        ;
        assert(rest < cc * d0) by (nonlinear_arith)
            requires
                rest == low * d0 + r0,
                low + 1 <= cc,
                r0 < d0,
        ;
        lemma_fundamental_div_mod_converse(
            (num * p) as int,
            (dd * p) as int,
            t as int,
            rest as int,
        );
        lemma_scaled_div(num, dd, p);
        assert(cc * d0 == (2 * h) * d0);
        lemma_half(num % dd, dd, p, low, h, d0, r0);
    }
}

/// Round `num / den` units, of which `n` at 2^e units and `sticky` are known.
fn round_to(
    f: Fmt,
    n: u128,
    e: i32,
    sticky: bool,
    neg: bool,
    rm: Rm,
    Ghost(num): Ghost<nat>,
    Ghost(den): Ghost<nat>,
) -> (r: (u64, bool))
    requires
        n < pow2(127),
        -3000 <= e <= 3900,
        truncates(num, den, n as nat, e as int, sticky),
        enough(f, n as nat, e as int, sticky),
        n == 0 ==> e <= 0,
        bitlen(n as nat) + e <= 4000,
    ensures
        r.0 == round_mag(f, num, den, neg, rm),
        r.1 == inexact(f, num, den),
{
    proof {
        lemma_core_rounds(f, num, den, n as nat, e as int, sticky, neg, rm);
    }
    round_core(f, n, e, sticky, neg, rm)
}

// ---------------------------------------------------------------------------
// Taking values apart and adding them.
// ---------------------------------------------------------------------------

/// A finite magnitude as a significand and an exponent, in units.
fn split(f: Fmt, mag: u64) -> (r: (u64, u32))
    requires
        mag < f.inf(),
    ensures
        units(f, mag as nat) == r.0 * pow2(r.1 as nat),
        r.0 < 2 * f.min_normal(),
        r.0 > 0 <==> mag > 0,
        r.1 > 0 ==> r.0 >= f.min_normal(),
        r.1 <= (match f {
            Fmt::Single => 253u32,
            Fmt::Double => 2045u32,
        }),
{
    proof {
        lemma_fmt(f);
        vstd::arithmetic::power2::lemma2_to64();
    }
    let p: u64 = f.min_normal_bits();
    if mag < p {
        assert(mag * pow2(0) == mag) by (nonlinear_arith)
            requires
                pow2(0) == 1,
        ;
        (mag, 0)
    } else {
        let e: u64 = mag / p;
        proof {
            lemma_fundamental_div_mod(mag as int, p as int);
            assert(units(f, mag as nat) == (p + mag % p) * pow2((e - 1) as nat));
        }
        assert(1 <= e && e <= (match f {
            Fmt::Single => 254u64,
            Fmt::Double => 2046u64,
        })) by {
            match f {
                Fmt::Single => {},
                Fmt::Double => {},
            }
        }
        (p + mag % p, (e - 1) as u32)
    }
}

pub open spec fn signed(neg: bool, v: nat) -> int {
    if neg {
        -(v as int)
    } else {
        v as int
    }
}

pub open spec fn abs_of(v: int) -> nat {
    if v < 0 {
        (-v) as nat
    } else {
        v as nat
    }
}

proof fn lemma_scaled_len(n: nat, e: nat, l: nat)
    requires
        n * pow2(e) < pow2(l),
    ensures
        n > 0 ==> bitlen(n) + e <= l,
{
    if n > 0 {
        lemma_bitlen(n);
        let b = (bitlen(n) - 1) as nat;
        lemma_pow2_adds(b, e);
        lemma_pow2_pos(e);
        assert(pow2(b) * pow2(e) <= n * pow2(e)) by (nonlinear_arith)
            requires
                pow2(b) <= n,
                pow2(e) > 0,
        ;
        if b + e >= l && b + e > l {
            lemma_pow2_strictly_increases(l, (b + e) as nat);
        }
    }
}

/// A bound on a scaled number.
proof fn lemma_scaled_bound(m: nat, a: nat, x: nat, l: nat)
    requires
        m < pow2(a),
        a + x <= l,
    ensures
        m * pow2(x) < pow2(l),
{
    lemma_pow2_adds(a, x);
    lemma_pow2_pos(x);
    assert(m * pow2(x) < pow2(a) * pow2(x)) by (nonlinear_arith)
        requires
            m < pow2(a),
            pow2(x) > 0,
    ;
    if a + x < l {
        lemma_pow2_strictly_increases((a + x) as nat, l);
    }
}

/// What `sum_mag` promises of the sum `s`.
spec fn is_sum(s: int, neg: bool, n: nat, e: nat, sticky: bool, top: nat) -> bool {
    &&& n == abs_of(s) / pow2(e)
    &&& sticky == (abs_of(s) % pow2(e) != 0)
    &&& s != 0 ==> neg == (s < 0)
    &&& n == 0 <==> s == 0
    &&& n < pow2(127)
    &&& sticky ==> bitlen(n) >= 100
    &&& bitlen(n) + e <= top
}

/// An exact sum: nothing was cut off.
proof fn lemma_exact_sum(s: int, neg: bool, n: nat, e: nat, top: nat)
    requires
        abs_of(s) == n * pow2(e),
        n > 0 ==> neg == (s < 0),
        n < pow2(127),
        abs_of(s) < pow2(top),
        e <= top,
    ensures
        is_sum(s, neg, n, e, false, top),
{
    lemma_pow2_pos(e);
    assert(n * pow2(e) == 0 <==> n == 0) by (nonlinear_arith)
        requires
            pow2(e) > 0,
    ;
    lemma_fundamental_div_mod_converse(abs_of(s) as int, pow2(e) as int, n as int, 0);
    lemma_scaled_len(n, e, top);
}

/// The sum of two signed scaled numbers: its sign, and its magnitude cut at
/// an exponent that leaves it more than enough bits.
fn sum_mag(m1: u128, x1: u32, s1: bool, m2: u128, x2: u32, s2: bool) -> (r: (bool, u128, u32, bool))
    requires
        m1 < pow2(107),
        m2 < pow2(107),
        x1 <= 5000,
        x2 <= 5000,
    ensures
        r.2 <= 5000,
        is_sum(
            signed(s1, (m1 * pow2(x1 as nat)) as nat) + signed(s2, (m2 * pow2(x2 as nat)) as nat),
            r.0,
            r.1 as nat,
            r.2 as nat,
            r.3,
            (108 + if x1 >= x2 {
                x1
            } else {
                x2
            }) as nat,
        ),
{
    if x1 >= x2 {
        sum_ordered(m1, x1, s1, m2, x2, s2)
    } else {
        sum_ordered(m2, x2, s2, m1, x1, s1)
    }
}

fn sum_ordered(m1: u128, x1: u32, s1: bool, m2: u128, x2: u32, s2: bool) -> (r: (
    bool,
    u128,
    u32,
    bool,
))
    requires
        m1 < pow2(107),
        m2 < pow2(107),
        x2 <= x1 <= 5000,
    ensures
        r.2 <= 5000,
        is_sum(
            signed(s1, (m1 * pow2(x1 as nat)) as nat) + signed(s2, (m2 * pow2(x2 as nat)) as nat),
            r.0,
            r.1 as nat,
            r.2 as nat,
            r.3,
            (108 + x1) as nat,
        ),
{
    let ghost v1 = (m1 * pow2(x1 as nat)) as nat;
    let ghost v2 = (m2 * pow2(x2 as nat)) as nat;
    let ghost s = signed(s1, v1) + signed(s2, v2);
    let ghost top = (108 + x1) as nat;
    proof {
        lemma_pow2_127();
        lemma_pow2_pos(x1 as nat);
        lemma_pow2_pos(x2 as nat);
        lemma_scaled_bound(m1 as nat, 107, x1 as nat, (107 + x1) as nat);
        lemma_scaled_bound(m2 as nat, 107, x2 as nat, (107 + x1) as nat);
        lemma_pow2_unfold(top);
        assert(abs_of(s) < pow2(top));
        assert(v1 >= 0 && v2 >= 0);
        if m1 == 0 {
            assert(0 * pow2(x1 as nat) == 0);
        }
        if m2 == 0 {
            assert(0 * pow2(x2 as nat) == 0);
        }
    }
    if m1 == 0 {
        proof {
            assert(v1 == 0);
            assert(m2 > 0 ==> v2 > 0) by (nonlinear_arith)
                requires
                    v2 == m2 * pow2(x2 as nat),
                    pow2(x2 as nat) > 0,
            ;
            lemma_exact_sum(s, s2, m2 as nat, x2 as nat, top);
        }
        return (s2, m2, x2, false);
    }
    if m2 == 0 {
        proof {
            assert(v2 == 0);
            assert(v1 > 0) by (nonlinear_arith)
                requires
                    v1 == m1 * pow2(x1 as nat),
                    pow2(x1 as nat) > 0,
                    m1 > 0,
            ;
            lemma_exact_sum(s, s1, m1 as nat, x1 as nat, top);
        }
        return (s1, m1, x1, false);
    }
    let d: u32 = x1 - x2;
    let len: u32 = bitlen_u128(m1);
    proof {
        lemma_bitlen(m1 as nat);
        lemma_bitlen_bound(m1 as nat, 107);
    }
    if len + d <= 126 {
        proof {
            lemma_scaled_bound(m1 as nat, len as nat, d as nat, 126);
        }
        let a: u128 = mul_pow2(m1, d);
        proof {
            lemma_pow2_adds(d as nat, x2 as nat);
            let (pd, px) = (pow2(d as nat), pow2(x2 as nat));
            assert(v1 == a * px) by (nonlinear_arith)
                requires
                    v1 == m1 * pow2(x1 as nat),
                    pow2(x1 as nat) == pd * px,
                    a == m1 * pd,
            ;
            assert(v1 + v2 == (a + m2) * px) by (nonlinear_arith)
                requires
                    v1 == a * px,
                    v2 == m2 * px,
            ;
            assert(v1 - v2 == (a - m2) * px) by (nonlinear_arith)
                requires
                    v1 == a * px,
                    v2 == m2 * px,
            ;
            assert(v2 - v1 == (m2 - a) * px) by (nonlinear_arith)
                requires
                    v1 == a * px,
                    v2 == m2 * px,
            ;
            assert(a > m2 ==> (a - m2) * px > 0) by (nonlinear_arith)
                requires
                    px > 0,
            ;
            assert(m2 > a ==> (m2 - a) * px > 0) by (nonlinear_arith)
                requires
                    px > 0,
            ;
            assert((a + m2) * px > 0) by (nonlinear_arith)
                requires
                    px > 0,
                    m2 > 0,
            ;
        }
        let (neg, n): (bool, u128) = if s1 == s2 {
            (s1, a + m2)
        } else if a >= m2 {
            (s1, a - m2)
        } else {
            (s2, m2 - a)
        };
        proof {
            lemma_exact_sum(s, neg, n as nat, x2 as nat, top);
        }
        (neg, n, x2, false)
    } else {
        sum_far(m1, x1, s1, m2, x2, s2, len)
    }
}

/// The sum where the first number is out of reach of the second's low bits.
fn sum_far(
    m1: u128,
    x1: u32,
    s1: bool,
    m2: u128,
    x2: u32,
    s2: bool,
    len: u32,
) -> (r: (bool, u128, u32, bool))
    requires
        0 < m1 < pow2(107),
        0 < m2 < pow2(107),
        x2 <= x1 <= 5000,
        len == bitlen(m1 as nat),
        len + x1 - x2 > 126,
    ensures
        r.2 <= 5000,
        is_sum(
            signed(s1, (m1 * pow2(x1 as nat)) as nat) + signed(s2, (m2 * pow2(x2 as nat)) as nat),
            r.0,
            r.1 as nat,
            r.2 as nat,
            r.3,
            (108 + x1) as nat,
        ),
{
    let ghost v1 = (m1 * pow2(x1 as nat)) as nat;
    let ghost v2 = (m2 * pow2(x2 as nat)) as nat;
    let ghost s = signed(s1, v1) + signed(s2, v2);
    let ghost top = (108 + x1) as nat;
    proof {
        lemma_pow2_127();
        lemma_bitlen(m1 as nat);
        lemma_bitlen_bound(m1 as nat, 107);
        lemma_scaled_bound(m1 as nat, 107, x1 as nat, (107 + x1) as nat);
        lemma_scaled_bound(m2 as nat, 107, x2 as nat, (107 + x1) as nat);
        lemma_pow2_unfold(top);
    }
    let l: u32 = 126 - len;
    let rs: u32 = x1 - x2 - l;
    let e: u32 = x1 - l;
    proof {
        lemma_scaled_bound(m1 as nat, len as nat, l as nat, 126);
        lemma_pow2_adds((len - 1) as nat, l as nat);
        lemma_pow2_pos(l as nat);
        assert(pow2(125) <= m1 * pow2(l as nat)) by (nonlinear_arith)
            requires
                pow2((len - 1) as nat) <= m1,
                pow2((len - 1) as nat) * pow2(l as nat) == pow2(125),
                pow2(l as nat) > 0,
        ;
    }
    let a: u128 = mul_pow2(m1, l);
    let (hi, low): (u128, u128) = if rs >= 128 {
        proof {
            lemma_pow2_strictly_increases(107, rs as nat);
            vstd::arithmetic::div_mod::lemma_basic_div(m2 as int, pow2(rs as nat) as int);
            vstd::arithmetic::div_mod::lemma_small_mod(m2 as nat, pow2(rs as nat));
        }
        (0, m2)
    } else {
        let q: u128 = pow2_u128(rs);
        proof {
            lemma_pow2_pos(rs as nat);
        }
        (m2 / q, m2 % q)
    };
    let ghost (pe, px, pr) = (pow2(e as nat), pow2(x2 as nat), pow2(rs as nat));
    proof {
        lemma_pow2_pos(e as nat);
        lemma_pow2_pos(x2 as nat);
        lemma_pow2_pos(rs as nat);
        lemma_fundamental_div_mod(m2 as int, pr as int);
        lemma_pow2_adds(l as nat, e as nat);
        lemma_pow2_adds(rs as nat, x2 as nat);
        assert(hi <= m2) by {
            vstd::arithmetic::div_mod::lemma_div_nonincreasing(m2 as int, pr as int);
        }
        assert(v1 == a * pe) by (nonlinear_arith)
            requires
                v1 == m1 * pow2(x1 as nat),
                pow2(x1 as nat) == pow2(l as nat) * pe,
                a == m1 * pow2(l as nat),
        ;
        assert(v2 == hi * pe + low * px) by (nonlinear_arith)
            requires
                v2 == m2 * px,
                m2 == pr * hi + low,
                pe == pr * px,
        ;
        assert(low * px < pe) by (nonlinear_arith)
            requires
                low + 1 <= pr,
                pe == pr * px,
                px > 0,
        ;
        assert(low > 0 <==> low * px > 0) by (nonlinear_arith)
            requires
                px > 0,
        ;
        assert((a + hi) * pe == a * pe + hi * pe) by (nonlinear_arith);
        assert((a - hi) * pe == a * pe - hi * pe) by (nonlinear_arith);
        assert((a - hi - 1) * pe == a * pe - hi * pe - pe) by (nonlinear_arith);
        lemma_pow2_strictly_increases(100, 125);
        lemma_pow2_strictly_increases(107, 124);
        lemma_pow2_unfold(125);
    }
    let sticky: bool = low != 0;
    let n: u128 = if s1 == s2 {
        a + hi
    } else if sticky {
        a - hi - 1
    } else {
        a - hi
    };
    proof {
        let r0 = if s1 == s2 {
            low * px
        } else if low > 0 {
            pe - low * px
        } else {
            0
        };
        assert(abs_of(s) == n * pe + r0) by {
            assert((a - hi) * pe > 0) by (nonlinear_arith)
                requires
                    a > hi,
                    pe > 0,
            ;
            assert((a - hi - 1) * pe >= 0) by (nonlinear_arith)
                requires
                    a > hi,
                    pe > 0,
            ;
        }
        lemma_fundamental_div_mod_converse(abs_of(s) as int, pe as int, n as int, r0 as int);
        assert(n >= pow2(124) - pow2(107));
        assert(n * pe > 0) by (nonlinear_arith)
            requires
                n > 0,
                pe > 0,
        ;
        lemma_bitlen(n as nat);
        if bitlen(n as nat) < 100 {
            lemma_pow2_strictly_increases(bitlen(n as nat), 100);
            lemma_pow2_strictly_increases(107, 123);
            lemma_pow2_strictly_increases(100, 123);
            lemma_pow2_unfold(124);
        }
        assert(n * pe < pow2(top));
        lemma_scaled_len(n as nat, e as nat, top);
    }
    (s1, n, e, sticky)
}

// ---------------------------------------------------------------------------
// Arithmetic on finite values.
// ---------------------------------------------------------------------------

/// Inexact.
pub const NX: u32 = 1;

/// Underflow.
pub const UF: u32 = 2;

/// Overflow.
pub const OF: u32 = 4;

/// Division by zero.
pub const DZ: u32 = 8;

/// Invalid operation.
pub const NV: u32 = 16;

#[derive(Debug, Clone, Copy, PartialEq, Eq, Structural)]
pub enum Op2 {
    Add,
    Sub,
    Mul,
    Div,
}

/// The mode in which an arithmetic result is rounded. Ties away from zero are
/// taken to even, and these results are rounded to nearest in every mode:
/// overflow in double precision and of single-precision quotients, and
/// subnormal double-precision products and quotients.
pub open spec fn effective_rm(f: Fmt, op: Op2, num: nat, den: nat, neg: bool, rm: Rm) -> Rm {
    let m = round_mag(f, num, den, neg, Rm::Rne);
    let scaled = op == Op2::Mul || op == Op2::Div;
    if rm == Rm::Rmm {
        Rm::Rne
    } else if f == Fmt::Double && (m >= f.inf() || (scaled && m < f.min_normal())) {
        Rm::Rne
    } else if f == Fmt::Single && op == Op2::Div && m >= f.inf() {
        Rm::Rne
    } else {
        rm
    }
}

/// Whether the mode rounds a value of the given sign toward zero.
pub open spec fn toward_zero(neg: bool, rm: Rm) -> bool {
    rm == Rm::Rtz || (rm == Rm::Rdn && !neg) || (rm == Rm::Rup && neg)
}

/// A rounded magnitude held to the range of the format: beyond it lies
/// infinity, or the greatest finite value where rounding is toward zero.
pub open spec fn in_range(f: Fmt, m: nat, neg: bool, rm: Rm) -> nat {
    if m < f.inf() {
        m
    } else if toward_zero(neg, rm) {
        (f.inf() - 1) as nat
    } else {
        f.inf()
    }
}

/// The bits of a magnitude with a sign.
pub open spec fn with_sign(f: Fmt, neg: bool, mag: nat) -> nat {
    mag + if neg {
        f.sign()
    } else {
        0
    }
}

/// The flags of a result with magnitude `out`: a subnormal or zero one that
/// is inexact has underflowed.
pub open spec fn result_flags(f: Fmt, out: nat, nx: bool) -> u32 {
    if out == f.inf() {
        OF | NX
    } else if nx && out < f.min_normal() {
        NX | UF
    } else if nx {
        NX
    } else {
        0
    }
}

/// The bits and flags of the arithmetic result `num / den` units.
pub open spec fn finished(f: Fmt, op: Op2, neg: bool, num: nat, den: nat, rm: Rm) -> (nat, u32) {
    let eff = effective_rm(f, op, num, den, neg, rm);
    let out = in_range(f, round_mag(f, num, den, neg, eff), neg, eff);
    let nx = inexact(f, num, den) || round_mag(f, num, den, neg, Rm::Rne) >= f.inf();
    (with_sign(f, neg, out), result_flags(f, out, nx))
}

/// A magnitude with a sign.
fn signed_bits(f: Fmt, neg: bool, mag: u64) -> (r: u64)
    requires
        mag <= f.inf(),
    ensures
        r == with_sign(f, neg, mag as nat),
        r <= f.inf() + f.sign(),
{
    if neg {
        mag + f.sign_bit()
    } else {
        mag
    }
}

fn clamp_mag(f: Fmt, m: u64, neg: bool, rm: Rm) -> (r: u64)
    ensures
        r == in_range(f, m as nat, neg, rm),
        r <= f.inf(),
{
    if m < f.inf_bits() {
        m
    } else if rm == Rm::Rtz || (rm == Rm::Rdn && !neg) || (rm == Rm::Rup && neg) {
        f.inf_bits() - 1
    } else {
        f.inf_bits()
    }
}

fn flags_for(f: Fmt, out: u64, nx: bool) -> (r: u32)
    ensures
        r == result_flags(f, out as nat, nx),
{
    if out == f.inf_bits() {
        OF | NX
    } else if nx && out < f.min_normal_bits() {
        NX | UF
    } else if nx {
        NX
    } else {
        0
    }
}

fn finish(
    f: Fmt,
    op: Op2,
    neg: bool,
    n: u128,
    e: i32,
    sticky: bool,
    rm: Rm,
    Ghost(num): Ghost<nat>,
    Ghost(den): Ghost<nat>,
) -> (r: (u64, u32))
    requires
        n < pow2(127),
        -3000 <= e <= 3900,
        truncates(num, den, n as nat, e as int, sticky),
        enough(f, n as nat, e as int, sticky),
        n == 0 ==> e <= 0,
        bitlen(n as nat) + e <= 4000,
    ensures
        (r.0 as nat, r.1) == finished(f, op, neg, num, den, rm),
        r.0 <= f.inf() + f.sign(),
{
    let (m, ix): (u64, bool) = round_to(f, n, e, sticky, neg, Rm::Rne, Ghost(num), Ghost(den));
    let scaled: bool = op == Op2::Mul || op == Op2::Div;
    let over: bool = m >= f.inf_bits();
    let eff = if rm == Rm::Rmm {
        Rm::Rne
    } else if f == Fmt::Double && (over || (scaled && m < f.min_normal_bits())) {
        Rm::Rne
    } else if f == Fmt::Single && op == Op2::Div && over {
        Rm::Rne
    } else {
        rm
    };
    let (m2, _) = round_to(f, n, e, sticky, neg, eff, Ghost(num), Ghost(den));
    let out: u64 = clamp_mag(f, m2, neg, eff);
    (signed_bits(f, neg, out), flags_for(f, out, ix || over))
}

/// The exact sum of two finite values, rounded. An exact zero is positive
/// unless both operands are negative.
#[verifier::opaque]
pub open spec fn sum_of(f: Fmt, op: Op2, na: bool, a: nat, nb: bool, b: nat, rm: Rm) -> (
    nat,
    u32,
) {
    let s = signed(na, units(f, a)) + signed(nb, units(f, b));
    if s == 0 {
        (with_sign(f, na && nb, 0), 0)
    } else {
        finished(f, op, s < 0, abs_of(s), 1, rm)
    }
}

/// The exact product of two finite values, rounded.
#[verifier::opaque]
pub open spec fn product_of(f: Fmt, na: bool, a: nat, nb: bool, b: nat, rm: Rm) -> (nat, u32) {
    let num = units(f, a) * units(f, b);
    if num == 0 {
        (with_sign(f, na != nb, 0), 0)
    } else {
        finished(f, Op2::Mul, na != nb, num, pow2(f.unit()), rm)
    }
}

/// The exact quotient of two finite values, rounded.
#[verifier::opaque]
pub open spec fn quotient_of(f: Fmt, na: bool, a: nat, nb: bool, b: nat, rm: Rm) -> (nat, u32)
    recommends
        units(f, b) > 0,
{
    if units(f, a) == 0 {
        (with_sign(f, na != nb, 0), 0)
    } else {
        finished(f, Op2::Div, na != nb, units(f, a) * pow2(f.unit()), units(f, b), rm)
    }
}

proof fn lemma_split_small(f: Fmt, m: u64)
    requires
        m < 2 * f.min_normal(),
    ensures
        m < pow2(53),
        m < pow2(107),
        f == Fmt::Single ==> m < pow2(24),
{
    lemma_pow2_127();
}

pub(crate) fn add_finite(f: Fmt, op: Op2, na: bool, a: u64, nb: bool, b: u64, rm: Rm) -> (r: (
    u64,
    u32,
))
    requires
        a < f.inf(),
        b < f.inf(),
    ensures
        (r.0 as nat, r.1) == sum_of(f, op, na, a as nat, nb, b as nat, rm),
        r.0 <= f.inf() + f.sign(),
{
    proof {
        reveal(sum_of);
    }
    let (ma, sa): (u64, u32) = split(f, a);
    let (mb, sb): (u64, u32) = split(f, b);
    proof {
        lemma_split_small(f, ma);
        lemma_split_small(f, mb);
        lemma_fmt(f);
    }
    let (neg, n, e, sticky) = sum_mag(ma as u128, sa, na, mb as u128, sb, nb);
    if n == 0 {
        return (signed_bits(f, na && nb, 0), 0);
    }
    let ghost s = signed(na, units(f, a as nat)) + signed(nb, units(f, b as nat));
    proof {
        vstd::arithmetic::power2::lemma2_to64();
        lemma_pow2_pos(e as nat);
        assert(abs_of(s) * 1 == abs_of(s));
        assert(1 * pow2(e as nat) == pow2(e as nat));
        assert(truncates(abs_of(s), 1, n as nat, e as int, sticky));
    }
    finish(f, op, neg, n, e as i32, sticky, rm, Ghost(abs_of(s)), Ghost(1))
}

proof fn lemma_product_truncates(ma: nat, sa: nat, mb: nat, sb: nat, b: nat)
    ensures
        truncates(
            (ma * pow2(sa)) * (mb * pow2(sb)),
            pow2(b),
            ma * mb,
            sa + sb - b,
            false,
        ),
{
    let n = ma * mb;
    let num = (ma * pow2(sa)) * (mb * pow2(sb));
    let e = sa + sb - b;
    lemma_pow2_pos(b);
    lemma_pow2_adds(sa, sb);
    vstd::arithmetic::power2::lemma2_to64();
    assert(num == n * pow2(sa + sb)) by (nonlinear_arith)
        requires
            num == (ma * pow2(sa)) * (mb * pow2(sb)),
            n == ma * mb,
            pow2(sa + sb) == pow2(sa) * pow2(sb),
    ;
    if e >= 0 {
        lemma_pow2_adds(b, e as nat);
        lemma_pow2_pos((sa + sb) as nat);
        assert(num * 1 == num);
        lemma_fundamental_div_mod_converse(num as int, pow2(sa + sb) as int, n as int, 0);
    } else {
        let p = pow2((-e) as nat);
        lemma_pow2_adds(sa + sb, (-e) as nat);
        assert(num * p == n * pow2(b) + 0) by (nonlinear_arith)
            requires
                num == n * pow2(sa + sb),
                pow2(b) == pow2(sa + sb) * p,
        ;
        assert(pow2(b) * 1 == pow2(b));
        lemma_fundamental_div_mod_converse((num * p) as int, pow2(b) as int, n as int, 0);
    }
}

/// The product of two significands, with its exponent in units.
fn mul_parts(f: Fmt, ma: u64, mb: u64) -> (r: u128)
    requires
        ma < 2 * f.min_normal(),
        mb < 2 * f.min_normal(),
    ensures
        r == ma * mb,
        r < pow2(106),
        r < pow2(107),
        r < pow2(127),
        r == 0 <==> ma == 0 || mb == 0,
        bitlen(r as nat) <= 106,
{
    proof {
        lemma_split_small(f, ma);
        lemma_split_small(f, mb);
        lemma_pow2_127();
        lemma_pow2_unfold(107);
        assert(ma * mb < 0x400_0000_0000_0000_0000_0000_0000) by (nonlinear_arith)
            requires
                ma < 0x20_0000_0000_0000,
                mb < 0x20_0000_0000_0000,
        ;
        assert(ma * mb == 0 <==> ma == 0 || mb == 0) by (nonlinear_arith);
        lemma_bitlen_bound((ma * mb) as nat, 106);
    }
    ma as u128 * mb as u128
}

proof fn lemma_units_zero(m: nat, s: nat)
    ensures
        m * pow2(s) == 0 <==> m == 0,
{
    lemma_pow2_pos(s);
    assert(m * pow2(s) == 0 <==> m == 0) by (nonlinear_arith)
        requires
            pow2(s) > 0,
    ;
}

pub(crate) fn mul_finite(f: Fmt, na: bool, a: u64, nb: bool, b: u64, rm: Rm) -> (r: (u64, u32))
    requires
        a < f.inf(),
        b < f.inf(),
    ensures
        (r.0 as nat, r.1) == product_of(f, na, a as nat, nb, b as nat, rm),
        r.0 <= f.inf() + f.sign(),
{
    proof {
        reveal(product_of);
    }
    let (ma, sa): (u64, u32) = split(f, a);
    let (mb, sb): (u64, u32) = split(f, b);
    let neg: bool = na != nb;
    let n: u128 = mul_parts(f, ma, mb);
    let ghost num = units(f, a as nat) * units(f, b as nat);
    proof {
        lemma_fmt(f);
        lemma_units_zero(ma as nat, sa as nat);
        lemma_units_zero(mb as nat, sb as nat);
        assert(num == 0 <==> units(f, a as nat) == 0 || units(f, b as nat) == 0)
            by (nonlinear_arith)
            requires
                num == units(f, a as nat) * units(f, b as nat),
        ;
    }
    if n == 0 {
        return (signed_bits(f, neg, 0), 0);
    }
    let e: i32 = sa as i32 + sb as i32 - f.unit_bits() as i32;
    proof {
        lemma_product_truncates(ma as nat, sa as nat, mb as nat, sb as nat, f.unit());
    }
    finish(f, Op2::Mul, neg, n, e, false, rm, Ghost(num), Ghost(pow2(f.unit())))
}

proof fn lemma_quotient_truncates(
    ma: nat,
    sa: nat,
    mb: nat,
    sb: nat,
    b: nat,
    g: nat,
    n: nat,
    rem: nat,
)
    requires
        mb > 0,
        ma * pow2(g) == n * mb + rem,
        rem < mb,
    ensures
        truncates(
            (ma * pow2(sa)) * pow2(b),
            mb * pow2(sb),
            n,
            sa + b - sb - g,
            rem != 0,
        ),
{
    let e = sa + b - sb - g;
    let num = (ma * pow2(sa)) * pow2(b);
    let den = mb * pow2(sb);
    vstd::arithmetic::power2::lemma2_to64();
    lemma_pow2_pos(sb);
    lemma_pow2_adds(sa, b);
    lemma_units_zero(mb, sb);
    assert(num == ma * pow2(sa + b)) by (nonlinear_arith)
        requires
            num == (ma * pow2(sa)) * pow2(b),
            pow2(sa + b) == pow2(sa) * pow2(b),
    ;
    if e >= 0 {
        let q = pow2(e as nat);
        let w = pow2(sb + e as nat);
        lemma_pow2_adds(sb, e as nat);
        lemma_pow2_adds(g, sb + e as nat);
        lemma_pow2_pos(sb + e as nat);
        assert(g + (sb + e as nat) == sa + b);
        assert(den * q == mb * w) by (nonlinear_arith)
            requires
                den == mb * pow2(sb),
                w == pow2(sb) * q,
        ;
        assert(num == n * (mb * w) + rem * w) by (nonlinear_arith)
            requires
                num == ma * pow2(sa + b),
                pow2(sa + b) == pow2(g) * w,
                ma * pow2(g) == n * mb + rem,
        ;
        assert(0 <= rem * w < mb * w) by (nonlinear_arith)
            requires
                rem < mb,
                w > 0,
        ;
        lemma_units_zero(rem, (sb + e as nat) as nat);
        assert(num * 1 == num);
        lemma_fundamental_div_mod_converse(num as int, (mb * w) as int, n as int, (rem * w) as int);
    } else {
        let p = pow2((-e) as nat);
        lemma_pow2_adds(sa + b, (-e) as nat);
        lemma_pow2_adds(g, sb);
        assert(sa + b + (-e) as nat == g + sb);
        assert(num * p == n * den + rem * pow2(sb)) by (nonlinear_arith)
            requires
                num == ma * pow2(sa + b),
                pow2(sa + b) * p == pow2(g) * pow2(sb),
                ma * pow2(g) == n * mb + rem,
                den == mb * pow2(sb),
        ;
        assert(0 <= rem * pow2(sb) < den) by (nonlinear_arith)
            requires
                rem < mb,
                pow2(sb) > 0,
                den == mb * pow2(sb),
        ;
        lemma_units_zero(rem, sb);
        assert(den * 1 == den);
        lemma_fundamental_div_mod_converse(
            (num * p) as int,
            den as int,
            n as int,
            (rem * pow2(sb)) as int,
        );
    }
}

pub(crate) fn div_finite(f: Fmt, na: bool, a: u64, nb: bool, b: u64, rm: Rm) -> (r: (u64, u32))
    requires
        a < f.inf(),
        0 < b < f.inf(),
    ensures
        (r.0 as nat, r.1) == quotient_of(f, na, a as nat, nb, b as nat, rm),
        r.0 <= f.inf() + f.sign(),
{
    proof {
        reveal(quotient_of);
    }
    let (ma, sa): (u64, u32) = split(f, a);
    let (mb, sb): (u64, u32) = split(f, b);
    let neg: bool = na != nb;
    proof {
        lemma_fmt(f);
        lemma_units_zero(ma as nat, sa as nat);
        lemma_split_small(f, ma);
        lemma_split_small(f, mb);
        lemma_pow2_127();
    }
    if ma == 0 {
        return (signed_bits(f, neg, 0), 0);
    }
    let len: u32 = bitlen_u128(ma as u128);
    proof {
        lemma_bitlen(ma as nat);
        lemma_bitlen_bound(ma as nat, 53);
    }
    let g: u32 = 126 - len;
    proof {
        lemma_scaled_bound(ma as nat, len as nat, g as nat, 126);
        lemma_pow2_adds((len - 1) as nat, g as nat);
        lemma_pow2_pos(g as nat);
        assert(pow2(125) <= ma * pow2(g as nat)) by (nonlinear_arith)
            requires
                pow2((len - 1) as nat) <= ma,
                pow2((len - 1) as nat) * pow2(g as nat) == pow2(125),
                pow2(g as nat) > 0,
        ;
    }
    let top: u128 = mul_pow2(ma as u128, g);
    let n: u128 = top / (mb as u128);
    let rem: u128 = top % (mb as u128);
    let e: i32 = sa as i32 + f.unit_bits() as i32 - sb as i32 - g as i32;
    proof {
        lemma_fundamental_div_mod(top as int, mb as int);
        assert(n * mb == mb * n) by (nonlinear_arith);
        lemma_quotient_truncates(
            ma as nat,
            sa as nat,
            mb as nat,
            sb as nat,
            f.unit(),
            g as nat,
            n as nat,
            rem as nat,
        );
        vstd::arithmetic::div_mod::lemma_div_nonincreasing(top as int, mb as int);
        lemma_bitlen_bound(n as nat, 127);
        // The quotient keeps at least 72 bits.
        lemma_pow2_adds(72, 53);
        assert(n >= pow2(72)) by (nonlinear_arith)
            requires
                top == mb * n + rem,
                rem < mb,
                mb <= pow2(53),
                top >= pow2(72) * pow2(53),
        ;
        lemma_bitlen(n as nat);
        if bitlen(n as nat) < 72 {
            lemma_pow2_strictly_increases(bitlen(n as nat), 72);
        }
    }
    finish(
        f,
        Op2::Div,
        neg,
        n,
        e,
        rem != 0,
        rm,
        Ghost(units(f, a as nat) * pow2(f.unit())),
        Ghost(units(f, b as nat)),
    )
}

// ---------------------------------------------------------------------------
// Square roots.
// ---------------------------------------------------------------------------

/// The square root of a finite value, rounded to nearest, and whether it is
/// inexact.
pub open spec fn root_mag(f: Fmt, a: nat) -> (nat, bool) {
    let x = units(f, a) * pow2(f.unit());
    let s = floor_sqrt(x);
    let k = excess(bitlen(s) as int, f.frac() + 1);
    let t = s / pow2(k);
    let mid = (2 * t + 1) * pow2(k);
    let up = 4 * x > mid * mid || (4 * x == mid * mid && t % 2 == 1);
    (
        k * pow2(f.frac()) + t + if up {
            1nat
        } else {
            0
        },
        (t * pow2(k)) * (t * pow2(k)) != x,
    )
}

pub proof fn lemma_floor_sqrt(x: nat)
    ensures
        floor_sqrt(x) * floor_sqrt(x) <= x < (floor_sqrt(x) + 1) * (floor_sqrt(x) + 1),
    decreases x,
{
    if x > 0 {
        lemma_floor_sqrt(x / 4);
        let a = floor_sqrt(x / 4);
        let y = x / 4;
        let r = 2 * a;
        assert(r * r <= x) by (nonlinear_arith)
            requires
                a * a <= y,
                4 * y <= x,
                r == 2 * a,
        ;
        assert(x < (r + 2) * (r + 2)) by (nonlinear_arith)
            requires
                y + 1 <= (a + 1) * (a + 1),
                x < 4 * y + 4,
                r == 2 * a,
        ;
        if (r + 1) * (r + 1) <= x {
            assert(floor_sqrt(x) == r + 1);
        } else {
            assert(floor_sqrt(x) == r);
        }
    } else {
        assert(floor_sqrt(x) == 0);
        assert(0nat * 0nat == 0 && 1nat * 1nat == 1) by (nonlinear_arith);
    }
}

/// Squares are ordered as their roots.
proof fn lemma_squares(a: nat, b: nat)
    ensures
        a < b <==> a * a < b * b,
        a == b <==> a * a == b * b,
{
    if a < b {
        assert(a * a < b * b) by (nonlinear_arith)
            requires
                a < b,
        ;
    } else if b < a {
        assert(b * b < a * a) by (nonlinear_arith)
            requires
                b < a,
        ;
    }
}

/// The integer square root of a number of at most 126 bits.
fn isqrt(y: u128) -> (r: u128)
    requires
        y < pow2(126),
    ensures
        r * r <= y < (r + 1) * (r + 1),
        r < pow2(63),
{
    let mut r: u128 = 0;
    let mut i: u32 = 63;
    let mut step: u128 = 0x8000_0000_0000_0000;
    proof {
        vstd::arithmetic::power2::lemma2_to64();
        vstd::arithmetic::power2::lemma2_to64_rest();
        lemma_pow2_127();
        lemma_pow2_adds(63, 63);
    }
    while i > 0
        invariant
            i <= 63,
            step == pow2(i as nat),
            r * r <= y,
            y < (r + step) * (r + step),
            r + step <= 0x8000_0000_0000_0000,
            y < 0x4000_0000_0000_0000_0000_0000_0000_0000,
        decreases i,
    {
        proof {
            lemma_pow2_unfold(i as nat);
            lemma_pow2_pos((i - 1) as nat);
        }
        step = step / 2;
        i = i - 1;
        let c: u128 = r + step;
        assert(c * c <= 0x4000_0000_0000_0000_0000_0000_0000_0000) by (nonlinear_arith)
            requires
                c <= 0x8000_0000_0000_0000,
        ;
        if c * c <= y {
            r = c;
        }
    }
    proof {
        vstd::arithmetic::power2::lemma2_to64();
        vstd::arithmetic::power2::lemma2_to64_rest();
    }
    r
}

/// Rounding the truncated root of a scaled number rounds the root.
proof fn lemma_root_rounds(f: Fmt, a: nat, y: nat, e: nat, n: nat)
    requires
        units(f, a) * pow2(f.unit()) == y * (pow2(e) * pow2(e)),
        n * n <= y < (n + 1) * (n + 1),
        bitlen(n) >= f.frac() + 3,
    ensures
        root_mag(f, a) == (
            core_mag(f, n, e as int, n * n != y, false, Rm::Rne),
            core_inexact(f, n, e as int, n * n != y),
        ),
{
    let x = units(f, a) * pow2(f.unit());
    let s = floor_sqrt(x);
    let pe = pow2(e);
    lemma_pow2_pos(e);
    lemma_floor_sqrt(x);
    // n * pe <= s < (n + 1) * pe
    assert((n * pe) * (n * pe) <= x) by (nonlinear_arith)
        requires
            n * n <= y,
            x == y * (pe * pe),
            pe > 0,
    ;
    assert(x < ((n + 1) * pe) * ((n + 1) * pe)) by (nonlinear_arith)
        requires
            y < (n + 1) * (n + 1),
            x == y * (pe * pe),
            pe > 0,
    ;
    lemma_squares(s, (n + 1) * pe);
    lemma_squares(n * pe, s + 1);
    assert(n * pe <= s < (n + 1) * pe);
    assert((n + 1) * pe == n * pe + pe) by (nonlinear_arith);
    lemma_fundamental_div_mod_converse(s as int, pe as int, n as int, s - n * pe);
    lemma_bitlen_div(s, e);
    assert(bitlen(s) == bitlen(n) + e);
    let k = core_quantum(f, n, e as int);
    let c = (k - e) as nat;
    let (cc, h, pk) = (pow2(c), pow2((c - 1) as nat), pow2(k));
    lemma_pow2_unfold(c);
    lemma_pow2_adds(e, c);
    lemma_pow2_pos(c);
    lemma_div_denominator(s as int, pe as int, cc as int);
    let (t, low) = (n / cc, n % cc);
    assert(s / pk == t);
    lemma_fundamental_div_mod(n as int, cc as int);
    let half_way = t * cc + h;
    let mid = (2 * t + 1) * pk;
    assert(mid * mid == 4 * ((half_way * half_way) * (pe * pe))) by (nonlinear_arith)
        requires
            mid == (2 * t + 1) * pk,
            pk == pe * cc,
            cc == 2 * h,
            half_way == t * cc + h,
    ;
    let (u, v, w) = (y, half_way * half_way, pe * pe);
    assert(w > 0) by (nonlinear_arith)
        requires
            pe > 0,
            w == pe * pe,
    ;
    assert(u > v ==> u * w > v * w) by (nonlinear_arith)
        requires
            w > 0,
    ;
    assert(u < v ==> u * w < v * w) by (nonlinear_arith)
        requires
            w > 0,
    ;
    lemma_squares(n, half_way);
    lemma_squares(n + 1, half_way);
    assert(n == t * cc + low) by (nonlinear_arith)
        requires
            n == cc * t + low,
    ;
    // Exactness.
    let tk = t * pk;
    let tc = t * cc;
    assert(tk * tk == (tc * tc) * w) by (nonlinear_arith)
        requires
            tk == t * pk,
            tc == t * cc,
            pk == pe * cc,
            w == pe * pe,
    ;
    lemma_squares(tc, n);
    assert(tc * tc < u ==> (tc * tc) * w < u * w) by (nonlinear_arith)
        requires
            w > 0,
    ;
}

pub(crate) fn sqrt_finite(f: Fmt, a: u64) -> (r: (u64, bool))
    requires
        0 < a < f.inf(),
    ensures
        (r.0 as nat, r.1) == root_mag(f, a as nat),
        r.0 <= f.inf(),
{
    let (ma, sa): (u64, u32) = split(f, a);
    proof {
        lemma_fmt(f);
        lemma_split_small(f, ma);
        lemma_pow2_127();
        vstd::arithmetic::power2::lemma2_to64();
        vstd::arithmetic::power2::lemma2_to64_rest();
    }
    let len: u32 = bitlen_u128(ma as u128);
    proof {
        lemma_bitlen(ma as nat);
        lemma_bitlen_bound(ma as nat, 53);
    }
    let total: u32 = sa + f.unit_bits();
    let g: u32 = if (total - (126 - len)) % 2 == 0 {
        126 - len
    } else {
        125 - len
    };
    let e: u32 = (total - g) / 2;
    proof {
        lemma_scaled_bound(ma as nat, len as nat, g as nat, 126);
        lemma_pow2_adds((len - 1) as nat, g as nat);
        lemma_pow2_pos(g as nat);
        let b = (len - 1 + g) as nat;
        assert(pow2(b) <= ma * pow2(g as nat)) by (nonlinear_arith)
            requires
                pow2((len - 1) as nat) <= ma,
                pow2((len - 1) as nat) * pow2(g as nat) == pow2(b),
                pow2(g as nat) > 0,
        ;
        if b > 124 {
            lemma_pow2_strictly_increases(124, b);
        }
        lemma_pow2_strictly_increases(126, 127);
    }
    let y: u128 = mul_pow2(ma as u128, g);
    let n: u128 = isqrt(y);
    proof {
        let pe = pow2(e as nat);
        lemma_pow2_adds(e as nat, e as nat);
        lemma_pow2_adds(g as nat, (2 * e) as nat);
        lemma_pow2_adds(sa as nat, f.unit());
        assert((g + 2 * e) as nat == sa + f.unit());
        assert(units(f, a as nat) * pow2(f.unit()) == y * (pe * pe)) by (nonlinear_arith)
            requires
                units(f, a as nat) == ma * pow2(sa as nat),
                pow2(sa as nat) * pow2(f.unit()) == pow2(g as nat) * pow2((2 * e) as nat),
                pow2((2 * e) as nat) == pe * pe,
                y == ma * pow2(g as nat),
        ;
        // The root keeps at least 62 bits.
        lemma_pow2_adds(62, 62);
        lemma_squares((n + 1) as nat, pow2(62));
        assert(n + 1 > pow2(62));
        lemma_bitlen(n as nat);
        if bitlen(n as nat) < 62 {
            lemma_pow2_strictly_increases(bitlen(n as nat), 62);
        }
        lemma_bitlen_bound(n as nat, 63);
        lemma_pow2_strictly_increases(63, 127);
        assert(n * n < 0x4000_0000_0000_0000_0000_0000_0000_0000) by (nonlinear_arith)
            requires
                n < 0x8000_0000_0000_0000,
        ;
        lemma_root_rounds(f, a as nat, y as nat, e as nat, n as nat);
        lemma_core_fits(f, n as nat, e as int);
        let k = core_quantum(f, n as nat, e as int);
        let top = (f.inf() / f.min_normal() - 3) as nat;
        assert(k <= top);
        assert(k * pow2(f.frac()) <= top * pow2(f.frac())) by (nonlinear_arith)
            requires
                k <= top,
        ;
    }
    round_core(f, n, e as i32, n * n != y, false, Rm::Rne)
}

// ---------------------------------------------------------------------------
// Fused multiply-add.
// ---------------------------------------------------------------------------

/// The exact product of two finite values plus a third, rounded once, to
/// nearest. Where the product alone overflows in double precision the result
/// counts as inexact.
#[verifier::opaque]
pub open spec fn fused_of(f: Fmt, np: bool, a: nat, b: nat, nc: bool, c: nat) -> (nat, u32) {
    let prod = units(f, a) * units(f, b);
    let den = pow2(f.unit());
    let s = signed(np, prod) + signed(nc, units(f, c) * den);
    if s == 0 {
        (with_sign(f, np && nc, 0), 0)
    } else {
        let m = round_mag(f, abs_of(s), den, s < 0, Rm::Rne);
        let out = in_range(f, m, s < 0, Rm::Rne);
        let nx = inexact(f, abs_of(s), den) || m >= f.inf() || (f == Fmt::Double && round_mag(
            f,
            prod,
            den,
            np,
            Rm::Rne,
        ) >= f.inf());
        (with_sign(f, s < 0, out), result_flags(f, out, nx))
    }
}

/// A sum cut at 2^e, in units of 2^b.
proof fn lemma_sum_truncates(v: nat, b: nat, e: nat, n: nat, sticky: bool)
    requires
        n == v / pow2(e),
        sticky == (v % pow2(e) != 0),
    ensures
        truncates(v, pow2(b), n, e - b, sticky),
{
    vstd::arithmetic::power2::lemma2_to64();
    lemma_pow2_pos(e);
    lemma_pow2_pos(b);
    if e >= b {
        lemma_pow2_adds(b, (e - b) as nat);
        assert(v * 1 == v);
        if e == b {
            assert(pow2(b) * 1 == pow2(b));
        }
    } else {
        let c = pow2((b - e) as nat);
        lemma_pow2_pos((b - e) as nat);
        lemma_pow2_adds(e, (b - e) as nat);
        lemma_scaled_div(v, pow2(e), c);
        lemma_units_zero(v % pow2(e), (b - e) as nat);
        assert(pow2(b) * 1 == pow2(b));
    }
}

pub(crate) fn fma_finite(f: Fmt, np: bool, a: u64, b: u64, nc: bool, c: u64) -> (r: (u64, u32))
    requires
        a < f.inf(),
        b < f.inf(),
        c < f.inf(),
    ensures
        (r.0 as nat, r.1) == fused_of(f, np, a as nat, b as nat, nc, c as nat),
        r.0 <= f.inf() + f.sign(),
{
    proof {
        reveal(fused_of);
    }
    let (ma, sa): (u64, u32) = split(f, a);
    let (mb, sb): (u64, u32) = split(f, b);
    let (mc, sc): (u64, u32) = split(f, c);
    let unit: u32 = f.unit_bits();
    let p: u128 = mul_parts(f, ma, mb);
    let ghost prod = units(f, a as nat) * units(f, b as nat);
    let ghost den = pow2(f.unit());
    let ghost s = signed(np, prod) + signed(nc, units(f, c as nat) * den);
    proof {
        lemma_fmt(f);
        lemma_split_small(f, mc);
        lemma_pow2_adds(sa as nat, sb as nat);
        lemma_pow2_adds(sc as nat, f.unit());
        assert(prod == p * pow2((sa + sb) as nat)) by (nonlinear_arith)
            requires
                prod == (ma * pow2(sa as nat)) * (mb * pow2(sb as nat)),
                p == ma * mb,
                pow2((sa + sb) as nat) == pow2(sa as nat) * pow2(sb as nat),
        ;
        assert(units(f, c as nat) * den == mc * pow2((sc + unit) as nat)) by (nonlinear_arith)
            requires
                units(f, c as nat) == mc * pow2(sc as nat),
                pow2((sc + unit) as nat) == pow2(sc as nat) * den,
        ;
    }
    let (neg, n, e, sticky) = sum_mag(p, sa + sb, np, mc as u128, sc + unit, nc);
    if n == 0 {
        return (signed_bits(f, np && nc, 0), 0);
    }
    proof {
        lemma_sum_truncates(abs_of(s), f.unit(), e as nat, n as nat, sticky);
        lemma_product_truncates(ma as nat, sa as nat, mb as nat, sb as nat, f.unit());
        lemma_pow2_127();
    }
    let (m, ix): (u64, bool) = round_to(
        f,
        n,
        e as i32 - unit as i32,
        sticky,
        neg,
        Rm::Rne,
        Ghost(abs_of(s)),
        Ghost(den),
    );
    // An overflowing product stays overflowing however it is rounded.
    let wide: bool = if f == Fmt::Double && p != 0 {
        let (pm, _) = round_to(
            f,
            p,
            sa as i32 + sb as i32 - unit as i32,
            false,
            np,
            Rm::Rne,
            Ghost(prod),
            Ghost(den),
        );
        pm >= f.inf_bits()
    } else {
        proof {
            if f == Fmt::Double {
                lemma_units_zero(ma as nat, sa as nat);
                lemma_units_zero(mb as nat, sb as nat);
                assert(0 * pow2((sa + sb) as nat) == 0);
                lemma_zero_rounds(f, den, np);
            }
        }
        false
    };
    let out: u64 = clamp_mag(f, m, neg, Rm::Rne);
    (signed_bits(f, neg, out), flags_for(f, out, ix || m >= f.inf_bits() || wide))
}

pub(crate) proof fn lemma_zero_rounds(f: Fmt, den: nat, neg: bool)
    requires
        den > 0,
    ensures
        round_mag(f, 0, den, neg, Rm::Rne) == 0,
{
    vstd::arithmetic::power2::lemma2_to64();
    vstd::arithmetic::div_mod::lemma_basic_div(0, den as int);
    assert(bitlen(0) == 0);
    assert(quantum(f, 0, den) == 0);
    assert(den * 1 == den);
    assert(0 * pow2(f.frac()) == 0);
    vstd::arithmetic::div_mod::lemma_small_mod(0, den);
}

// ---------------------------------------------------------------------------
// Conversions.
// ---------------------------------------------------------------------------

/// A finite value rounded to an integer, and whether that is inexact.
pub open spec fn integer_of(f: Fmt, a: nat, neg: bool, rm: Rm) -> (nat, bool) {
    let (num, den) = (units(f, a), pow2(f.unit()));
    let (q, rem) = (num / den, num % den);
    (
        q + if rounds_up(q, rem, den, neg, rm) {
            1nat
        } else {
            0
        },
        rem != 0,
    )
}

/// Round a finite value to an integer. Returns (magnitude, inexact); a
/// magnitude of 2^64 or more saturates at u128::MAX for the range checks of callers.
pub(crate) fn round_int(f: Fmt, a: u64, neg: bool, rm: Rm) -> (r: (u128, bool))
    requires
        a < f.inf(),
    ensures
        ({
            let (q, ix) = integer_of(f, a as nat, neg, rm);
            &&& r.1 == ix
            &&& r.0 == q || (r.0 == u128::MAX && q >= 0x1_0000_0000_0000_0000)
        }),
{
    let (m, s): (u64, u32) = split(f, a);
    let unit: u32 = f.unit_bits();
    let ghost num = units(f, a as nat);
    let ghost den = pow2(f.unit());
    proof {
        lemma_fmt(f);
        lemma_pow2_127();
        lemma_split_small(f, m);
        lemma_pow2_pos(f.unit());
        lemma_pow2_pos(s as nat);
    }
    if s >= unit {
        let e: u32 = s - unit;
        proof {
            lemma_pow2_adds(f.unit(), e as nat);
            let t = (m * pow2(e as nat)) as nat;
            assert(num == t * den + 0) by (nonlinear_arith)
                requires
                    num == m * pow2(s as nat),
                    pow2(s as nat) == den * pow2(e as nat),
                    t == m * pow2(e as nat),
            ;
            lemma_fundamental_div_mod_converse(num as int, den as int, t as int, 0);
        }
        if m == 0 {
            assert(0 * pow2(e as nat) == 0);
            return (0, false);
        }
        if e > 63 {
            proof {
                lemma_pow2_strictly_increases(63, e as nat);
                lemma_pow2_unfold(64);
                if e > 64 {
                    lemma_pow2_strictly_increases(64, e as nat);
                }
                assert(m * pow2(e as nat) >= pow2(e as nat)) by (nonlinear_arith)
                    requires
                        m >= 1,
                ;
            }
            return (u128::MAX, false);
        }
        proof {
            lemma_scaled_bound(m as nat, 53, e as nat, 127);
        }
        return (mul_pow2(m as u128, e), false);
    }
    let sh: u32 = unit - s;
    proof {
        lemma_pow2_pos(sh as nat);
        lemma_pow2_adds(sh as nat, s as nat);
        lemma_scaled_div(m as nat, pow2(sh as nat), pow2(s as nat));
        lemma_pow2_unfold(sh as nat);
        lemma_pow2_pos((sh - 1) as nat);
        let (b, ps) = (m as nat % pow2(sh as nat), pow2(s as nat));
        assert(1 * pow2(s as nat) == pow2(s as nat));
        lemma_half(b * ps, den, 1, b, pow2((sh - 1) as nat), ps, 0);
    }
    if sh >= 128 {
        proof {
            lemma_pow2_strictly_increases(53, sh as nat);
            lemma_pow2_strictly_increases(53, (sh - 1) as nat);
            vstd::arithmetic::div_mod::lemma_basic_div(m as int, pow2(sh as nat) as int);
            vstd::arithmetic::div_mod::lemma_small_mod(m as nat, pow2(sh as nat));
        }
        // The entire value is fractional, and less than a half.
        let up: bool = match rm {
            Rm::Rdn => neg && m != 0,
            Rm::Rup => !neg && m != 0,
            _ => false,
        };
        return (
            if up {
                1
            } else {
                0
            },
            m != 0,
        );
    }
    let q: u128 = pow2_u128(sh);
    let half: u128 = pow2_u128(sh - 1);
    let whole: u128 = m as u128 / q;
    let frac: u128 = m as u128 % q;
    let up: bool = match rm {
        Rm::Rne => frac > half || (frac == half && whole % 2 == 1),
        Rm::Rmm => frac >= half,
        Rm::Rtz => false,
        Rm::Rdn => neg && frac != 0,
        Rm::Rup => !neg && frac != 0,
    };
    proof {
        vstd::arithmetic::div_mod::lemma_div_nonincreasing(m as int, q as int);
    }
    (
        whole + if up {
            1
        } else {
            0
        },
        frac != 0,
    )
}

/// The integer `v` as a value of the format.
pub open spec fn from_int_of(f: Fmt, v: int, rm: Rm) -> (nat, u32) {
    let num = abs_of(v) * pow2(f.unit());
    if v == 0 {
        (0, 0)
    } else {
        (
            with_sign(f, v < 0, in_range(f, round_mag(f, num, 1, v < 0, rm), v < 0, rm)),
            if inexact(f, num, 1) {
                NX
            } else {
                0
            },
        )
    }
}

/// Convert the integer of the given sign and magnitude.
pub(crate) fn int_to_float(f: Fmt, neg: bool, mag: u64, rm: Rm) -> (r: (u64, u32))
    ensures
        (r.0 as nat, r.1) == from_int_of(f, signed(neg, mag as nat), rm),
        r.0 <= f.inf() + f.sign(),
{
    if mag == 0 {
        return (0, 0);
    }
    let unit: u32 = f.unit_bits();
    let ghost num = mag as nat * pow2(f.unit());
    proof {
        lemma_pow2_127();
        lemma_fmt(f);
        lemma_bitlen_bound(mag as nat, 64);
        lemma_pow2_strictly_increases(64, 127);
        vstd::arithmetic::power2::lemma2_to64();
        lemma_pow2_pos(f.unit());
        assert(num * 1 == num);
        assert(1 * pow2(f.unit()) == pow2(f.unit()));
        lemma_fundamental_div_mod_converse(num as int, pow2(f.unit()) as int, mag as int, 0);
        assert(truncates(num, 1, mag as nat, unit as int, false));
    }
    let (m, ix): (u64, bool) = round_to(
        f,
        mag as u128,
        unit as i32,
        false,
        neg,
        rm,
        Ghost(num),
        Ghost(1),
    );
    (
        signed_bits(f, neg, clamp_mag(f, m, neg, rm)),
        if ix {
            NX
        } else {
            0
        },
    )
}

/// A finite double-precision magnitude rounded to single precision.
/// Overflow is flagged also where it stops at the greatest finite value.
pub open spec fn narrowed(a: nat, neg: bool, rm: Rm) -> (nat, u32) {
    let f = Fmt::Single;
    let (num, den) = (units(Fmt::Double, a), pow2(925));
    let m = round_mag(f, num, den, neg, rm);
    (
        with_sign(f, neg, in_range(f, m, neg, rm)),
        if m >= f.inf() {
            OF | NX
        } else {
            result_flags(f, m, inexact(f, num, den))
        },
    )
}

pub(crate) fn narrow_finite(a: u64, neg: bool, rm: Rm) -> (r: (u64, u32))
    requires
        0 < a < Fmt::Double.inf(),
    ensures
        (r.0 as nat, r.1) == narrowed(a as nat, neg, rm),
        r.0 <= Fmt::Single.inf() + Fmt::Single.sign(),
{
    let f = Fmt::Single;
    let (m0, s0): (u64, u32) = split(Fmt::Double, a);
    proof {
        lemma_pow2_127();
        lemma_split_small(Fmt::Double, m0);
        lemma_bitlen_bound(m0 as nat, 53);
        lemma_pow2_strictly_increases(53, 127);
        vstd::arithmetic::power2::lemma2_to64();
        assert(1 * pow2(0) == 1);
        assert((m0 * pow2(s0 as nat)) * (1 * pow2(0)) == m0 * pow2(s0 as nat)) by (nonlinear_arith)
            requires
                pow2(0) == 1,
        ;
        assert(m0 * 1 == m0);
        lemma_product_truncates(m0 as nat, s0 as nat, 1, 0, 925);
    }
    let (m, ix): (u64, bool) = round_to(
        f,
        m0 as u128,
        s0 as i32 - 925,
        false,
        neg,
        rm,
        Ghost(units(Fmt::Double, a as nat)),
        Ghost(pow2(925)),
    );
    let bits: u64 = signed_bits(f, neg, clamp_mag(f, m, neg, rm));
    if m >= f.inf_bits() {
        (bits, OF | NX)
    } else {
        (bits, flags_for(f, m, ix))
    }
}

/// A finite single-precision magnitude as a double-precision one.
pub open spec fn widened(a: nat) -> nat {
    round_mag(Fmt::Double, units(Fmt::Single, a) * pow2(925), 1, false, Rm::Rne)
}

/// Widening loses nothing.
pub proof fn widening_is_exact(a: nat)
    requires
        a < Fmt::Single.inf(),
    ensures
        !inexact(Fmt::Double, units(Fmt::Single, a) * pow2(925), 1),
{
    let f = Fmt::Single;
    let num = units(f, a) * pow2(925);
    lemma_fmt(f);
    lemma_pow2_127();
    let p = pow2(f.frac());
    let (m, s): (nat, nat) = if a < p {
        (a, 0)
    } else {
        (p + a % p, (a / p - 1) as nat)
    };
    vstd::arithmetic::power2::lemma2_to64();
    if a < p {
        assert(a * pow2(0) == a) by (nonlinear_arith)
            requires
                pow2(0) == 1,
        ;
    }
    assert(units(f, a) == m * pow2(s));
    assert(m < pow2(24));
    lemma_pow2_adds(s, 925);
    assert(num == m * pow2(s + 925)) by (nonlinear_arith)
        requires
            num == (m * pow2(s)) * pow2(925),
            pow2(s + 925) == pow2(s) * pow2(925),
    ;
    lemma_scaled_bound(m, 24, s + 925, 24 + s + 925);
    lemma_bitlen_bound(num, 24 + s + 925);
    let k = quantum(Fmt::Double, num, 1);
    assert(num / 1 == num);
    assert(k <= s + 925);
    lemma_pow2_adds((s + 925 - k) as nat, k);
    lemma_pow2_pos(k);
    let c = m * pow2((s + 925 - k) as nat);
    assert(num == c * pow2(k)) by (nonlinear_arith)
        requires
            num == m * pow2(s + 925),
            pow2(s + 925) == pow2((s + 925 - k) as nat) * pow2(k),
            c == m * pow2((s + 925 - k) as nat),
    ;
    assert(1 * pow2(k) == pow2(k));
    lemma_fundamental_div_mod_converse(num as int, pow2(k) as int, c as int, 0);
}

pub(crate) fn widen_finite(a: u64) -> (r: u64)
    requires
        0 < a < Fmt::Single.inf(),
    ensures
        r == widened(a as nat),
        r <= Fmt::Double.inf(),
{
    let f = Fmt::Double;
    let (m0, s0): (u64, u32) = split(Fmt::Single, a);
    let ghost num = units(Fmt::Single, a as nat) * pow2(925);
    proof {
        lemma_pow2_127();
        lemma_split_small(Fmt::Single, m0);
        lemma_bitlen_bound(m0 as nat, 24);
        lemma_pow2_strictly_increases(24, 127);
        vstd::arithmetic::power2::lemma2_to64();
        assert(1 * pow2(925) == pow2(925));
        lemma_product_truncates(m0 as nat, s0 as nat, 1, 925, 0);
        assert(m0 * 1 == m0);
        lemma_widened_small(m0 as nat, (s0 + 925) as int);
    }
    let (m, _) = round_to(
        f,
        m0 as u128,
        s0 as i32 + 925,
        false,
        false,
        Rm::Rne,
        Ghost(num),
        Ghost(1),
    );
    proof {
        lemma_core_rounds(f, num, 1, m0 as nat, (s0 + 925) as int, false, false, Rm::Rne);
    }
    m
}

/// A widened magnitude is finite.
proof fn lemma_widened_small(n: nat, e: int)
    requires
        0 < n < pow2(24),
        925 <= e <= 1178,
    ensures
        core_mag(Fmt::Double, n, e, false, false, Rm::Rne) <= Fmt::Double.inf(),
{
    let f = Fmt::Double;
    lemma_fmt(f);
    lemma_pow2_127();
    lemma_bitlen(n);
    lemma_bitlen_bound(n, 24);
    lemma_core_fits(f, n, e);
    let k = core_quantum(f, n, e);
    assert(k <= 1149);
    assert(k * pow2(f.frac()) <= 1149 * pow2(f.frac())) by (nonlinear_arith)
        requires
            k <= 1149,
    ;
}

} // verus!
