//! Kinematic formulas over fixed-point momenta: integer square root,
//! fixed-point natural logarithm and arctangent, pseudorapidity and the
//! polar angle of a momentum vector.
//!
//! Truncation behaviour is part of every contract: each function returns
//! exactly the value of its spec, which is defined by integer arithmetic.
use vstd::prelude::*;

use crate::fmt::decoder::EposDict;
use crate::numeric::{FP_LIM, FP_SCALE};
use super::generic::Particle;

verus! {

/// Sentinel standing for an infinite pseudorapidity (a particle moving
/// exactly along the beam axis). A valid, sortable value, not an error.
pub const ETA_INF: i128 = 1_000_000_000_000_000_000_000;

/// ln 2 at fixed-point scale, truncated.
pub const LN2_FP: i128 = 693_147_180;

/// Pi at fixed-point scale, truncated.
pub const PI_FP: i128 = 3_141_592_653;

/// Pi / 2 at fixed-point scale, truncated.
pub const HALF_PI_FP: i128 = 1_570_796_326;

pub open spec fn is_isqrt(n: int, r: int) -> bool {
    0 <= r && r * r <= n && n < (r + 1) * (r + 1)
}

pub proof fn lemma_isqrt_exists(n: int)
    requires
        n >= 0,
    ensures
        exists|r: int| #[trigger] is_isqrt(n, r),
    decreases n,
{
    if n == 0 {
        assert(is_isqrt(0, 0));
    } else {
        lemma_isqrt_exists(n - 1);
        let r = choose|r: int| #[trigger] is_isqrt(n - 1, r);
        if (r + 1) * (r + 1) <= n {
            assert(n - 1 < (r + 1) * (r + 1));
            assert(n == (r + 1) * (r + 1));
            assert((r + 2) * (r + 2) > n) by (nonlinear_arith)
                requires
                    n == (r + 1) * (r + 1),
                    r >= 0,
            ;
            assert(is_isqrt(n, r + 1));
        } else {
            assert(is_isqrt(n, r));
        }
    }
}

pub proof fn lemma_isqrt_unique(n: int, a: int, b: int)
    requires
        is_isqrt(n, a),
        is_isqrt(n, b),
    ensures
        a == b,
{
    if a < b {
        assert((a + 1) * (a + 1) <= b * b) by (nonlinear_arith)
            requires
                0 <= a,
                a + 1 <= b,
        ;
    }
    if b < a {
        assert((b + 1) * (b + 1) <= a * a) by (nonlinear_arith)
            requires
                0 <= b,
                b + 1 <= a,
        ;
    }
}

/// The integer square root: the unique `r` with `r*r <= n < (r+1)*(r+1)`.
pub open spec fn spec_isqrt(n: int) -> int {
    choose|r: int| #[trigger] is_isqrt(n, r)
}

pub proof fn lemma_isqrt_is(n: int, r: int)
    requires
        is_isqrt(n, r),
    ensures
        spec_isqrt(n) == r,
{
    lemma_isqrt_unique(n, r, choose|q: int| #[trigger] is_isqrt(n, q));
}

/// Computes the integer square root by binary search.
pub fn isqrt_u128(n: u128) -> (r: u128)
    ensures
        is_isqrt(n as int, r as int),
        r as int == spec_isqrt(n as int),
{
    let mut lo: u128 = 0;
    let mut hi: u128 = 18446744073709551616u128;
    proof {
        assert((hi as int) * (hi as int) > u128::MAX as int) by (nonlinear_arith)
            requires
                hi == 18446744073709551616u128,
        ;
    }
    while lo + 1 < hi
        invariant
            0 <= lo < hi <= 18446744073709551616u128,
            (lo as int) * (lo as int) <= n as int,
            (n as int) < (hi as int) * (hi as int),
        decreases hi - lo,
    {
        let mid = lo + (hi - lo) / 2;
        proof {
            assert(lo < mid < hi);
            assert((mid as int) * (mid as int) <= u128::MAX as int) by (nonlinear_arith)
                requires
                    0 < mid <= 18446744073709551615u128,
            ;
        }
        if mid * mid <= n {
            lo = mid;
        } else {
            hi = mid;
        }
    }
    proof {
        assert(hi == lo + 1);
        assert(is_isqrt(n as int, lo as int));
        lemma_isqrt_is(n as int, lo as int);
    }
    lo
}

/// Sum-of-terms core of `ln` on a mantissa in `[1, 2)`:
/// `ln(m) = 2 atanh(u)` with `u = (m-1)/(m+1)`, truncated term by term.
pub open spec fn spec_ln_series(m: int) -> int {
    let s = FP_SCALE as int;
    let u = (m - s) * s / (m + s);
    let u2 = u * u / s;
    let t3 = u * u2 / s;
    let t5 = t3 * u2 / s;
    let t7 = t5 * u2 / s;
    let t9 = t7 * u2 / s;
    let t11 = t9 * u2 / s;
    2 * (u + t3 / 3 + t5 / 5 + t7 / 7 + t9 / 9 + t11 / 11)
}

/// Fixed-point natural logarithm for arguments at least 1: repeated
/// halving to a mantissa in `[1, 2)`, then the `atanh` series.
pub open spec fn spec_ln_fp(x: int) -> int
    decreases x,
{
    if x < 2 * (FP_SCALE as int) {
        spec_ln_series(x)
    } else {
        LN2_FP + spec_ln_fp(x / 2)
    }
}

/// Power of two, for range bounds on the halving count.
pub open spec fn pow2(n: nat) -> int
    decreases n,
{
    if n == 0 {
        1
    } else {
        2 * pow2((n - 1) as nat)
    }
}

/// For `0 <= y <= s`: scaling `x` by `y/s` does not increase it.
proof fn lemma_scale_down(x: int, y: int, s: int)
    requires
        0 <= x,
        0 <= y <= s,
        1 <= s,
    ensures
        0 <= x * y / s <= x,
{
    assert(x * y <= x * s) by (nonlinear_arith)
        requires
            0 <= x,
            y <= s,
    ;
    assert(x * y >= 0) by (nonlinear_arith)
        requires
            0 <= x,
            0 <= y,
    ;
    vstd::arithmetic::div_mod::lemma_div_is_ordered(0, x * y, s);
    vstd::arithmetic::div_mod::lemma_div_is_ordered(x * y, x * s, s);
    vstd::arithmetic::div_mod::lemma_div_multiples_vanish(x, s);
    assert(x * s == s * x) by (nonlinear_arith);
}

fn ln_series(m: u128) -> (r: i128)
    requires
        FP_SCALE <= m < 2 * FP_SCALE,
    ensures
        r == spec_ln_series(m as int),
        0 <= r <= 4_000_000_000,
{
    let s: u128 = 1_000_000_000;
    proof {
        assert(((m as int) - (s as int)) * (s as int) <= 1000000000000000000int)
            by (nonlinear_arith)
            requires
                s == 1_000_000_000u128,
                (m as int) < 2 * (s as int),
        ;
        assert(((m as int) - (s as int)) * (s as int) >= 0) by (nonlinear_arith)
            requires
                s == 1_000_000_000u128,
                s as int <= m as int,
        ;
    }
    let u: u128 = ((m - s) * s) / (m + s);
    proof {
        assert(u as int <= s as int) by (nonlinear_arith)
            requires
                s == 1_000_000_000u128,
                s as int <= m as int,
                (m as int) < 2 * (s as int),
                u as int == (((m as int) - (s as int)) * (s as int)) / ((m as int) + (s as int)),
        ;
        lemma_scale_down(u as int, u as int, s as int);
    }
    let u2: u128 = (u * u) / s;
    proof {
        lemma_scale_down(u as int, u2 as int, s as int);
    }
    let t3: u128 = (u * u2) / s;
    proof {
        lemma_scale_down(t3 as int, u2 as int, s as int);
    }
    let t5: u128 = (t3 * u2) / s;
    proof {
        lemma_scale_down(t5 as int, u2 as int, s as int);
    }
    let t7: u128 = (t5 * u2) / s;
    proof {
        lemma_scale_down(t7 as int, u2 as int, s as int);
    }
    let t9: u128 = (t7 * u2) / s;
    proof {
        lemma_scale_down(t9 as int, u2 as int, s as int);
    }
    let t11: u128 = (t9 * u2) / s;
    let total: u128 = 2 * (u + t3 / 3 + t5 / 5 + t7 / 7 + t9 / 9 + t11 / 11);
    total as i128
}

proof fn lemma_pow2_add(a: nat, b: nat)
    ensures
        pow2((a + b) as nat) == pow2(a) * pow2(b),
    decreases b,
{
    if b > 0 {
        lemma_pow2_add(a, (b - 1) as nat);
        assert(pow2((a + b) as nat) == 2 * pow2((a + b - 1) as nat));
        assert(2 * (pow2(a) * pow2((b - 1) as nat)) == pow2(a) * (2 * pow2((b - 1) as nat)))
            by (nonlinear_arith);
    }
}

proof fn lemma_pow2_98()
    ensures
        pow2(98) == 316912650057057350374175801344,
{
    reveal_with_fuel(pow2, 15);
    assert(pow2(14) == 16384);
    lemma_pow2_add(14, 14);
    assert(pow2(28) == 268435456);
    lemma_pow2_add(28, 28);
    assert(pow2(56) == 72057594037927936);
    lemma_pow2_add(56, 28);
    assert(pow2(84) == 19342813113834066795298816);
    lemma_pow2_add(84, 14);
}

/// Computes the fixed-point natural logarithm of `x >= 1`.
pub fn ln_fp(x: i128) -> (r: i128)
    requires
        FP_SCALE <= x <= 100_000_000_000_000_000_000_000_000_000,
    ensures
        r == spec_ln_fp(x as int),
        0 <= r <= 100_000_000_000,
{
    let mut m: u128 = x as u128;
    let mut acc: i128 = 0;
    let ghost mut k: nat = 0nat;
    while m >= 2_000_000_000u128
        invariant
            FP_SCALE <= m <= x,
            x <= 100_000_000_000_000_000_000_000_000_000,
            acc == k * LN2_FP,
            pow2(k) * (m as int) <= x as int,
            k <= 97,
            spec_ln_fp(x as int) == acc + spec_ln_fp(m as int),
        decreases m,
    {
        let m2 = m / 2;
        proof {
            lemma_pow2_pos(k);
            lemma_pow2_pos((k + 1) as nat);
            assert(pow2((k + 1) as nat) == 2 * pow2(k));
            assert(pow2((k + 1) as nat) * (m2 as int) <= pow2(k) * (m as int))
                by (nonlinear_arith)
                requires
                    m2 as int == (m as int) / 2,
                    m >= 2u128,
                    pow2((k + 1) as nat) == 2 * pow2(k),
                    pow2(k) >= 1,
            ;
            if k + 1 > 97 {
                lemma_pow2_mono(98nat, (k + 1) as nat);
                lemma_pow2_98();
                assert(pow2((k + 1) as nat) * (m2 as int) >= pow2(98nat) * (m2 as int))
                    by (nonlinear_arith)
                    requires
                        pow2((k + 1) as nat) >= pow2(98nat),
                        m2 >= 0,
                ;
                assert(pow2(98nat) * (m2 as int) > 100_000_000_000_000_000_000_000_000_000int)
                    by (nonlinear_arith)
                    requires
                        pow2(98nat) == 316912650057057350374175801344,
                        m2 >= 1_000_000_000u128,
                ;
            }
        }
        m = m2;
        acc = acc + LN2_FP;
        proof {
            k = k + 1;
        }
    }
    proof {
        lemma_pow2_pos(k);
        assert(acc <= 97 * LN2_FP);
    }
    let sr = ln_series(m);
    acc + sr
}

/// A square is nonnegative and bounded by the square of the bound.
pub proof fn lemma_square_bounds(a: int, c: int)
    requires
        -c <= a <= c,
        0 <= c,
    ensures
        0 <= a * a <= c * c,
{
    assert(0 <= a * a <= c * c) by (nonlinear_arith)
        requires
            -c <= a <= c,
            0 <= c,
    ;
}

/// Magnitudes multiply: bounds on factors bound the product.
pub proof fn lemma_abs_mul_bound(a: int, b: int, ca: int, cb: int)
    requires
        -ca <= a <= ca,
        -cb <= b <= cb,
        0 <= ca,
        0 <= cb,
    ensures
        -(ca * cb) <= a * b <= ca * cb,
{
    assert(-(ca * cb) <= a * b <= ca * cb) by (nonlinear_arith)
        requires
            -ca <= a <= ca,
            -cb <= b <= cb,
            0 <= ca,
            0 <= cb,
    ;
}

/// For `b >= 1` and `a >= s*b`: `a / b >= s`.
proof fn lemma_div_ge(a: int, b: int, s: int)
    requires
        1 <= b,
        0 <= s,
        a >= s * b,
    ensures
        a / b >= s,
{
    vstd::arithmetic::div_mod::lemma_div_is_ordered(s * b, a, b);
    vstd::arithmetic::div_mod::lemma_div_multiples_vanish(s, b);
    assert(s * b == b * s) by (nonlinear_arith);
}

/// Alternating arctangent series on `[0, 1)`, truncated term by term.
pub open spec fn spec_atan_series(u: int) -> int {
    let s = FP_SCALE as int;
    let u2 = u * u / s;
    let t3 = u * u2 / s;
    let t5 = t3 * u2 / s;
    let t7 = t5 * u2 / s;
    let t9 = t7 * u2 / s;
    let t11 = t9 * u2 / s;
    u - t3 / 3 + t5 / 5 - t7 / 7 + t9 / 9 - t11 / 11
}

/// Half-angle reduction: `atan(t) = 2 atan(t / (1 + sqrt(1 + t^2)))`.
pub open spec fn spec_atan_half(t: int) -> int {
    let s = FP_SCALE as int;
    t * s / (s + spec_isqrt(s * s + t * t))
}

/// Arctangent on `[0, 1]`: two half-angle steps, then the series.
pub open spec fn spec_atan01(t: int) -> int {
    4 * spec_atan_series(spec_atan_half(spec_atan_half(t)))
}

/// Arctangent on `[0, oo)`, via `atan(t) = pi/2 - atan(1/t)` above 1.
pub open spec fn spec_atan_pos(t: int) -> int {
    let s = FP_SCALE as int;
    if t <= s {
        spec_atan01(t)
    } else {
        HALF_PI_FP - spec_atan01(s * s / t)
    }
}

fn atan_half(t: u128) -> (r: u128)
    requires
        t <= 1_000_000_000,
    ensures
        r as int == spec_atan_half(t as int),
        r <= 500_000_000,
        2 * (r as int) <= t as int,
{
    let s: u128 = 1_000_000_000;
    proof {
        lemma_square_bounds(t as int, 1_000_000_000);
    }
    let q = isqrt_u128(s * s + t * t);
    proof {
        assert((q as int) >= 1_000_000_000) by (nonlinear_arith)
            requires
                is_isqrt((s * s + t * t) as int, q as int),
                s == 1_000_000_000u128,
        ;
        assert((q as int) <= 2_000_000_000) by (nonlinear_arith)
            requires
                is_isqrt((s * s + t * t) as int, q as int),
                (s * s + t * t) as int <= 2_000_000_000_000_000_000int,
        ;
        lemma_abs_mul_bound(t as int, s as int, 1_000_000_000, 1_000_000_000);
    }
    let r = (t * s) / (s + q);
    proof {
        let ti = t as int;
        let si = s as int;
        let qi = q as int;
        vstd::arithmetic::div_mod::lemma_div_is_ordered_by_denominator(ti * si, 2 * si, si + qi);
        vstd::arithmetic::div_mod::lemma_div_denominator(ti * si, si, 2);
        vstd::arithmetic::div_mod::lemma_div_multiples_vanish(ti, si);
        assert(ti * si == si * ti) by (nonlinear_arith);
        assert(si * 2 == 2 * si);
        assert((r as int) <= ti / 2);
        assert(2 * (ti / 2) <= ti) by {
            vstd::arithmetic::div_mod::lemma_fundamental_div_mod(ti, 2);
            vstd::arithmetic::div_mod::lemma_mod_bound(ti, 2);
        }
    }
    r
}

fn atan_series_exec(u: u128) -> (r: i128)
    requires
        u <= 1_000_000_000,
    ensures
        r == spec_atan_series(u as int),
        0 <= r <= 2_000_000_000,
{
    let s: u128 = 1_000_000_000;
    proof {
        lemma_scale_down(u as int, u as int, s as int);
    }
    let u2: u128 = (u * u) / s;
    proof {
        lemma_scale_down(u as int, u2 as int, s as int);
    }
    let t3: u128 = (u * u2) / s;
    proof {
        lemma_scale_down(t3 as int, u2 as int, s as int);
    }
    let t5: u128 = (t3 * u2) / s;
    proof {
        lemma_scale_down(t5 as int, u2 as int, s as int);
    }
    let t7: u128 = (t5 * u2) / s;
    proof {
        lemma_scale_down(t7 as int, u2 as int, s as int);
    }
    let t9: u128 = (t7 * u2) / s;
    proof {
        lemma_scale_down(t9 as int, u2 as int, s as int);
    }
    let t11: u128 = (t9 * u2) / s;
    let pos: u128 = u + t5 / 5 + t9 / 9;
    let negs: u128 = t3 / 3 + t7 / 7 + t11 / 11;
    proof {
        vstd::arithmetic::div_mod::lemma_div_is_ordered(t3 as int, u as int, 3);
        vstd::arithmetic::div_mod::lemma_div_is_ordered(t7 as int, t5 as int, 7);
        vstd::arithmetic::div_mod::lemma_div_is_ordered(t11 as int, t9 as int, 11);
        vstd::arithmetic::div_mod::lemma_div_is_ordered_by_denominator(t3 as int, 3, 3);
        assert((t3 as int) / 3 <= (u as int) / 3);
        assert((u as int) / 3 <= u as int);
        assert((t7 as int) / 7 <= (t5 as int) / 7 <= (t5 as int) / 5) by {
            vstd::arithmetic::div_mod::lemma_div_is_ordered_by_denominator(t5 as int, 5, 7);
        }
        assert((t11 as int) / 11 <= (t9 as int) / 11 <= (t9 as int) / 9) by {
            vstd::arithmetic::div_mod::lemma_div_is_ordered_by_denominator(t9 as int, 9, 11);
        }
    }
    (pos as i128) - (negs as i128)
}

fn atan_pos(t: u128) -> (r: i128)
    requires
        t <= 4_000_000_000_000_000_000_000_000_000,
    ensures
        r == spec_atan_pos(t as int),
        0 <= r <= 1_600_000_000,
{
    let s: u128 = 1_000_000_000;
    if t <= s {
        let u1 = atan_half(t);
        let u2 = atan_half(u1);
        let sr = atan_series_exec(u2);
        proof {
            assert(spec_atan_series(u2 as int) <= u2 as int) by {
                lemma_atan_series_le(u2 as int);
            }
        }
        4 * sr
    } else {
        let inv = (s * s) / t;
        proof {
            vstd::arithmetic::div_mod::lemma_div_is_ordered_by_denominator(
                1_000_000_000_000_000_000,
                s as int,
                t as int,
            );
            vstd::arithmetic::div_mod::lemma_div_multiples_vanish(s as int, s as int);
        }
        let u1 = atan_half(inv);
        let u2 = atan_half(u1);
        let sr = atan_series_exec(u2);
        proof {
            assert(spec_atan_series(u2 as int) <= u2 as int) by {
                lemma_atan_series_le(u2 as int);
            }
        }
        1_570_796_326i128 - 4 * sr
    }
}

/// The truncated arctangent series never exceeds its first term.
proof fn lemma_atan_series_le(u: int)
    requires
        0 <= u <= 1_000_000_000,
    ensures
        spec_atan_series(u) <= u,
{
    let s = FP_SCALE as int;
    lemma_scale_down(u, u, s);
    let u2 = u * u / s;
    lemma_scale_down(u, u2, s);
    let t3 = u * u2 / s;
    lemma_scale_down(t3, u2, s);
    let t5 = t3 * u2 / s;
    lemma_scale_down(t5, u2, s);
    let t7 = t5 * u2 / s;
    lemma_scale_down(t7, u2, s);
    let t9 = t7 * u2 / s;
    lemma_scale_down(t9, u2, s);
    vstd::arithmetic::div_mod::lemma_div_is_ordered(t5, t3, 5);
    vstd::arithmetic::div_mod::lemma_div_is_ordered_by_denominator(t3, 3, 5);
    vstd::arithmetic::div_mod::lemma_div_is_ordered(t9, t7, 9);
    vstd::arithmetic::div_mod::lemma_div_is_ordered_by_denominator(t7, 7, 9);
}

/// Polar angle of a momentum vector against the beam (`z`) axis:
/// `theta = atan2(sqrt(x^2 + y^2), z)`, in `[0, pi]`.
pub open spec fn spec_theta(x: int, y: int, z: int) -> int {
    let s = FP_SCALE as int;
    let pt = spec_isqrt(x * x + y * y);
    if z > 0 {
        spec_atan_pos(pt * s / z)
    } else if z == 0 {
        HALF_PI_FP as int
    } else {
        (PI_FP as int) - spec_atan_pos(pt * s / (-z))
    }
}

/// Computes the polar angle of the momentum vector `p` in `[0, pi]`.
pub fn theta(p: &(i128, i128, i128)) -> (r: i128)
    requires
        -FP_LIM <= p.0 <= FP_LIM,
        -FP_LIM <= p.1 <= FP_LIM,
        -FP_LIM <= p.2 <= FP_LIM,
    ensures
        r == spec_theta(p.0 as int, p.1 as int, p.2 as int),
        0 <= r <= 3_200_000_000,
{
    let (x, y, z) = *p;
    proof {
        lemma_square_bounds(x as int, FP_LIM as int);
        lemma_square_bounds(y as int, FP_LIM as int);
    }
    let pt = isqrt_u128((x * x + y * y) as u128);
    proof {
        assert((pt as int) <= 2_000_000_000_000_000_000int) by (nonlinear_arith)
            requires
                is_isqrt(((x * x + y * y) as u128) as int, pt as int),
                ((x * x + y * y) as u128) as int <= 2_000_000_000_000_000_000_000_000_000_000_000_000int,
        ;
    }
    if z > 0 {
        proof {
            lemma_abs_mul_bound(pt as int, FP_SCALE as int, 2_000_000_000_000_000_000int,
                FP_SCALE as int);
        }
        let t = (pt as u128 * 1_000_000_000u128) / (z as u128);
        proof {
            vstd::arithmetic::div_mod::lemma_div_is_ordered_by_denominator(
                (pt as u128 * 1_000_000_000u128) as int,
                1,
                z as int,
            );
        }
        atan_pos(t)
    } else if z == 0 {
        1_570_796_326i128
    } else {
        proof {
            lemma_abs_mul_bound(pt as int, FP_SCALE as int, 2_000_000_000_000_000_000int,
                FP_SCALE as int);
        }
        let zn = -z;
        let t = (pt as u128 * 1_000_000_000u128) / (zn as u128);
        proof {
            vstd::arithmetic::div_mod::lemma_div_is_ordered_by_denominator(
                (pt as u128 * 1_000_000_000u128) as int,
                1,
                zn as int,
            );
        }
        let a = atan_pos(t);
        3_141_592_653i128 - a
    }
}

/// Magnitude of a momentum vector, truncated to the fixed-point grid.
pub open spec fn spec_momentum_mag(x: int, y: int, z: int) -> int {
    spec_isqrt(x * x + y * y + z * z)
}

/// Computes the momentum magnitude `sqrt(x^2 + y^2 + z^2)`.
pub fn momentum_mag(x: i128, y: i128, z: i128) -> (r: i128)
    requires
        -FP_LIM <= x <= FP_LIM,
        -FP_LIM <= y <= FP_LIM,
        -FP_LIM <= z <= FP_LIM,
    ensures
        r == spec_momentum_mag(x as int, y as int, z as int),
        0 <= r <= 2_000_000_000_000_000_000,
{
    proof {
        lemma_square_bounds(x as int, FP_LIM as int);
        lemma_square_bounds(y as int, FP_LIM as int);
        lemma_square_bounds(z as int, FP_LIM as int);
    }
    let n = (x * x + y * y + z * z) as u128;
    let pm = isqrt_u128(n);
    proof {
        assert((pm as int) <= 2_000_000_000_000_000_000int) by (nonlinear_arith)
            requires
                is_isqrt(n as int, pm as int),
                n as int <= 3_000_000_000_000_000_000_000_000_000_000_000_000int,
        ;
    }
    pm as i128
}

/// Energy from a mass and a momentum magnitude:
/// `sqrt(mass^2 + |p|^2)`, truncated to the fixed-point grid.
pub open spec fn spec_energy_from(m: int, pmag: int) -> int {
    spec_isqrt(m * m + pmag * pmag)
}

/// Computes `sqrt(m^2 + pmag^2)`.
pub fn energy_from(m: i128, pmag: i128) -> (r: i128)
    requires
        -FP_LIM <= m <= FP_LIM,
        0 <= pmag <= 2_000_000_000_000_000_000,
    ensures
        r == spec_energy_from(m as int, pmag as int),
        0 <= r <= 3_000_000_000_000_000_000,
        r >= pmag,
{
    proof {
        lemma_square_bounds(m as int, FP_LIM as int);
        lemma_square_bounds(pmag as int, 2_000_000_000_000_000_000int);
    }
    let n = (m * m + pmag * pmag) as u128;
    let e = isqrt_u128(n);
    proof {
        assert((e as int) <= 3_000_000_000_000_000_000int) by (nonlinear_arith)
            requires
                is_isqrt(n as int, e as int),
                n as int <= 5_000_000_000_000_000_000_000_000_000_000_000_000int,
        ;
        assert((e as int) >= pmag as int) by (nonlinear_arith)
            requires
                is_isqrt(n as int, e as int),
                n as int >= (pmag as int) * (pmag as int),
                pmag >= 0,
        ;
    }
    e as i128
}

/// Pseudorapidity of a momentum vector about the `z` axis:
/// `eta = atanh(pz / |p|) = ln((|p| + pz) / (|p| - pz)) / 2`; the
/// sentinel `ETA_INF` (with its negation) stands for a particle moving
/// exactly along the beam axis.
pub open spec fn spec_pseudorapidity(x: int, y: int, z: int) -> int {
    let s = FP_SCALE as int;
    let pm = spec_momentum_mag(x, y, z);
    if z >= pm {
        ETA_INF as int
    } else if -z >= pm {
        -(ETA_INF as int)
    } else if z >= 0 {
        spec_ln_fp((pm + z) * s / (pm - z)) / 2
    } else {
        -(spec_ln_fp((pm - z) * s / (pm + z)) / 2)
    }
}

/// z-pseudorapidity
pub fn pseudorapidity(p: &(i128, i128, i128)) -> (r: i128)
    requires
        -FP_LIM <= p.0 <= FP_LIM,
        -FP_LIM <= p.1 <= FP_LIM,
        -FP_LIM <= p.2 <= FP_LIM,
    ensures
        r == spec_pseudorapidity(p.0 as int, p.1 as int, p.2 as int),
        -ETA_INF <= r <= ETA_INF,
{
    let (x, y, z) = *p;
    let pm = momentum_mag(x, y, z);
    if z >= pm {
        1_000_000_000_000_000_000_000i128
    } else if -z >= pm {
        -1_000_000_000_000_000_000_000i128
    } else if z >= 0 {
        proof {
            lemma_abs_mul_bound((pm + z) as int, FP_SCALE as int, 4_000_000_000_000_000_000int,
                FP_SCALE as int);
            lemma_abs_mul_bound((pm - z) as int, FP_SCALE as int, 4_000_000_000_000_000_000int,
                FP_SCALE as int);
            lemma_div_ge(((pm + z) as int) * (FP_SCALE as int), (pm - z) as int, FP_SCALE as int);
        }
        let arg = (((pm + z) as u128) * 1_000_000_000u128) / ((pm - z) as u128);
        let l = ln_fp(arg as i128);
        ((l as u128) / 2) as i128
    } else {
        proof {
            lemma_abs_mul_bound((pm - z) as int, FP_SCALE as int, 4_000_000_000_000_000_000int,
                FP_SCALE as int);
            lemma_div_ge(((pm - z) as int) * (FP_SCALE as int), (pm + z) as int, FP_SCALE as int);
        }
        let arg = (((pm - z) as u128) * 1_000_000_000u128) / ((pm + z) as u128);
        let l = ln_fp(arg as i128);
        -(((l as u128) / 2) as i128)
    }
}

/// Largest magnitude a boosted momentum component may take; beyond it
/// the boost saturates.
pub const LAB_SAT: i128 = 1_000_000_000_000_000_000_000_000_000;

/// Speed fraction `|p| / E` of a particle, in fixed point; `None` when
/// the mass is unresolvable or the energy is zero.
pub open spec fn spec_beta<P: Particle>(p: &P, dec: &EposDict) -> Option<i128> {
    let pm = spec_momentum_mag(
        p.spec_momentum().0 as int,
        p.spec_momentum().1 as int,
        p.spec_momentum().2 as int,
    );
    match p.spec_mass_energy(dec) {
        None => None,
        Some(m) => {
            let e = spec_energy_from(m as int, pm);
            if e == 0 {
                None
            } else {
                Some((pm * (FP_SCALE as int) / e) as i128)
            }
        },
    }
}

/// Lorentz factor `E / mass` of a particle, truncated toward zero;
/// `None` when the mass is unresolvable or zero.
pub open spec fn spec_gamma<P: Particle>(p: &P, dec: &EposDict) -> Option<i128> {
    let pm = spec_momentum_mag(
        p.spec_momentum().0 as int,
        p.spec_momentum().1 as int,
        p.spec_momentum().2 as int,
    );
    match p.spec_mass_energy(dec) {
        None => None,
        Some(m) => {
            if m == 0 {
                None
            } else {
                let e = spec_energy_from(m as int, pm);
                if m > 0 {
                    Some((e * (FP_SCALE as int) / (m as int)) as i128)
                } else {
                    Some((-(e * (FP_SCALE as int) / (-(m as int)))) as i128)
                }
            }
        },
    }
}

/// Inverse hyperbolic tangent at fixed point, for arguments in
/// `[-1, 1]`; the endpoints saturate to the infinity sentinel.
pub open spec fn spec_atanh(b: int) -> int {
    let s = FP_SCALE as int;
    if b >= s {
        ETA_INF as int
    } else if b <= -s {
        -(ETA_INF as int)
    } else if b >= 0 {
        spec_ln_fp((s + b) * s / (s - b)) / 2
    } else {
        -(spec_ln_fp((s - b) * s / (s + b)) / 2)
    }
}

/// Rapidity `atanh(beta)` of a particle.
pub open spec fn spec_rapidity<P: Particle>(p: &P, dec: &EposDict) -> Option<i128> {
    match spec_beta(p, dec) {
        None => None,
        Some(b) => Some(spec_atanh(b as int) as i128),
    }
}

/// Computes `beta = |p| / E`.
pub fn beta<P: Particle>(p: &P, dec: &EposDict) -> (r: Option<i128>)
    requires
        p.wf(),
        dec.charges_bounded(),
    ensures
        r == spec_beta(p, dec),
        r is Some ==> 0 <= r->0 <= FP_SCALE,
{
    let pm = p.momentum_energy(dec);
    match p.energy(dec) {
        None => None,
        Some(e) => {
            if e == 0 {
                None
            } else {
                let q = (((pm as u128) * 1_000_000_000u128) / (e as u128)) as i128;
                proof {
                    let pmi = pm as int;
                    let ei = e as int;
                    let si = FP_SCALE as int;
                    vstd::arithmetic::div_mod::lemma_div_is_ordered(pmi * si, ei * si, ei);
                    vstd::arithmetic::div_mod::lemma_div_multiples_vanish(si, ei);
                    assert(pmi * si <= ei * si) by (nonlinear_arith)
                        requires
                            pmi <= ei,
                            si >= 0,
                    ;
                    assert(ei * si == si * ei) by (nonlinear_arith);
                }
                Some(q)
            }
        },
    }
}

/// Computes `gamma = E / mass`.
pub fn gamma<P: Particle>(p: &P, dec: &EposDict) -> (r: Option<i128>)
    requires
        p.wf(),
        dec.charges_bounded(),
    ensures
        r == spec_gamma(p, dec),
        r is Some ==> -4_000_000_000_000_000_000_000_000_000 <= r->0
            <= 4_000_000_000_000_000_000_000_000_000,
{
    match p.mass_energy(dec) {
        None => None,
        Some(m) => {
            if m == 0 {
                return None;
            }
            match p.energy(dec) {
                None => None,
                Some(e) => {
                    let ma: u128 = if m > 0 {
                        m as u128
                    } else {
                        (-m) as u128
                    };
                    proof {
                        lemma_abs_mul_bound(e as int, FP_SCALE as int,
                            3_000_000_000_000_000_000int, FP_SCALE as int);
                    }
                    let q = (((e as u128) * 1_000_000_000u128) / ma) as i128;
                    proof {
                        vstd::arithmetic::div_mod::lemma_div_is_ordered_by_denominator(
                            (e as int) * (FP_SCALE as int),
                            1,
                            ma as int,
                        );
                        vstd::arithmetic::div_mod::lemma_div_is_ordered(
                            0,
                            (e as int) * (FP_SCALE as int),
                            ma as int,
                        );
                        assert(q as int == (e as int) * (FP_SCALE as int) / (ma as int));
                    }
                    proof {
                        let pms = spec_momentum_mag(
                            p.spec_momentum().0 as int,
                            p.spec_momentum().1 as int,
                            p.spec_momentum().2 as int,
                        );
                        let es = spec_energy_from(p.spec_mass_energy(dec)->0 as int, pms);
                        assert(e as int == es);
                        assert(ma as int == if m > 0 { m as int } else { -(m as int) });
                        assert(q as int == es * (FP_SCALE as int) / (ma as int));
                    }
                    if m > 0 {
                        Some(q)
                    } else {
                        Some(-q)
                    }
                },
            }
        },
    }
}

/// Computes the rapidity `atanh(beta)`.
pub fn rapidity<P: Particle>(p: &P, dec: &EposDict) -> (r: Option<i128>)
    requires
        p.wf(),
        dec.charges_bounded(),
    ensures
        r == spec_rapidity(p, dec),
{
    match beta(p, dec) {
        None => None,
        Some(b) => {
            if b >= 1_000_000_000 {
                Some(1_000_000_000_000_000_000_000i128)
            } else {
                let s: i128 = 1_000_000_000;
                proof {
                    lemma_abs_mul_bound((s + b) as int, FP_SCALE as int, 2_000_000_000int,
                        FP_SCALE as int);
                    lemma_div_ge(((s + b) as int) * (FP_SCALE as int), (s - b) as int,
                        FP_SCALE as int);
                }
                let arg = ((((s + b) as u128) * 1_000_000_000u128) / ((s - b) as u128)) as i128;
                let l = ln_fp(arg);
                Some(((l as u128) / 2) as i128)
            }
        },
    }
}

/// The boosted longitudinal component: `gamma * (pz + beta * E)`, with
/// magnitudes beyond `LAB_SAT` saturated.
pub open spec fn spec_lab_z(g: int, w: int) -> i128 {
    let s = FP_SCALE as int;
    let ga = if g >= 0 {
        g
    } else {
        -g
    };
    let wa = if w >= 0 {
        w
    } else {
        -w
    };
    let mag = ga * wa / s;
    let magc = if mag > LAB_SAT {
        LAB_SAT as int
    } else {
        mag
    };
    if (g >= 0) == (w >= 0) {
        magc as i128
    } else {
        (-magc) as i128
    }
}

/// A z-axis Lorentz boost of the momentum into the lab frame:
/// `(px, py, gamma * (pz + beta * E))`; `None` when beta or gamma is
/// undefined.
pub open spec fn spec_lab_momentum<P: Particle>(p: &P, dec: &EposDict) -> Option<
    (i128, i128, i128),
> {
    let s = FP_SCALE as int;
    let pm = spec_momentum_mag(
        p.spec_momentum().0 as int,
        p.spec_momentum().1 as int,
        p.spec_momentum().2 as int,
    );
    match (spec_beta(p, dec), spec_gamma(p, dec)) {
        (Some(b), Some(g)) => {
            let e = spec_energy_from(p.spec_mass_energy(dec)->0 as int, pm);
            let be = (b as int) * e / s;
            let w = (p.spec_momentum().2 as int) + be;
            Some((p.spec_momentum().0, p.spec_momentum().1, spec_lab_z(g as int, w)))
        },
        _ => None,
    }
}

/// Computes the lab-frame momentum.
#[verifier::rlimit(100)]
pub fn lab_momentum<P: Particle>(p: &P, dec: &EposDict) -> (r: Option<(i128, i128, i128)>)
    requires
        p.wf(),
        dec.charges_bounded(),
    ensures
        r == spec_lab_momentum(p, dec),
{
    let b = match beta(p, dec) {
        Some(b) => b,
        None => {
            return None;
        },
    };
    let g = match gamma(p, dec) {
        Some(g) => g,
        None => {
            return None;
        },
    };
    let m = p.momentum(dec);
    let e = match p.energy(dec) {
        Some(e) => e,
        None => {
            return None;
        },
    };
    proof {
        lemma_abs_mul_bound(b as int, e as int, FP_SCALE as int, 3_000_000_000_000_000_000int);
    }
    let be = (((b as u128) * (e as u128)) / 1_000_000_000u128) as i128;
    proof {
        vstd::arithmetic::div_mod::lemma_div_is_ordered_by_denominator(
            (b as int) * (e as int),
            1,
            1_000_000_000,
        );
        vstd::arithmetic::div_mod::lemma_div_is_ordered(0, (b as int) * (e as int), 1_000_000_000);
    }
    let w: i128 = m.2 + be;
    let ga: u128 = if g >= 0 {
        g as u128
    } else {
        (-g) as u128
    };
    let wa: u128 = if w >= 0 {
        w as u128
    } else {
        (-w) as u128
    };
    let mag: i128;
    if wa != 0 && ga > u128::MAX / wa {
        proof {
            lemma_sat_product(ga as int, wa as int);
        }
        mag = LAB_SAT;
    } else {
        let prod: u128 = if wa == 0 {
            proof {
                assert((ga as int) * (wa as int) == 0) by (nonlinear_arith)
                    requires
                        wa == 0u128,
                ;
            }
            0
        } else {
            proof {
                lemma_mul_le_from_div_u(ga as int, wa as int, u128::MAX as int);
            }
            ga * wa
        };
        proof {
            assert(prod as int == (ga as int) * (wa as int));
        }
        let q = prod / 1_000_000_000u128;
        proof {
            assert(q as int == (ga as int) * (wa as int) / (FP_SCALE as int));
        }
        if q > LAB_SAT as u128 {
            mag = LAB_SAT;
        } else {
            mag = q as i128;
        }
    }
    let zl: i128 = if (g >= 0) == (w >= 0) {
        mag
    } else {
        -mag
    };
    Some((m.0, m.1, zl))
}

/// A product that exceeds the machine range also exceeds the saturation
/// threshold after rescaling.
proof fn lemma_sat_product(ga: int, wa: int)
    requires
        1 <= wa,
        0 <= ga,
        ga > u128::MAX as int / wa,
    ensures
        ga * wa / (FP_SCALE as int) > LAB_SAT,
{
    let mx = u128::MAX as int;
    vstd::arithmetic::div_mod::lemma_fundamental_div_mod(mx, wa);
    vstd::arithmetic::div_mod::lemma_mod_bound(mx, wa);
    assert(ga * wa >= (mx / wa + 1) * wa) by (nonlinear_arith)
        requires
            ga >= mx / wa + 1,
            wa >= 1,
    ;
    assert((mx / wa + 1) * wa == (mx / wa) * wa + wa) by (nonlinear_arith);
    assert(wa * (mx / wa) == (mx / wa) * wa) by (nonlinear_arith);
    assert(ga * wa > mx);
    lemma_div_ge(ga * wa, FP_SCALE as int, LAB_SAT as int + 1);
    assert((LAB_SAT as int + 1) * (FP_SCALE as int) <= mx);
}

/// For positive `wa`: `ga <= max / wa` implies the product fits.
proof fn lemma_mul_le_from_div_u(ga: int, wa: int, mx: int)
    requires
        0 <= ga,
        1 <= wa,
        0 <= mx,
        ga <= mx / wa,
    ensures
        ga * wa <= mx,
{
    vstd::arithmetic::div_mod::lemma_fundamental_div_mod(mx, wa);
    vstd::arithmetic::mul::lemma_mul_inequality(ga, mx / wa, wa);
    vstd::arithmetic::div_mod::lemma_mod_bound(mx, wa);
}

/// The logarithm of one is zero on the fixed-point grid.
pub proof fn lemma_ln_one()
    ensures
        spec_ln_fp(FP_SCALE as int) == 0,
{
    assert(spec_ln_fp(FP_SCALE as int) == spec_ln_series(FP_SCALE as int));
}

/// Pseudorapidity is odd in the beam axis: reflecting the longitudinal
/// momentum negates it. (The zero vector is left out: there both signs
/// sit at the positive infinity sentinel.)
pub proof fn lemma_pseudorapidity_odd(x: int, y: int, z: int)
    requires
        x != 0 || y != 0 || z != 0,
    ensures
        spec_pseudorapidity(x, y, -z) == -spec_pseudorapidity(x, y, z),
{
    assert(z * z == (-z) * (-z)) by (nonlinear_arith);
    assert(x * x >= 0 && y * y >= 0 && z * z >= 0) by (nonlinear_arith);
    assert(x * x + y * y + z * z >= 1) by (nonlinear_arith)
        requires
            x != 0 || y != 0 || z != 0,
    ;
    lemma_isqrt_exists_for(x * x + y * y + z * z);
    let pm = spec_momentum_mag(x, y, z);
    assert(spec_momentum_mag(x, y, -z) == pm);
    assert(pm >= 0);
    if z >= pm || -z >= pm {
    } else if z == 0 {
        let s = FP_SCALE as int;
        assert(pm > 0);
        vstd::arithmetic::div_mod::lemma_div_multiples_vanish(s, pm);
        assert(pm * s == s * pm) by (nonlinear_arith);
        assert((pm + 0) * s == pm * s);
        assert((pm + 0) * s / (pm - 0) == s);
        lemma_ln_one();
    }
}

/// The square sum has an integer square root whenever it is nonnegative.
proof fn lemma_isqrt_exists_for(n: int)
    requires
        n >= 0,
    ensures
        is_isqrt(n, spec_isqrt(n)),
{
    lemma_isqrt_exists(n);
    let r = choose|r: int| #[trigger] is_isqrt(n, r);
    lemma_isqrt_is(n, r);
}

proof fn lemma_pow2_pos(n: nat)
    ensures
        pow2(n) >= 1,
    decreases n,
{
    if n > 0 {
        lemma_pow2_pos((n - 1) as nat);
    }
}

proof fn lemma_pow2_mono(m: nat, n: nat)
    requires
        m <= n,
    ensures
        pow2(m) <= pow2(n),
    decreases n,
{
    if m < n {
        lemma_pow2_mono(m, (n - 1) as nat);
        lemma_pow2_pos((n - 1) as nat);
    }
}

} // verus!
