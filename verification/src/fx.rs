//! Signed 16.16 fixed-point scalars.
//!
//! A scalar is an `i64` whose mathematical value is the integer divided by
//! [`SCALE`]. Multiplication, division and square root round toward
//! negative infinity, which matches the flooring `/` of specification
//! integers, so every operation here has an exact integer description.

use vstd::prelude::*;
use vstd::arithmetic::div_mod::{
    lemma_div_is_ordered, lemma_div_multiples_vanish, lemma_div_pos_is_pos,
    lemma_fundamental_div_mod, lemma_fundamental_div_mod_converse,
};
use vstd::arithmetic::mul::lemma_mul_upper_bound;

verus! {

/// Number of fixed-point units that represent 1: a scalar `x` stands for
/// the real number `x / SCALE`.
pub const SCALE: i64 = 65536;

/// The fixed-point product of `a` and `b`: the exact integer product,
/// floor-divided by `SCALE`.
pub open spec fn fx_mul_spec(a: int, b: int) -> int {
    (a * b) / (SCALE as int)
}

/// The fixed-point quotient of `a` by a positive `b`: the exact value
/// `a / b` re-scaled into fixed-point form and floored.
pub open spec fn fx_div_spec(a: int, b: int) -> int {
    (a * (SCALE as int)) / b
}

/// `r` is the floor of the real square root of `n`.
pub open spec fn is_sqrt_floor(n: int, r: int) -> bool {
    0 <= r && r * r <= n < (r + 1) * (r + 1)
}

/// The floor of the square root of `n`, as a function.
pub open spec fn sqrt_floor(n: nat) -> nat
    decreases n,
{
    if n == 0 {
        0
    } else {
        let r = sqrt_floor((n - 1) as nat);
        if (r + 1) * (r + 1) <= n {
            r + 1
        } else {
            r
        }
    }
}

/// The square root of a non-negative fixed-point scalar: scaling the
/// radicand by `SCALE` keeps the result in fixed-point form.
pub open spec fn fx_sqrt_spec(a: int) -> int {
    sqrt_floor((a * (SCALE as int)) as nat) as int
}

/// `sqrt_floor` satisfies the two-sided square-root bound.
pub proof fn lemma_sqrt_floor_is_sqrt(n: nat)
    ensures
        is_sqrt_floor(n as int, sqrt_floor(n) as int),
    decreases n,
{
    if n > 0 {
        lemma_sqrt_floor_is_sqrt((n - 1) as nat);
        let r = sqrt_floor((n - 1) as nat) as int;
        if (r + 1) * (r + 1) <= n {
            assert((r + 1) * (r + 1) < (r + 2) * (r + 2)) by (nonlinear_arith)
                requires
                    r >= 0,
            ;
        }
    }
}

/// Only one integer satisfies the two-sided square-root bound.
pub proof fn lemma_sqrt_floor_unique(n: int, r: int)
    requires
        is_sqrt_floor(n, r),
        n >= 0,
    ensures
        r == sqrt_floor(n as nat),
{
    let s = sqrt_floor(n as nat) as int;
    lemma_sqrt_floor_is_sqrt(n as nat);
    assert(r == s) by (nonlinear_arith)
        requires
            0 <= r,
            0 <= s,
            r * r <= n < (r + 1) * (r + 1),
            s * s <= n < (s + 1) * (s + 1),
    ;
}

/// Floor division by a positive divisor, for a negative dividend, computed
/// through the non-negative ceiling quotient.
proof fn lemma_floor_div_neg(n: int, d: int)
    requires
        n > 0,
        d > 0,
    ensures
        (-n) / d == -((n + d - 1) / d),
{
    let q = (n + d - 1) / d;
    lemma_fundamental_div_mod(n + d - 1, d);
    let r1 = (n + d - 1) % d;
    assert(n + d - 1 == d * q + r1);
    assert(0 <= r1 < d);
    assert(-n == d * (-q) + (d - 1 - r1)) by {
        assert(d * (-q) == -(d * q)) by (nonlinear_arith);
    }
    lemma_fundamental_div_mod_converse(-n, d, -q, d - 1 - r1);
}

/// Bounds a product from two-sided bounds on its factors.
pub proof fn lemma_mul_abs_bound(a: int, b: int, aa: int, bb: int)
    by (nonlinear_arith)
    requires
        -aa <= a <= aa,
        -bb <= b <= bb,
    ensures
        -(aa * bb) <= a * b <= aa * bb,
{
}

/// A two-sided bound on a dividend survives floor division by a positive
/// divisor, up to one unit below.
pub proof fn lemma_div_bound_pos_divisor(n: int, d: int, m: int)
    requires
        d >= 1,
        0 <= m,
        -m <= n <= m,
    ensures
        -m - 1 <= n / d <= m,
{
    lemma_fundamental_div_mod(n, d);
    let q = n / d;
    let r = n % d;
    assert(n == d * q + r);
    assert(0 <= r < d);
    assert(q <= m && q >= -m - 1) by (nonlinear_arith)
        requires
            d >= 1,
            0 <= m,
            -m <= n <= m,
            n == d * q + r,
            0 <= r < d,
    ;
}

/// Attenuating one channel in `[0, 1]` by another keeps it in `[0, 1]`.
pub proof fn lemma_attenuate_range(a: int, b: int)
    requires
        0 <= a <= SCALE as int,
        0 <= b <= SCALE as int,
    ensures
        0 <= fx_mul_spec(a, b) <= if a <= b { a } else { b },
{
    assert(0 <= a * b && a * b <= a * 65536 && a * b <= b * 65536 && a * 65536 == 65536 * a
        && b * 65536 == 65536 * b) by (nonlinear_arith)
        requires
            0 <= a <= 65536,
            0 <= b <= 65536,
    ;
    lemma_div_pos_is_pos(a * b, SCALE as int);
    lemma_div_is_ordered(a * b, 65536 * a, SCALE as int);
    lemma_div_is_ordered(a * b, 65536 * b, SCALE as int);
    lemma_div_multiples_vanish(a, SCALE as int);
    lemma_div_multiples_vanish(b, SCALE as int);
}

/// Pins `p / SCALE` into the half-open window of width `SCALE` below `p`,
/// from which linear reasoning can bound the quotient.
pub proof fn lemma_div_scale_range(p: int)
    ensures
        (SCALE as int) * (p / (SCALE as int)) <= p
            < (SCALE as int) * (p / (SCALE as int)) + (SCALE as int),
{
    lemma_fundamental_div_mod(p, SCALE as int);
}

/// Floor division of a double-width value by a positive divisor.
pub(crate) fn floor_div(n: i128, d: i128) -> (r: i128)
    requires
        0 < d < 0x4000_0000_0000_0000_0000_0000_0000_0000,
        -0x4000_0000_0000_0000_0000_0000_0000_0000 <= n
            < 0x4000_0000_0000_0000_0000_0000_0000_0000,
    ensures
        r == n as int / d as int,
{
    if n >= 0 {
        let q: u128 = (n as u128) / (d as u128);
        q as i128
    } else {
        let m: u128 = (-n) as u128;
        let q: u128 = (m + (d as u128 - 1)) / (d as u128);
        proof {
            lemma_floor_div_neg(-n, d as int);
        }
        -(q as i128)
    }
}

/// Fixed-point multiplication: rounds the exact product toward negative
/// infinity. The caller must show that the rounded product fits an `i64`.
pub fn fx_mul(a: i64, b: i64) -> (r: i64)
    requires
        i64::MIN <= fx_mul_spec(a as int, b as int) <= i64::MAX,
    ensures
        r == fx_mul_spec(a as int, b as int),
{
    let p: i128 = (a as i128) * (b as i128);
    let q = floor_div(p, SCALE as i128);
    q as i64
}

/// Fixed-point division by a positive divisor: rounds the exact quotient
/// toward negative infinity. The caller must show that it fits an `i64`.
pub fn fx_div(a: i64, b: i64) -> (r: i64)
    requires
        b > 0,
        i64::MIN <= fx_div_spec(a as int, b as int) <= i64::MAX,
    ensures
        r == fx_div_spec(a as int, b as int),
{
    let n: i128 = (a as i128) * (SCALE as i128);
    let q = floor_div(n, b as i128);
    q as i64
}

/// Floor of the square root of an arbitrary unsigned double-width value,
/// found by binary search on the answer.
fn isqrt(n: u128) -> (r: u64)
    ensures
        r == sqrt_floor(n as nat),
{
    let mut lo: u128 = 0;
    let mut hi: u128 = 0x1_0000_0000_0000_0000;
    proof {
        assert((0x1_0000_0000_0000_0000 as int) * (0x1_0000_0000_0000_0000 as int)
            > u128::MAX as int) by (nonlinear_arith);
    }
    while lo + 1 < hi
        invariant
            0 <= lo < hi <= 0x1_0000_0000_0000_0000,
            lo * lo <= n,
            n < hi * hi,
        decreases hi - lo,
    {
        let mid: u128 = lo + (hi - lo) / 2;
        proof {
            lemma_mul_upper_bound(mid as int, 0xffff_ffff_ffff_ffff as int,
                mid as int, 0xffff_ffff_ffff_ffff as int);
        }
        if mid * mid <= n {
            lo = mid;
        } else {
            hi = mid;
        }
    }
    proof {
        lemma_sqrt_floor_unique(n as int, lo as int);
    }
    lo as u64
}

/// Fixed-point square root; a negative radicand, which can only arise
/// from rounding overshoot, maps to zero.
pub fn fx_sqrt(a: i64) -> (r: i64)
    ensures
        a >= 0 ==> r == fx_sqrt_spec(a as int),
        a < 0 ==> r == 0,
        r >= 0,
{
    if a < 0 {
        return 0;
    }
    let n: u128 = (a as u128) * 65536;
    let r = isqrt(n);
    proof {
        lemma_sqrt_floor_is_sqrt(n as nat);
        let s = sqrt_floor(n as nat) as int;
        assert(s * s <= n < 0x1_0000_0000_0000_0000_0000_0000);
        assert(s < 0x1_0000_0000_0000) by (nonlinear_arith)
            requires
                0 <= s,
                s * s < 0x1_0000_0000_0000_0000_0000_0000,
        ;
    }
    r as i64
}

/// Clamps a scalar into `[lo, hi]`.
pub fn fx_clamp(a: i64, lo: i64, hi: i64) -> (r: i64)
    requires
        lo <= hi,
    ensures
        r == if a < lo { lo } else if a > hi { hi } else { a },
{
    if a < lo {
        lo
    } else if a > hi {
        hi
    } else {
        a
    }
}

} // verus!
