//! Fixed-point arithmetic shared by the simulation.
//!
//! Time is counted in ticks of one microsecond, lengths in thousandths of a
//! pixel and karma in millionths. A rate is an amount per second.

use vstd::prelude::*;

verus! {

/// Ticks in one second.
pub const TICKS_PER_SECOND: u32 = 1_000_000;

/// What a rate per second amounts to over `dt` ticks, rounded down.
pub open spec fn accrued(rate: int, dt: int) -> int {
    rate * dt / (TICKS_PER_SECOND as int)
}

/// Computes `accrued`. No frame is longer than 4295 seconds, which bounds
/// the amount.
pub fn accrue(rate: u64, dt: u32) -> (amount: u128)
    ensures
        amount == accrued(rate as int, dt as int),
        amount <= rate * 4295,
{
    assert(0 <= rate * dt <= rate * 0xffff_ffff <= 0xffff_ffff_ffff_ffff * 0xffff_ffff)
        by (nonlinear_arith)
        requires
            0 <= rate <= 0xffff_ffff_ffff_ffff,
            0 <= dt <= 0xffff_ffff,
    ;
    let product: u128 = (rate as u128) * (dt as u128);
    proof {
        assert(rate * 0xffff_ffff <= (rate * 4295) * 1_000_000) by (nonlinear_arith)
            requires
                0 <= rate,
        ;
        vstd::arithmetic::div_mod::lemma_div_is_ordered(
            product as int,
            (rate * 4295) * 1_000_000,
            1_000_000,
        );
        vstd::arithmetic::div_mod::lemma_div_multiples_vanish(rate * 4295, 1_000_000);
        assert((rate * 4295) * 1_000_000 == 1_000_000 * (rate * 4295)) by (nonlinear_arith);
    }
    product / 1_000_000
}

/// `root` is the integer square root of `n`: the largest integer whose
/// square does not exceed `n`.
pub open spec fn is_sqrt_floor(n: int, root: int) -> bool {
    0 <= root && root * root <= n < (root + 1) * (root + 1)
}

/// The integer square root of `n`, for `n >= 0`.
pub open spec fn sqrt_floor(n: int) -> int {
    choose|root: int| is_sqrt_floor(n, root)
}

/// A number has at most one integer square root.
pub proof fn lemma_sqrt_floor_unique(n: int, a: int, b: int)
    requires
        is_sqrt_floor(n, a),
        is_sqrt_floor(n, b),
    ensures
        a == b,
{
    if a < b {
        assert((a + 1) * (a + 1) <= b * b) by (nonlinear_arith)
            requires
                0 <= a,
                a + 1 <= b,
        ;
    } else if b < a {
        assert((b + 1) * (b + 1) <= a * a) by (nonlinear_arith)
            requires
                0 <= b,
                b + 1 <= a,
        ;
    }
}

/// Every non-negative integer has an integer square root.
pub proof fn lemma_sqrt_exists(n: int)
    requires
        0 <= n,
    ensures
        is_sqrt_floor(n, sqrt_floor(n)),
    decreases n,
{
    if n == 0 {
        assert(is_sqrt_floor(0, 0));
    } else {
        lemma_sqrt_exists(n - 1);
        let r = sqrt_floor(n - 1);
        if (r + 1) * (r + 1) <= n {
            assert((r + 1) * (r + 1) == n);
            assert(n < (r + 2) * (r + 2)) by (nonlinear_arith)
                requires
                    (r + 1) * (r + 1) == n,
                    r >= 0,
            ;
            assert(is_sqrt_floor(n, r + 1));
        } else {
            assert(is_sqrt_floor(n, r));
        }
    }
}

/// Squaring keeps the order of non-negative integers.
pub proof fn lemma_square_monotone(a: int, b: int)
    requires
        0 <= a <= b,
    ensures
        a * a <= b * b,
{
    assert(a * a <= b * b) by (nonlinear_arith)
        requires
            0 <= a <= b,
    ;
}

/// Computes the integer square root.
pub fn isqrt(n: u128) -> (root: u64)
    ensures
        is_sqrt_floor(n as int, root as int),
        root == sqrt_floor(n as int),
{
    let mut lo: u128 = 0;
    let mut hi: u128 = 0x1_0000_0000_0000_0000;
    assert(hi * hi > n) by (nonlinear_arith)
        requires
            hi == 0x1_0000_0000_0000_0000,
            n <= 0xffff_ffff_ffff_ffff_ffff_ffff_ffff_ffff,
    ;
    while hi - lo > 1
        invariant
            lo < hi <= 0x1_0000_0000_0000_0000,
            lo * lo <= n < hi * hi,
        decreases hi - lo,
    {
        let mid: u128 = lo + (hi - lo) / 2;
        assert(mid * mid <= 0xffff_ffff_ffff_ffff * 0xffff_ffff_ffff_ffff) by (nonlinear_arith)
            requires
                0 <= mid <= 0xffff_ffff_ffff_ffff,
        ;
        if mid * mid <= n {
            lo = mid;
        } else {
            hi = mid;
        }
    }
    proof {
        lemma_sqrt_exists(n as int);
        lemma_sqrt_floor_unique(n as int, lo as int, sqrt_floor(n as int));
    }
    lo as u64
}

/// The quotient of `a` by `b`, rounded up; for `a >= 0` and `b > 0`.
pub open spec fn ceil_div(a: int, b: int) -> int {
    (a + b - 1) / b
}

/// `c * num / den` rounded away from zero, so that a non-zero product never
/// rounds to nothing; for `num >= 0` and `den > 0`.
pub open spec fn scaled(c: int, num: int, den: int) -> int {
    if c >= 0 {
        ceil_div(c * num, den)
    } else {
        -ceil_div((-c) * num, den)
    }
}

/// Rounding up reaches no further than the next whole multiple.
pub proof fn lemma_ceil_div_bounds(a: int, b: int, k: int)
    requires
        0 <= a <= k * b,
        0 < b,
    ensures
        0 <= ceil_div(a, b) <= k,
        a > 0 ==> ceil_div(a, b) >= 1,
{
    let q = (a + b - 1) / b;
    vstd::arithmetic::div_mod::lemma_fundamental_div_mod(a + b - 1, b);
    vstd::arithmetic::div_mod::lemma_mod_bound(a + b - 1, b);
    let r = (a + b - 1) % b;
    assert(a + b - 1 == b * q + r);
    assert(0 <= r < b);
    if q > k {
        assert(b * q >= b * (k + 1)) by (nonlinear_arith)
            requires
                q >= k + 1,
                b > 0,
        ;
        assert(b * (k + 1) == k * b + b) by (nonlinear_arith);
    }
    if q < 0 {
        assert(b * q <= -b) by (nonlinear_arith)
            requires
                q <= -1,
                b > 0,
        ;
    }
    if a > 0 && q < 1 {
        assert(b * q <= 0) by (nonlinear_arith)
            requires
                q <= 0,
                b > 0,
        ;
    }
}

/// `scaled` keeps the sign of `c` and stays within `k` of zero whenever the
/// exact quotient does.
pub proof fn lemma_scaled_bounds(c: int, num: int, den: int, k: int)
    requires
        0 <= num,
        0 < den,
        (if c >= 0 { c } else { -c }) * num <= k * den,
    ensures
        c >= 0 ==> 0 <= scaled(c, num, den) <= k,
        c <= 0 ==> -k <= scaled(c, num, den) <= 0,
        (c > 0 && num > 0) ==> scaled(c, num, den) >= 1,
        (c < 0 && num > 0) ==> scaled(c, num, den) <= -1,
{
    if c >= 0 {
        assert(c * num >= 0) by (nonlinear_arith)
            requires
                c >= 0,
                num >= 0,
        ;
        lemma_ceil_div_bounds(c * num, den, k);
        if c == 0 {
            assert(c * num == 0) by (nonlinear_arith)
                requires
                    c == 0,
            ;
            lemma_ceil_div_bounds(0, den, 0);
        }
        if c > 0 && num > 0 {
            assert(c * num > 0) by (nonlinear_arith)
                requires
                    c > 0,
                    num > 0,
            ;
        }
    } else {
        assert((-c) * num >= 0) by (nonlinear_arith)
            requires
                c < 0,
                num >= 0,
        ;
        lemma_ceil_div_bounds((-c) * num, den, k);
        if num > 0 {
            assert((-c) * num > 0) by (nonlinear_arith)
                requires
                    c < 0,
                    num > 0,
            ;
        }
    }
}

/// Computes `scaled(c, num, den)`.
pub fn scale(c: i128, num: u64, den: u128) -> (out: i128)
    requires
        -0x4000_0000_0000_0000 <= c <= 0x4000_0000_0000_0000,
        0 < den <= 0x4000_0000_0000_0000_0000_0000_0000_0000,
    ensures
        out == scaled(c as int, num as int, den as int),
{
    let magnitude: u128 = if c >= 0 {
        c as u128
    } else {
        (-c) as u128
    };
    assert(0 <= magnitude * num <= 0x4000_0000_0000_0000 * 0xffff_ffff_ffff_ffff)
        by (nonlinear_arith)
        requires
            0 <= magnitude <= 0x4000_0000_0000_0000,
            0 <= num <= 0xffff_ffff_ffff_ffff,
    ;
    let product: u128 = magnitude * (num as u128);
    let quotient: u128 = (product + den - 1) / den;
    proof {
        vstd::arithmetic::div_mod::lemma_div_is_ordered_by_denominator(
            (product + den - 1) as int,
            1,
            den as int,
        );
        vstd::arithmetic::div_mod::lemma_div_basics((product + den - 1) as int);
    }
    if c >= 0 {
        quotient as i128
    } else {
        -(quotient as i128)
    }
}

} // verus!
