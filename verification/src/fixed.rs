//! Fixed-point arithmetic for the simulation state.
//!
//! A value `x: i64` stands for the real number `x / SCALE`. All state the
//! simulation keeps (potentials, conductances, weights, traces) is held in
//! this representation, so every update is an exact function of integers.

use vstd::prelude::*;

verus! {

/// Fixed-point unit: this many integer steps stand for 1.0.
pub const SCALE: i64 = 1_000_000_000;

/// ln(2) in fixed-point units, rounded down.
pub const LN2_FP: i64 = 693_147_180;

/// Product of a nonnegative value with a factor in [0, 1], rounded down.
pub open spec fn spec_mul_frac(a: int, f: int) -> int {
    a * f / (SCALE as int)
}

/// Quotient of two nonnegative values, in fixed-point units, rounded down.
pub open spec fn spec_div_fp(a: int, b: int) -> int {
    a * (SCALE as int) / b
}

/// Multiplies a nonnegative fixed-point value by a factor in [0, 1].
pub fn mul_frac(a: i64, f: i64) -> (r: i64)
    requires
        0 <= a,
        0 <= f <= SCALE,
    ensures
        r == spec_mul_frac(a as int, f as int),
        0 <= r <= a,
{
    proof {
        assert(a * f <= a * SCALE) by (nonlinear_arith)
            requires 0 <= a, 0 <= f <= SCALE;
        assert(a * SCALE <= 0x7fff_ffff_ffff_ffff * (SCALE as int)) by (nonlinear_arith)
            requires 0 <= a <= 0x7fff_ffff_ffff_ffff, SCALE > 0;
    }
    let p: u128 = (a as u128) * (f as u128);
    let q: u128 = p / (SCALE as u128);
    proof {
        assert(p == a * f);
        assert(a * f / (SCALE as int) <= a) by (nonlinear_arith)
            requires 0 <= a, a * f <= a * SCALE, SCALE > 0;
        assert(a * f / (SCALE as int) >= 0) by (nonlinear_arith)
            requires 0 <= a, 0 <= f, SCALE > 0;
        assert(q == a * f / (SCALE as int));
    }
    q as i64
}

/// Divides two nonnegative fixed-point values, giving a fixed-point result.
/// The quotient must stay well inside the `i64` range.
pub fn div_fp(a: i64, b: i64) -> (r: i64)
    requires
        0 <= a,
        0 < b,
        a <= 9_000_000_000 * b,
    ensures
        r == spec_div_fp(a as int, b as int),
        0 <= r,
        r <= 9_000_000_000 * (SCALE as int),
{
    proof {
        assert(a * SCALE <= 0x7fff_ffff_ffff_ffff * (SCALE as int)) by (nonlinear_arith)
            requires 0 <= a <= 0x7fff_ffff_ffff_ffff, SCALE > 0;
    }
    let p: u128 = (a as u128) * (SCALE as u128);
    let q: u128 = p / (b as u128);
    proof {
        assert(p == a * SCALE);
        assert(a * SCALE <= (9_000_000_000 * b) * SCALE) by (nonlinear_arith)
            requires 0 <= a, a <= 9_000_000_000 * b, SCALE > 0;
        assert(a * SCALE / (b as int) <= 9_000_000_000 * SCALE) by (nonlinear_arith)
            requires 0 < b, 0 <= a * SCALE, a * SCALE <= (9_000_000_000 * b) * SCALE;
        assert(a * SCALE / (b as int) >= 0) by (nonlinear_arith)
            requires 0 < b, 0 <= a * SCALE;
        assert(q == a * SCALE / (b as int));
    }
    q as i64
}

/// A fractional product with a factor in [0, 1] keeps a nonnegative value
/// nonnegative and does not increase it.
pub proof fn lemma_mul_frac_bounds(a: int, f: int)
    requires
        0 <= a,
        0 <= f <= SCALE,
    ensures
        0 <= spec_mul_frac(a, f) <= a,
{
    assert(0 <= a * f / (SCALE as int) <= a) by (nonlinear_arith)
        requires 0 <= a, 0 <= f <= SCALE, SCALE >= 1;
}

/// Fractional product of two values in [0, 1], used by the series below.
fn mul_frac_u(a: u64, f: u64) -> (r: u64)
    requires
        a <= SCALE,
        f <= SCALE,
    ensures
        r == spec_mul_frac(a as int, f as int),
        r <= a,
{
    proof {
        assert(a * f <= a * SCALE) by (nonlinear_arith)
            requires 0 <= a, 0 <= f <= SCALE;
        assert(a * SCALE <= (SCALE as int) * (SCALE as int)) by (nonlinear_arith)
            requires 0 <= a <= SCALE, SCALE > 0;
        assert(a * f / (SCALE as int) <= a) by (nonlinear_arith)
            requires 0 <= a, a * f <= a * SCALE, SCALE > 0;
    }
    a * f / (SCALE as u64)
}

/// Truncated series for exp(-r) on 0 <= r < ln 2, in fixed-point units.
pub open spec fn spec_exp_taylor(r: int) -> int {
    let p2 = spec_mul_frac(r, r);
    let p3 = spec_mul_frac(p2, r);
    let p4 = spec_mul_frac(p3, r);
    let p5 = spec_mul_frac(p4, r);
    let p6 = spec_mul_frac(p5, r);
    (SCALE as int) + p2 / 2 + p4 / 24 + p6 / 720 - r - p3 / 6 - p5 / 120
}

/// Result of halving `t` (rounding down) `k` times.
pub open spec fn spec_halve(t: int, k: nat) -> int
    decreases k,
{
    if k == 0 {
        t
    } else {
        spec_halve(t / 2, (k - 1) as nat)
    }
}

proof fn lemma_halve_range(t: int, k: nat)
    requires
        0 <= t,
    ensures
        0 <= spec_halve(t, k) <= t,
    decreases k,
{
    if k > 0 {
        lemma_halve_range(t / 2, (k - 1) as nat);
    }
}

/// exp(-x) for a nonnegative fixed-point argument, rounded to the grid:
/// the argument is split as x = n ln 2 + r, the series is evaluated on r
/// and the result halved n times. Arguments beyond 63 ln 2 give exactly 0.
pub open spec fn spec_exp_neg(x: int) -> int {
    let n = x / (LN2_FP as int);
    let r = x % (LN2_FP as int);
    if n >= 63 {
        0
    } else {
        spec_halve(spec_exp_taylor(r), n as nat)
    }
}

/// The truncated series stays within [1 - r, 1] on its reduced range.
pub proof fn lemma_exp_taylor_bounds(r: int)
    requires
        0 <= r < LN2_FP,
    ensures
        SCALE - r <= spec_exp_taylor(r) <= SCALE,
{
    let p2 = spec_mul_frac(r, r);
    let p3 = spec_mul_frac(p2, r);
    let p4 = spec_mul_frac(p3, r);
    let p5 = spec_mul_frac(p4, r);
    let p6 = spec_mul_frac(p5, r);
    lemma_mul_frac_bounds(r, r);
    lemma_mul_frac_bounds(p2, r);
    lemma_mul_frac_bounds(p3, r);
    lemma_mul_frac_bounds(p4, r);
    lemma_mul_frac_bounds(p5, r);
    vstd::arithmetic::div_mod::lemma_div_is_ordered(p3, p2, 6);
    vstd::arithmetic::div_mod::lemma_div_is_ordered_by_denominator(p2, 2, 6);
    vstd::arithmetic::div_mod::lemma_div_is_ordered(p5, p4, 120);
    vstd::arithmetic::div_mod::lemma_div_is_ordered_by_denominator(p4, 24, 120);
    vstd::arithmetic::div_mod::lemma_div_is_ordered(p2, r, 2);
    vstd::arithmetic::div_mod::lemma_div_nonincreasing(r / 2, 2);
    vstd::arithmetic::div_mod::lemma_div_nonincreasing(r, 2);
    vstd::arithmetic::div_mod::lemma_div_is_ordered(p4, p3, 24);
    vstd::arithmetic::div_mod::lemma_div_is_ordered_by_denominator(p3, 6, 24);
    vstd::arithmetic::div_mod::lemma_div_is_ordered(p6, p5, 720);
    vstd::arithmetic::div_mod::lemma_div_is_ordered_by_denominator(p5, 120, 720);
    vstd::arithmetic::div_mod::lemma_div_pos_is_pos(p2, 2);
    vstd::arithmetic::div_mod::lemma_div_pos_is_pos(p4, 24);
    vstd::arithmetic::div_mod::lemma_div_pos_is_pos(p6, 720);
}

/// The decay factor lies in [0, 1]; it is exactly 1 only at 0, and on small
/// arguments it is at least 1 - x, as the true exponential is.
pub proof fn lemma_exp_neg_bounds(x: int)
    requires
        0 <= x,
    ensures
        0 <= spec_exp_neg(x) <= SCALE,
        x < LN2_FP ==> spec_exp_neg(x) >= SCALE - x,
{
    let n = x / (LN2_FP as int);
    let r = x % (LN2_FP as int);
    vstd::arithmetic::div_mod::lemma_mod_division_less_than_divisor(x, LN2_FP as int);
    vstd::arithmetic::div_mod::lemma_div_pos_is_pos(x, LN2_FP as int);
    if n < 63 {
        lemma_exp_taylor_bounds(r);
        lemma_halve_range(spec_exp_taylor(r), n as nat);
        if x < LN2_FP {
            vstd::arithmetic::div_mod::lemma_basic_div(x, LN2_FP as int);
            vstd::arithmetic::div_mod::lemma_small_mod(x as nat, LN2_FP as nat);
        }
    }
}

/// The decay factor exp(-x) of one timestep, for a nonnegative argument.
///
/// The value is a rounded approximation; the contract pins it exactly to
/// `spec_exp_neg`, keeps it inside [0, 1], makes it exact at 0, and bounds
/// it below by 1 - x on small arguments (the true exponential obeys the
/// same bound).
pub fn exp_neg(x: i64) -> (r: i64)
    requires
        0 <= x,
    ensures
        r == spec_exp_neg(x as int),
        0 <= r <= SCALE,
        x == 0 ==> r == SCALE,
        x < LN2_FP ==> r >= SCALE - x,
{
    let xu: u64 = x as u64;
    let n: u64 = xu / (LN2_FP as u64);
    let rem: u64 = xu % (LN2_FP as u64);
    proof {
        assert(n == x as int / (LN2_FP as int));
        assert(rem == x as int % (LN2_FP as int));
        if x < LN2_FP {
            vstd::arithmetic::div_mod::lemma_basic_div(x as int, LN2_FP as int);
            vstd::arithmetic::div_mod::lemma_small_mod(x as nat, LN2_FP as nat);
            assert(n == 0 && rem == x);
        }
    }
    if n >= 63 {
        return 0;
    }
    let r: u64 = rem;
    let s: u64 = SCALE as u64;
    let p2: u64 = mul_frac_u(r, r);
    let p3: u64 = mul_frac_u(p2, r);
    let p4: u64 = mul_frac_u(p3, r);
    let p5: u64 = mul_frac_u(p4, r);
    let p6: u64 = mul_frac_u(p5, r);
    // Positive and negative halves of the alternating series; each positive
    // term past the leading 1 dominates the next negative term, and r itself
    // stays below 1, so the value lies in [SCALE - r, SCALE].
    let pos: u64 = s + p2 / 2 + p4 / 24 + p6 / 720;
    let neg: u64 = r + p3 / 6 + p5 / 120;
    proof {
        vstd::arithmetic::div_mod::lemma_div_is_ordered(p3 as int, p2 as int, 6);
        vstd::arithmetic::div_mod::lemma_div_is_ordered_by_denominator(p2 as int, 2, 6);
        vstd::arithmetic::div_mod::lemma_div_is_ordered(p5 as int, p4 as int, 120);
        vstd::arithmetic::div_mod::lemma_div_is_ordered_by_denominator(p4 as int, 24, 120);
        vstd::arithmetic::div_mod::lemma_div_is_ordered(p2 as int, r as int, 2);
        vstd::arithmetic::div_mod::lemma_div_nonincreasing(r as int / 2, 2);
        vstd::arithmetic::div_mod::lemma_div_nonincreasing(r as int, 2);
        vstd::arithmetic::div_mod::lemma_div_is_ordered(p4 as int, p3 as int, 24);
        vstd::arithmetic::div_mod::lemma_div_is_ordered_by_denominator(p3 as int, 6, 24);
        vstd::arithmetic::div_mod::lemma_div_is_ordered(p6 as int, p5 as int, 720);
        vstd::arithmetic::div_mod::lemma_div_is_ordered_by_denominator(p5 as int, 120, 720);
        assert(neg <= pos);
        assert(pos - neg <= s);
    }
    let t: u64 = pos - neg;
    proof {
        assert(t == spec_exp_taylor(rem as int));
        assert(s - r <= t <= s);
    }
    let mut acc: u64 = t;
    let mut i: u64 = 0;
    while i < n
        invariant
            0 <= i <= n,
            n < 63,
            0 <= acc <= SCALE,
            spec_halve(t as int, n as nat) == spec_halve(acc as int, (n - i) as nat),
        decreases n - i,
    {
        proof {
            assert(spec_halve(acc as int, (n - i) as nat)
                == spec_halve(acc as int / 2, (n - i - 1) as nat));
        }
        acc = acc / 2;
        i = i + 1;
    }
    proof {
        lemma_halve_range(t as int, n as nat);
        if x < LN2_FP {
            assert(n == 0);
        }
    }
    acc as i64
}

} // verus!
