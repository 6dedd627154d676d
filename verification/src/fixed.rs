//! Q16 fixed-point arithmetic for samples and gains.
//!
//! A value `v` stands for the real number `v / UNIT`.  Gains multiply a
//! sample and renormalise; the division truncates toward zero, symmetrically
//! for negative samples.  Sample magnitudes are capped at `SAMPLE_LIMIT`
//! (the headroom of the engine) by saturation, so all intermediate products
//! fit comfortably in `i64`.

use vstd::prelude::*;

verus! {

use vstd::arithmetic::div_mod::lemma_div_is_ordered;
use vstd::arithmetic::div_mod::lemma_div_pos_is_pos;
use vstd::arithmetic::div_mod::lemma_fundamental_div_mod;
use vstd::arithmetic::mul::lemma_mul_inequality;

/// 1.0 in Q16 fixed point.
pub const UNIT: i64 = 65536;

/// Largest sample magnitude the engine carries (65536 times full scale).
pub const SAMPLE_LIMIT: i64 = 4294967296;

/// Largest linear gain a parameter may hold (256 times unity).
pub const GAIN_LIMIT: i64 = 16777216;

/// A sample scaled by a non-negative gain, truncating toward zero.
pub open spec fn fx_scale(a: int, g: int) -> int {
    if a >= 0 {
        (a * g) / (UNIT as int)
    } else {
        -(((-a) * g) / (UNIT as int))
    }
}

/// Saturation to the engine's headroom.
pub open spec fn sat(x: int) -> int {
    if x > SAMPLE_LIMIT {
        SAMPLE_LIMIT as int
    } else if x < -(SAMPLE_LIMIT as int) {
        -(SAMPLE_LIMIT as int)
    } else {
        x
    }
}

/// For non-negative `x < a * d`, the truncated quotient `x / d` stays below `a`.
pub proof fn lemma_div_strict_upper(x: int, a: int, d: int)
    requires
        0 <= x,
        0 < d,
        x < a * d,
    ensures
        x / d < a,
{
    lemma_fundamental_div_mod(x, d);
    lemma_div_pos_is_pos(x, d);
    if x / d >= a {
        lemma_mul_inequality(a, x / d, d);
        assert(a * d <= (x / d) * d);
        assert(d * (x / d) == (x / d) * d) by (nonlinear_arith);
        assert(false);
    }
}

/// Scaling by a gain at most `UNIT` cannot grow a magnitude bound.
pub proof fn lemma_fx_scale_bound(a: int, g: int, m: int)
    requires
        0 <= g <= UNIT,
        -m <= a <= m,
        0 <= m,
    ensures
        -m <= fx_scale(a, g) <= m,
{
    if a >= 0 {
        assert(0 <= a * g) by (nonlinear_arith)
            requires 0 <= a && 0 <= g;
        assert(a * g <= m * (UNIT as int)) by (nonlinear_arith)
            requires a <= m && 0 <= g <= UNIT && 0 <= a;
        lemma_div_pos_is_pos(a * g, UNIT as int);
        lemma_div_is_ordered(a * g, m * (UNIT as int), UNIT as int);
        assert((m * (UNIT as int)) / (UNIT as int) == m) by (nonlinear_arith);
    } else {
        let n = -a;
        assert(0 <= n * g) by (nonlinear_arith)
            requires 0 <= n && 0 <= g;
        assert(n * g <= m * (UNIT as int)) by (nonlinear_arith)
            requires n <= m && 0 <= g <= UNIT && 0 <= n;
        lemma_div_pos_is_pos(n * g, UNIT as int);
        lemma_div_is_ordered(n * g, m * (UNIT as int), UNIT as int);
        assert((m * (UNIT as int)) / (UNIT as int) == m) by (nonlinear_arith);
    }
}

/// Scaling is monotone in the (non-negative) sample for a fixed gain.
pub proof fn lemma_fx_scale_mono(a1: int, a2: int, g: int)
    requires
        0 <= a1 <= a2,
        0 <= g,
    ensures
        fx_scale(a1, g) <= fx_scale(a2, g),
{
    lemma_mul_inequality(a1, a2, g);
    lemma_div_is_ordered(a1 * g, a2 * g, UNIT as int);
}

/// A magnitude bound on the sample gives the scaled magnitude bound exactly.
pub proof fn lemma_fx_scale_mag(a: int, g: int, m: int)
    requires
        -m <= a <= m,
        0 <= m,
        0 <= g,
    ensures
        -fx_scale(m, g) <= fx_scale(a, g) <= fx_scale(m, g),
{
    if a >= 0 {
        lemma_fx_scale_mono(a, m, g);
        lemma_fx_scale_mono(0, a, g);
    } else {
        lemma_fx_scale_mono(-a, m, g);
        lemma_fx_scale_mono(0, -a, g);
    }
}

/// A feedback gain strictly below unity strictly shrinks a positive sample.
pub proof fn lemma_fx_scale_strict(a: int, g: int)
    requires
        1 <= a,
        0 <= g < UNIT,
    ensures
        fx_scale(a, g) < a,
{
    assert(a * g < a * (UNIT as int)) by (nonlinear_arith)
        requires 1 <= a && 0 <= g < UNIT;
    assert(0 <= a * g) by (nonlinear_arith)
        requires 1 <= a && 0 <= g;
    lemma_div_strict_upper(a * g, a, UNIT as int);
}

/// Unity gain is exact: scaling by `UNIT` returns the sample unchanged.
pub proof fn lemma_fx_scale_unit(a: int)
    ensures
        fx_scale(a, UNIT as int) == a,
{
    if a >= 0 {
        assert((a * (UNIT as int)) / (UNIT as int) == a) by (nonlinear_arith);
    } else {
        assert(((-a) * (UNIT as int)) / (UNIT as int) == -a) by (nonlinear_arith);
    }
}

/// Truncated quotient of a non-negative value by `UNIT`, via unsigned division.
fn div_unit(x: i64) -> (r: i64)
    requires
        0 <= x,
    ensures
        r == x as int / (UNIT as int),
        0 <= r <= x,
{
    proof {
        lemma_div_pos_is_pos(x as int, UNIT as int);
        lemma_fundamental_div_mod(x as int, UNIT as int);
        assert((UNIT as int) * (x as int / (UNIT as int)) >= x as int / (UNIT as int))
            by (nonlinear_arith)
            requires x as int / (UNIT as int) >= 0;
    }
    ((x as u64) / (UNIT as u64)) as i64
}

/// Executable `fx_scale` on headroom-bounded samples and capped gains.
pub fn scale(a: i64, g: i64) -> (r: i64)
    requires
        -SAMPLE_LIMIT <= a <= SAMPLE_LIMIT,
        0 <= g <= GAIN_LIMIT,
    ensures
        r == fx_scale(a as int, g as int),
        -(SAMPLE_LIMIT * GAIN_LIMIT) <= r <= SAMPLE_LIMIT * GAIN_LIMIT,
{
    proof {
        assert(a * g <= SAMPLE_LIMIT * GAIN_LIMIT && a * g >= -(SAMPLE_LIMIT * GAIN_LIMIT))
            by (nonlinear_arith)
            requires -SAMPLE_LIMIT <= a <= SAMPLE_LIMIT && 0 <= g <= GAIN_LIMIT;
        assert((-a) * g == -(a * g)) by (nonlinear_arith);
    }
    if a >= 0 {
        div_unit(a * g)
    } else {
        let n: i64 = -a;
        -div_unit(n * g)
    }
}

/// Executable saturation to the engine's headroom.
pub fn saturate(x: i64) -> (r: i64)
    ensures
        r == sat(x as int),
        -SAMPLE_LIMIT <= r <= SAMPLE_LIMIT,
{
    if x > SAMPLE_LIMIT {
        SAMPLE_LIMIT
    } else if x < -SAMPLE_LIMIT {
        -SAMPLE_LIMIT
    } else {
        x
    }
}

} // verus!
