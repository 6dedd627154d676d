//! Linear interpolation between neighbouring delay-line samples.
//!
//! A fractional read offset blends the two nearest stored samples, so a
//! continuously automated delay time moves smoothly instead of stepping.
//! The blend is exact integer arithmetic: `lerp(a, b, t)` walks from `a`
//! toward `b` by `t / UNIT`, truncating toward `a`, and is continuous in
//! the offset (at `t == 0` it returns `a` exactly).

use vstd::prelude::*;

verus! {

use crate::fixed::UNIT;
use crate::fixed::SAMPLE_LIMIT;
use vstd::arithmetic::div_mod::lemma_div_is_ordered;
use vstd::arithmetic::div_mod::lemma_div_pos_is_pos;
use vstd::arithmetic::div_mod::lemma_fundamental_div_mod;
use vstd::arithmetic::mul::lemma_mul_inequality;

/// Linear blend from `a` toward `b` by the fraction `t / UNIT`.
pub open spec fn lerp_spec(a: int, b: int, t: int) -> int {
    if b >= a {
        a + ((b - a) * t) / (UNIT as int)
    } else {
        a - ((a - b) * t) / (UNIT as int)
    }
}

/// What a fractional read returns over a history sequence: the offset's
/// integer part picks the two neighbours, its remainder blends them.
pub open spec fn read_spec(h: Seq<i64>, off: int) -> int {
    lerp_spec(
        h[off / (UNIT as int)] as int,
        h[off / (UNIT as int) + 1] as int,
        off % (UNIT as int),
    )
}

/// The blend never leaves the closed interval between its endpoints.
pub proof fn lemma_lerp_between(a: int, b: int, t: int)
    requires
        0 <= t < UNIT,
    ensures
        b >= a ==> a <= lerp_spec(a, b, t) <= b,
        b < a ==> b <= lerp_spec(a, b, t) <= a,
{
    if b >= a {
        let d = b - a;
        assert(0 <= d * t) by (nonlinear_arith)
            requires 0 <= d && 0 <= t;
        assert(d * t <= d * (UNIT as int)) by (nonlinear_arith)
            requires 0 <= d && 0 <= t <= UNIT;
        lemma_div_pos_is_pos(d * t, UNIT as int);
        lemma_div_is_ordered(d * t, d * (UNIT as int), UNIT as int);
        assert((d * (UNIT as int)) / (UNIT as int) == d) by (nonlinear_arith);
    } else {
        let d = a - b;
        assert(0 <= d * t) by (nonlinear_arith)
            requires 0 <= d && 0 <= t;
        assert(d * t <= d * (UNIT as int)) by (nonlinear_arith)
            requires 0 <= d && 0 <= t <= UNIT;
        lemma_div_pos_is_pos(d * t, UNIT as int);
        lemma_div_is_ordered(d * t, d * (UNIT as int), UNIT as int);
        assert((d * (UNIT as int)) / (UNIT as int) == d) by (nonlinear_arith);
    }
}

/// A magnitude bound on both endpoints bounds the blend.
pub proof fn lemma_lerp_bound(a: int, b: int, t: int, m: int)
    requires
        0 <= t < UNIT,
        -m <= a <= m,
        -m <= b <= m,
    ensures
        -m <= lerp_spec(a, b, t) <= m,
{
    lemma_lerp_between(a, b, t);
}

/// A bound on every history entry bounds every fractional read.
pub proof fn lemma_read_bound(h: Seq<i64>, off: int, m: int)
    requires
        0 <= off,
        off / (UNIT as int) + 1 < h.len(),
        forall|i: int| 0 <= i < h.len() ==> -m <= #[trigger] h[i] as int <= m,
    ensures
        -m <= read_spec(h, off) <= m,
{
    let k = off / (UNIT as int);
    lemma_div_pos_is_pos(off, UNIT as int);
    lemma_fundamental_div_mod(off, UNIT as int);
    lemma_lerp_bound(h[k] as int, h[k + 1] as int, off % (UNIT as int), m);
}

/// A whole-sample offset reads the stored sample exactly: interpolation
/// adds nothing at integer offsets.
pub proof fn lemma_read_integer(h: Seq<i64>, k: int)
    requires
        0 <= k,
        k + 1 < h.len(),
    ensures
        read_spec(h, k * (UNIT as int)) == h[k] as int,
{
    let u = UNIT as int;
    assert((k * u) / u == k && (k * u) % u == 0) by (nonlinear_arith)
        requires 0 <= k && u == 65536;
    assert(lerp_spec(h[k] as int, h[k + 1] as int, 0) == h[k] as int) by {
        if h[k + 1] as int >= h[k] as int {
            let d = h[k + 1] as int - h[k] as int;
            assert(d * 0 == 0);
        } else {
            let d = h[k] as int - h[k + 1] as int;
            assert(d * 0 == 0);
        }
    }
}

/// Executable linear blend on headroom-bounded samples.
pub fn lerp(a: i64, b: i64, t: i64) -> (r: i64)
    requires
        -SAMPLE_LIMIT <= a <= SAMPLE_LIMIT,
        -SAMPLE_LIMIT <= b <= SAMPLE_LIMIT,
        0 <= t < UNIT,
    ensures
        r == lerp_spec(a as int, b as int, t as int),
        -SAMPLE_LIMIT <= r <= SAMPLE_LIMIT,
{
    proof {
        lemma_lerp_between(a as int, b as int, t as int);
    }
    if b >= a {
        let d: i64 = b - a;
        proof {
            assert(d * t <= 2 * SAMPLE_LIMIT * UNIT && 0 <= d * t) by (nonlinear_arith)
                requires 0 <= d <= 2 * SAMPLE_LIMIT && 0 <= t < UNIT;
            lemma_div_pos_is_pos(d as int * t as int, UNIT as int);
            lemma_fundamental_div_mod(d as int * t as int, UNIT as int);
            assert((UNIT as int) * ((d as int * t as int) / (UNIT as int))
                >= (d as int * t as int) / (UNIT as int)) by (nonlinear_arith)
                requires (d as int * t as int) / (UNIT as int) >= 0;
        }
        let q: i64 = (((d as u64) * (t as u64)) / (UNIT as u64)) as i64;
        a + q
    } else {
        let d: i64 = a - b;
        proof {
            assert(d * t <= 2 * SAMPLE_LIMIT * UNIT && 0 <= d * t) by (nonlinear_arith)
                requires 0 <= d <= 2 * SAMPLE_LIMIT && 0 <= t < UNIT;
            lemma_div_pos_is_pos(d as int * t as int, UNIT as int);
            lemma_fundamental_div_mod(d as int * t as int, UNIT as int);
            assert((UNIT as int) * ((d as int * t as int) / (UNIT as int))
                >= (d as int * t as int) / (UNIT as int)) by (nonlinear_arith)
                requires (d as int * t as int) / (UNIT as int) >= 0;
        }
        let q: i64 = (((d as u64) * (t as u64)) / (UNIT as u64)) as i64;
        a - q
    }
}

} // verus!
