//! Fixed-point scalars: a real value `v` is carried as the `i64` tick count
//! `v * SCALE`, rounded toward zero. Division helpers reproduce machine
//! (truncating) division so contracts can state results exactly, and the
//! circle functions give sine and cosine of an angle measured in turns.

use vstd::prelude::*;
use vstd::arithmetic::div_mod::{
    lemma_div_by_multiple, lemma_div_is_ordered, lemma_div_nonincreasing, lemma_div_pos_is_pos,
    lemma_fundamental_div_mod, lemma_fundamental_div_mod_converse_mod,
    lemma_mod_add_multiples_vanish, lemma_mod_division_less_than_divisor,
};

verus! {

/// Number of fixed-point ticks in one real unit.
pub const SCALE: i64 = 1_000_000;

/// Ticks in half a unit.
pub const HALF_SCALE: i64 = 500_000;

/// Ticks in a quarter unit.
pub const QUARTER_SCALE: i64 = 250_000;

/// Ticks in one squared unit: the divisor that rescales a product of two
/// fixed-point factors.
pub const SCALE_SQ: i64 = 1_000_000_000_000;

/// Truncating (round-toward-zero) division by a positive divisor: the
/// semantics of machine integer division.
pub open spec fn tdiv(a: int, d: int) -> int
    recommends
        d > 0,
{
    if a >= 0 {
        a / d
    } else {
        -((-a) / d)
    }
}

/// The truncating quotient of `a` by `d >= 1` never grows past a bound that
/// `a` itself respects after scaling by `d`.
pub proof fn lemma_tdiv_range(a: int, d: int, m: int)
    requires
        d >= 1,
        0 <= m,
        -(d * m) <= a <= d * m,
    ensures
        -m <= tdiv(a, d) <= m,
{
    if a >= 0 {
        lemma_div_pos_is_pos(a, d);
        lemma_div_is_ordered(a, d * m, d);
        lemma_div_by_multiple(m, d);
        assert(d * m == m * d) by (nonlinear_arith);
    } else {
        lemma_div_pos_is_pos(-a, d);
        lemma_div_is_ordered(-a, d * m, d);
        lemma_div_by_multiple(m, d);
        assert(d * m == m * d) by (nonlinear_arith);
    }
}

/// Multiplying by a factor of magnitude at most `d` and rescaling by `d`
/// cannot leave the band the other factor lies in.
pub proof fn lemma_scaled_bound(c: int, v: int, d: int, m: int)
    requires
        d >= 1,
        -d <= c <= d,
        0 <= m,
        -m <= v <= m,
    ensures
        -m <= tdiv(c * v, d) <= m,
{
    assert(-(d * m) <= c * v <= d * m) by (nonlinear_arith)
        requires d >= 1, -d <= c <= d, 0 <= m, -m <= v <= m;
    lemma_tdiv_range(c * v, d, m);
}

/// Truncating division of `a` by the positive divisor `d`.
pub fn div_t(a: i64, d: i64) -> (r: i64)
    requires
        d > 0,
    ensures
        r == tdiv(a as int, d as int),
{
    if a >= 0 {
        proof {
            lemma_div_nonincreasing(a as int, d as int);
            lemma_div_pos_is_pos(a as int, d as int);
        }
        ((a as u64) / (d as u64)) as i64
    } else {
        let n: i128 = -(a as i128);
        proof {
            lemma_div_nonincreasing(n as int, d as int);
            lemma_div_pos_is_pos(n as int, d as int);
        }
        let q: u128 = (n as u128) / (d as u128);
        (-(q as i128)) as i64
    }
}

/// Truncating value of `a * b / d` for a positive divisor `d`, with the
/// product formed at double width so it cannot wrap.
pub fn mul_div_t(a: i64, b: i64, d: i64) -> (r: i64)
    requires
        d > 0,
        i64::MIN <= tdiv((a as int) * (b as int), d as int) <= i64::MAX,
    ensures
        r == tdiv((a as int) * (b as int), d as int),
{
    proof {
        assert(-(0x8000_0000_0000_0000 * 0x8000_0000_0000_0000) <= (a as int) * (b as int)
            <= 0x8000_0000_0000_0000 * 0x8000_0000_0000_0000) by (nonlinear_arith)
            requires
                -0x8000_0000_0000_0000 <= a as int <= 0x7fff_ffff_ffff_ffff,
                -0x8000_0000_0000_0000 <= b as int <= 0x7fff_ffff_ffff_ffff;
    }
    let p: i128 = (a as i128) * (b as i128);
    if p >= 0 {
        proof {
            lemma_div_nonincreasing(p as int, d as int);
            lemma_div_pos_is_pos(p as int, d as int);
        }
        ((p as u128) / (d as u128)) as i64
    } else {
        let n: i128 = -p;
        proof {
            lemma_div_nonincreasing(n as int, d as int);
            lemma_div_pos_is_pos(n as int, d as int);
        }
        let q: u128 = (n as u128) / (d as u128);
        (-(q as i128)) as i64
    }
}

/// Euclidean remainder of `a` by the positive divisor `d`: always in
/// `[0, d)`, which matches `%` on `int`.
pub fn rem_e(a: i64, d: i64) -> (r: i64)
    requires
        d > 0,
    ensures
        r == (a as int) % (d as int),
        0 <= r < d,
{
    proof {
        lemma_mod_division_less_than_divisor(a as int, d as int);
    }
    if a >= 0 {
        ((a as u64) % (d as u64)) as i64
    } else {
        let n: i128 = -(a as i128);
        let m: u128 = (n as u128) % (d as u128);
        proof {
            let ai = a as int;
            let di = d as int;
            let ni = n as int;
            lemma_fundamental_div_mod(ni, di);
            let k = ni / di;
            let mi = ni % di;
            lemma_mod_division_less_than_divisor(ni, di);
            if mi == 0 {
                assert(di * (-k) == -(di * k)) by (nonlinear_arith);
                lemma_fundamental_div_mod_converse_mod(ai, di, -k, 0);
            } else {
                assert(di * (-k - 1) == -(di * k) - di) by (nonlinear_arith);
                lemma_fundamental_div_mod_converse_mod(ai, di, -k - 1, di - mi);
            }
        }
        if m == 0 {
            0
        } else {
            d - (m as i64)
        }
    }
}

/// Sine over the first half turn, by the classical rational approximation:
/// `h` ranges over `[0, SCALE]` ticks standing for the fraction of the half
/// turn completed, and the result ranges over `[0, SCALE]` ticks.
pub open spec fn half_sin_s(h: int) -> int {
    tdiv(
        16 * h * ((SCALE as int) - h) * (SCALE as int),
        5 * (SCALE as int) * (SCALE as int) - 4 * h * ((SCALE as int) - h),
    )
}

/// Sine of an angle `u` in fixed-point turns (SCALE ticks per full turn).
pub open spec fn sin_s(u: int) -> int {
    let m = u % (SCALE as int);
    if m <= (SCALE as int) / 2 {
        half_sin_s(2 * m)
    } else {
        -half_sin_s(2 * m - (SCALE as int))
    }
}

/// Cosine of an angle `u` in fixed-point turns.
pub open spec fn cos_s(u: int) -> int {
    sin_s(u + (SCALE as int) / 4)
}

/// The half-turn kernel stays within `[0, SCALE]`.
pub proof fn lemma_half_sin_bounds(h: int)
    requires
        0 <= h <= SCALE as int,
    ensures
        0 <= half_sin_s(h) <= SCALE as int,
{
    let s = SCALE as int;
    let k = h * (s - h);
    assert(0 <= k && 4 * k <= s * s) by (nonlinear_arith)
        requires k == h * (s - h), 0 <= h <= s;
    let num = 16 * k * s;
    let den = 5 * s * s - 4 * k;
    assert(num == 16 * h * (s - h) * s && den == 5 * s * s - 4 * h * (s - h) && den > 0
        && num >= 0 && num <= s * den) by (nonlinear_arith)
        requires
            k == h * (s - h),
            0 <= k,
            4 * k <= s * s,
            num == 16 * k * s,
            den == 5 * s * s - 4 * k,
            s == 1_000_000;
    assert(half_sin_s(h) == tdiv(num, den));
    lemma_div_pos_is_pos(num, den);
    lemma_div_is_ordered(num, s * den, den);
    lemma_div_by_multiple(s, den);
}

/// Sine in fixed-point turns stays within one unit of magnitude.
pub proof fn lemma_sin_bounds(u: int)
    ensures
        -(SCALE as int) <= sin_s(u) <= SCALE as int,
{
    let s = SCALE as int;
    lemma_mod_division_less_than_divisor(u, s);
    let m = u % s;
    if m <= s / 2 {
        lemma_half_sin_bounds(2 * m);
    } else {
        lemma_half_sin_bounds(2 * m - s);
    }
}

/// A full turn leaves the sine unchanged: the winding angle only matters
/// modulo one revolution.
pub proof fn lemma_sin_periodic(u: int)
    ensures
        sin_s(u + SCALE as int) == sin_s(u),
{
    lemma_mod_add_multiples_vanish(u, SCALE as int);
}

/// Sine kernel over the first half turn.
fn half_sin(h: i64) -> (r: i64)
    requires
        0 <= h <= SCALE,
    ensures
        r == half_sin_s(h as int),
        0 <= r <= SCALE,
{
    proof {
        assert(0 <= (h as int) * ((SCALE as int) - h) && 4 * ((h as int) * ((SCALE as int) - h))
            <= 1_000_000_000_000) by (nonlinear_arith)
            requires 0 <= h as int <= 1_000_000, SCALE as int == 1_000_000;
        lemma_half_sin_bounds(h as int);
    }
    let k: i64 = h * (SCALE - h);
    let num: i64 = 16 * k * SCALE;
    let den: i64 = 5 * SCALE * SCALE - 4 * k;
    proof {
        assert(num as int == 16 * (h as int) * ((SCALE as int) - h) * (SCALE as int)
            && den as int == 5 * (SCALE as int) * (SCALE as int) - 4 * (h as int) * ((SCALE
            as int) - h)) by (nonlinear_arith)
            requires
                k as int == (h as int) * ((SCALE as int) - h),
                num as int == 16 * (k as int) * (SCALE as int),
                den as int == 5 * (SCALE as int) * (SCALE as int) - 4 * (k as int);
        assert(half_sin_s(h as int) == tdiv(num as int, den as int));
    }
    div_t(num, den)
}

/// Sine of `u` fixed-point turns.
pub fn sin_fx(u: i64) -> (r: i64)
    ensures
        r == sin_s(u as int),
        -SCALE <= r <= SCALE,
{
    let m: i64 = rem_e(u, SCALE);
    if m <= HALF_SCALE {
        half_sin(2 * m)
    } else {
        -half_sin(2 * m - SCALE)
    }
}

/// Cosine of `u` fixed-point turns, as the sine a quarter turn ahead.
pub fn cos_fx(u: i64) -> (r: i64)
    requires
        u <= i64::MAX - QUARTER_SCALE,
    ensures
        r == cos_s(u as int),
        -SCALE <= r <= SCALE,
{
    sin_fx(u + QUARTER_SCALE)
}

} // verus!
