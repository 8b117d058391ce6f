//! Sampling, winding and projection: the numeric pipeline behind each
//! frame. A scalar signal is sampled over a domain, wound around the unit
//! circle at a frequency, averaged into a centroid, and projected into
//! screen-space polylines.

use vstd::prelude::*;
use vstd::arithmetic::div_mod::{
    lemma_div_pos_is_pos, lemma_fundamental_div_mod, lemma_mod_division_less_than_divisor,
};
use vstd::arithmetic::mul::{lemma_mul_inequality, lemma_mul_nonnegative};
use crate::fx::{cos_s, cos_fx, div_t, mul_div_t, sin_s, sin_fx, tdiv, SCALE, SCALE_SQ};
use crate::fx::lemma_scaled_bound;
use crate::{N_MAX, PIX_MAX, VAL_MAX};

verus! {

/// An axis-aligned screen rectangle: origin, width and height in pixels.
#[derive(Clone, Copy, PartialEq, Eq, Structural)]
pub struct Rect {
    pub x: i64,
    pub y: i64,
    pub w: i64,
    pub h: i64,
}

impl Rect {
    /// A rectangle is fit to project into when its extents are positive and
    /// everything stays comfortably inside the pixel range.
    pub open spec fn wf(self) -> bool {
        &&& -PIX_MAX <= self.x <= PIX_MAX
        &&& -PIX_MAX <= self.y <= PIX_MAX
        &&& 0 < self.w <= PIX_MAX
        &&& 0 < self.h <= PIX_MAX
    }

    pub fn new(x: i64, y: i64, w: i64, h: i64) -> (r: Self)
        ensures
            r == (Rect { x, y, w, h }),
    {
        Self { x, y, w, h }
    }
}

/// A domain or frequency range is valid when its start lies strictly below
/// its end and both bounds are representable values.
pub open spec fn valid_range(a: int, b: int) -> bool {
    -(VAL_MAX as int) <= a && a < b && b <= VAL_MAX as int
}

/// Distance between consecutive sample positions over `(a, b)` at
/// resolution `n`.
pub open spec fn step_s(a: int, b: int, n: int) -> int
    recommends
        n > 0,
{
    tdiv(b - a, n)
}

/// Position of sample `i`: the range start plus `i` steps. The range end
/// itself is never reached.
pub open spec fn sample_pos(a: int, b: int, n: int, i: int) -> int {
    a + i * step_s(a, b, n)
}

/// Sampling never reaches the right end of the range: every position lies
/// in `[a, b)`.
pub proof fn lemma_sample_pos_in_range(a: int, b: int, n: int, i: int)
    requires
        a < b,
        0 < n,
        0 <= i < n,
    ensures
        a <= sample_pos(a, b, n, i) < b,
{
    let st = step_s(a, b, n);
    lemma_div_pos_is_pos(b - a, n);
    lemma_mul_nonnegative(i, st);
    lemma_fundamental_div_mod(b - a, n);
    lemma_mod_division_less_than_divisor(b - a, n);
    if st == 0 {
        assert(i * st == 0) by (nonlinear_arith)
            requires st == 0;
    } else {
        lemma_mul_inequality(i, n - 1, st);
        assert((n - 1) * st == n * st - st) by (nonlinear_arith);
        assert(n * ((b - a) / n) == n * st);
    }
}

/// Evaluates `f` at `n` evenly spaced positions starting at `domain.0` and
/// spaced by `(domain.1 - domain.0) / n`; the right end of the domain is
/// never sampled.
pub fn sample_points<F: Fn(i64) -> i64 + Copy>(f: F, domain: (i64, i64), samples: usize) -> (data:
    Vec<i64>)
    requires
        valid_range(domain.0 as int, domain.1 as int),
        0 < samples <= N_MAX,
        forall|x: i64| #[trigger] call_requires(f, (x,)),
        forall|x: i64, y: i64| #[trigger] call_ensures(f, (x,), y) ==> -VAL_MAX <= y <= VAL_MAX,
    ensures
        data.len() == samples,
        forall|i: int|
            0 <= i < samples as int ==> -VAL_MAX <= #[trigger] data[i] <= VAL_MAX,
        forall|i: int|
            0 <= i < samples as int ==> call_ensures(
                f,
                (sample_pos(domain.0 as int, domain.1 as int, samples as int, i) as i64,),
                #[trigger] data[i],
            ),
{
    let a = domain.0;
    let b = domain.1;
    let step: i64 = div_t(b - a, samples as i64);
    let mut data: Vec<i64> = Vec::new();
    let mut i: usize = 0;
    while i < samples
        invariant
            valid_range(a as int, b as int),
            0 < samples <= N_MAX,
            0 <= i <= samples,
            step == step_s(a as int, b as int, samples as int),
            data.len() == i,
            forall|x: i64| #[trigger] call_requires(f, (x,)),
            forall|x: i64, y: i64| #[trigger] call_ensures(f, (x,), y) ==> -VAL_MAX <= y
                <= VAL_MAX,
            forall|j: int| 0 <= j < i as int ==> -VAL_MAX <= #[trigger] data[j] <= VAL_MAX,
            forall|j: int|
                0 <= j < i as int ==> call_ensures(
                    f,
                    (sample_pos(a as int, b as int, samples as int, j) as i64,),
                    #[trigger] data[j],
                ),
        decreases samples - i,
    {
        proof {
            lemma_sample_pos_in_range(a as int, b as int, samples as int, i as int);
        }
        let t: i64 = a + (i as i64) * step;
        let v: i64 = f(t);
        data.push(v);
        i += 1;
    }
    data
}

/// Winding angle, in fixed-point turns, of sample `i`: the frequency times
/// the domain position `i * dt`.
pub open spec fn wind_angle(freq: int, dt: int, i: int) -> int {
    tdiv(freq * (i * dt), SCALE as int)
}

/// Horizontal winding coordinate: `cos(angle) * value`.
pub open spec fn wind_x(v: int, u: int) -> int {
    tdiv(cos_s(u) * v, SCALE as int)
}

/// Vertical winding coordinate: `-sin(angle) * value`. The sign follows the
/// screen convention that the vertical axis grows downward.
pub open spec fn wind_y(v: int, u: int) -> int {
    -tdiv(sin_s(u) * v, SCALE as int)
}

/// `ws` is the winding of the sampled values `vals` at frequency `freq`
/// over a grid with spacing `dt`.
pub open spec fn winding_of(vals: Seq<i64>, freq: int, dt: int, ws: Seq<(i64, i64)>) -> bool {
    &&& ws.len() == vals.len()
    &&& forall|i: int|
        0 <= i < vals.len() ==> (#[trigger] ws[i]).0 == wind_x(
            vals[i] as int,
            wind_angle(freq, dt, i),
        ) && ws[i].1 == wind_y(vals[i] as int, wind_angle(freq, dt, i))
}

/// Every entry of `vals` is a value `f` may return at grid position
/// `i * dt`.
pub open spec fn sampled_at_grid<F: Fn(i64) -> i64>(f: F, vals: Seq<i64>, dt: int) -> bool {
    forall|i: int|
        0 <= i < vals.len() ==> call_ensures(f, ((i * dt) as i64,), #[trigger] vals[i])
}

/// All entries lie within the representable value band.
pub open spec fn vals_bounded(vals: Seq<i64>) -> bool {
    forall|i: int| 0 <= i < vals.len() ==> -VAL_MAX <= #[trigger] vals[i] <= VAL_MAX
}

/// All winding points lie within the representable value band.
pub open spec fn points_bounded(ps: Seq<(i64, i64)>) -> bool {
    forall|i: int|
        0 <= i < ps.len() ==> -VAL_MAX <= (#[trigger] ps[i]).0 <= VAL_MAX && -VAL_MAX <= ps[i].1
            <= VAL_MAX
}

/// Winds `f` around the unit circle: evaluates `f` at the grid positions
/// `i * dt` for `dt = (domain.1 - domain.0) / samples`, and rotates each
/// value by an angle proportional to frequency times position. Any real
/// frequency, including zero or a negative one, is accepted.
pub fn sample_polar<F: Fn(i64) -> i64 + Copy>(
    f: F,
    domain: (i64, i64),
    freq: i64,
    samples: usize,
) -> (coords: Vec<(i64, i64)>)
    requires
        valid_range(domain.0 as int, domain.1 as int),
        -VAL_MAX <= freq <= VAL_MAX,
        0 < samples <= N_MAX,
        forall|x: i64| #[trigger] call_requires(f, (x,)),
        forall|x: i64, y: i64| #[trigger] call_ensures(f, (x,), y) ==> -VAL_MAX <= y <= VAL_MAX,
    ensures
        coords.len() == samples,
        points_bounded(coords@),
        exists|vals: Seq<i64>|
            vals.len() == samples as int && sampled_at_grid(f, vals, step_s(
                domain.0 as int,
                domain.1 as int,
                samples as int,
            )) && vals_bounded(vals) && winding_of(vals, freq as int, step_s(
                domain.0 as int,
                domain.1 as int,
                samples as int,
            ), coords@),
{
    let a = domain.0;
    let b = domain.1;
    let dt: i64 = div_t(b - a, samples as i64);
    proof {
        lemma_div_pos_is_pos(b as int - a as int, samples as int);
        lemma_fundamental_div_mod(b as int - a as int, samples as int);
        lemma_mod_division_less_than_divisor(b as int - a as int, samples as int);
    }
    let mut coords: Vec<(i64, i64)> = Vec::new();
    let ghost mut gvals: Seq<i64> = Seq::empty();
    let mut i: usize = 0;
    while i < samples
        invariant
            valid_range(a as int, b as int),
            -VAL_MAX <= freq <= VAL_MAX,
            0 < samples <= N_MAX,
            0 <= i <= samples,
            dt == step_s(a as int, b as int, samples as int),
            0 <= dt <= 2 * VAL_MAX,
            (samples as int) * (dt as int) <= (b as int) - (a as int),
            coords.len() == i,
            gvals.len() == i as int,
            forall|x: i64| #[trigger] call_requires(f, (x,)),
            forall|x: i64, y: i64| #[trigger] call_ensures(f, (x,), y) ==> -VAL_MAX <= y
                <= VAL_MAX,
            sampled_at_grid(f, gvals, dt as int),
            vals_bounded(gvals),
            winding_of(gvals, freq as int, dt as int, coords@),
            points_bounded(coords@),
        decreases samples - i,
    {
        proof {
            assert(0 <= (i as int) * (dt as int) <= 2 * (VAL_MAX as int)) by (nonlinear_arith)
                requires
                    0 <= i as int <= 1_000_000,
                    0 <= dt as int,
                    (samples as int) * (dt as int) <= (b as int) - (a as int),
                    i as int <= samples as int,
                    (b as int) - (a as int) <= 2 * (VAL_MAX as int),
                    VAL_MAX as int == 1_000_000_000;
        }
        let t: i64 = (i as i64) * dt;
        let v: i64 = f(t);
        proof {
            assert(-(SCALE as int) * 2_000_000_000_000 <= (freq as int) * (t as int)
                <= (SCALE as int) * 2_000_000_000_000) by (nonlinear_arith)
                requires
                    -(VAL_MAX as int) <= freq as int <= VAL_MAX as int,
                    0 <= t as int <= 2 * (VAL_MAX as int),
                    SCALE as int == 1_000_000,
                    VAL_MAX as int == 1_000_000_000;
            crate::fx::lemma_tdiv_range(
                (freq as int) * (t as int),
                SCALE as int,
                2_000_000_000_000,
            );
        }
        let u: i64 = mul_div_t(freq, t, SCALE);
        let c: i64 = cos_fx(u);
        let s: i64 = sin_fx(u);
        proof {
            lemma_scaled_bound(c as int, v as int, SCALE as int, VAL_MAX as int);
            lemma_scaled_bound(s as int, v as int, SCALE as int, VAL_MAX as int);
        }
        let px: i64 = mul_div_t(c, v, SCALE);
        let py: i64 = mul_div_t(s, v, SCALE);
        coords.push((px, -py));
        proof {
            gvals = gvals.push(v);
            assert(forall|j: int|
                0 <= j < gvals.len() - 1 ==> gvals[j] == #[trigger] gvals.drop_last()[j]);
        }
        i += 1;
    }
    proof {
        assert(winding_of(gvals, freq as int, dt as int, coords@));
    }
    coords
}

/// Sum of the horizontal coordinates of a point sequence.
pub open spec fn sum_x(ps: Seq<(i64, i64)>) -> int
    decreases ps.len(),
{
    if ps.len() == 0 {
        0
    } else {
        sum_x(ps.drop_last()) + ps.last().0
    }
}

/// Sum of the vertical coordinates of a point sequence.
pub open spec fn sum_y(ps: Seq<(i64, i64)>) -> int
    decreases ps.len(),
{
    if ps.len() == 0 {
        0
    } else {
        sum_y(ps.drop_last()) + ps.last().1
    }
}

/// Arithmetic mean of the points of a winding: its center of mass. The
/// winding must not be empty; in this system it never is, since the sample
/// resolution is a positive constant.
pub fn centroid(ps: &Vec<(i64, i64)>) -> (c: (i64, i64))
    requires
        0 < ps.len() <= N_MAX,
        points_bounded(ps@),
    ensures
        c.0 == tdiv(sum_x(ps@), ps@.len() as int),
        c.1 == tdiv(sum_y(ps@), ps@.len() as int),
        -VAL_MAX <= c.0 <= VAL_MAX,
        -VAL_MAX <= c.1 <= VAL_MAX,
{
    let mut sx: i64 = 0;
    let mut sy: i64 = 0;
    let mut i: usize = 0;
    while i < ps.len()
        invariant
            0 < ps.len() <= N_MAX,
            0 <= i <= ps.len(),
            points_bounded(ps@),
            sx == sum_x(ps@.take(i as int)),
            sy == sum_y(ps@.take(i as int)),
            -(i as int) * (VAL_MAX as int) <= sx as int <= (i as int) * (VAL_MAX as int),
            -(i as int) * (VAL_MAX as int) <= sy as int <= (i as int) * (VAL_MAX as int),
        decreases ps.len() - i,
    {
        proof {
            assert(ps@.take(i as int + 1).drop_last() =~= ps@.take(i as int));
            assert((i as int + 1) * (VAL_MAX as int) == (i as int) * (VAL_MAX as int)
                + VAL_MAX as int) by (nonlinear_arith);
            assert((i as int) * (VAL_MAX as int) <= 1_000_000 * 1_000_000_000)
                by (nonlinear_arith)
                requires 0 <= i as int <= 1_000_000, VAL_MAX as int == 1_000_000_000;
        }
        sx = sx + ps[i].0;
        sy = sy + ps[i].1;
        i += 1;
    }
    proof {
        assert(ps@.take(ps@.len() as int) =~= ps@);
        crate::fx::lemma_tdiv_range(sx as int, ps@.len() as int, VAL_MAX as int);
        crate::fx::lemma_tdiv_range(sy as int, ps@.len() as int, VAL_MAX as int);
        assert((ps@.len() as int) * (VAL_MAX as int) == (VAL_MAX as int) * (ps@.len() as int))
            by (nonlinear_arith);
    }
    let cx: i64 = div_t(sx, ps.len() as i64);
    let cy: i64 = div_t(sy, ps.len() as i64);
    (cx, cy)
}

/// A drawable segment: two screen-space points. The first segment of every
/// polyline is degenerate (both ends equal), so a one-point sequence still
/// leaves a visible mark.
pub type Segment = ((i64, i64), (i64, i64));

/// Least value of a sequence (zero for an empty one).
pub open spec fn seq_min(s: Seq<i64>) -> int
    decreases s.len(),
{
    if s.len() == 0 {
        0
    } else if s.len() == 1 {
        s[0] as int
    } else {
        let m = seq_min(s.drop_last());
        if (s.last() as int) < m {
            s.last() as int
        } else {
            m
        }
    }
}

/// Greatest value of a sequence (zero for an empty one).
pub open spec fn seq_max(s: Seq<i64>) -> int
    decreases s.len(),
{
    if s.len() == 0 {
        0
    } else if s.len() == 1 {
        s[0] as int
    } else {
        let m = seq_max(s.drop_last());
        if (s.last() as int) > m {
            s.last() as int
        } else {
            m
        }
    }
}

/// Value-range units carried by one vertical pixel when `data` is fit to a
/// column of height `h`; zero for a constant (or near-constant) sequence.
pub open spec fn upp_1d(data: Seq<i64>, h: int) -> int
    recommends
        h > 0,
{
    tdiv(seq_max(data) - seq_min(data), h)
}

/// Horizontal position of sample `i`: even pixel spacing across the
/// rectangle, regardless of domain semantics.
pub open spec fn p1d_x(rect: Rect, len: int, i: int) -> int {
    rect.x as int + tdiv(rect.w as int, len) * i
}

/// Vertical position of a value: measured up from the rectangle's bottom
/// edge, clamped so it never falls below that edge. A zero units-per-pixel
/// scale degenerates to a flat line on the bottom edge.
pub open spec fn p1d_y(rect: Rect, v: int, upp: int) -> int {
    let bottom = rect.y as int + rect.h as int;
    if upp == 0 {
        bottom
    } else {
        let raw = bottom - tdiv(v, upp);
        if raw > bottom {
            bottom
        } else {
            raw
        }
    }
}

/// Projects a value sequence into a screen rectangle as a connected
/// polyline, auto-fitting the value range to the rectangle's height.
/// Vertical coordinates never exceed the rectangle's bottom edge; the top
/// edge is deliberately not enforced, matching the asymmetric clamping of
/// the rendering this feeds.
pub fn project_1d(data: &Vec<i64>, rect: Rect) -> (segs: Vec<Segment>)
    requires
        rect.wf(),
        data.len() <= N_MAX,
        vals_bounded(data@),
    ensures
        segs.len() == data.len(),
        forall|i: int|
            0 <= i < data@.len() ==> (#[trigger] segs[i]).1.0 == p1d_x(rect, data@.len() as int, i)
                && segs[i].1.1 == p1d_y(rect, data@[i] as int, upp_1d(data@, rect.h as int)),
        data@.len() > 0 ==> segs[0].0 == segs[0].1,
        forall|i: int| 1 <= i < data@.len() ==> (#[trigger] segs[i]).0 == segs[i - 1].1,
        forall|i: int|
            0 <= i < data@.len() ==> (#[trigger] segs[i]).0.1 <= rect.y + rect.h && segs[i].1.1
                <= rect.y + rect.h,
{
    let n = data.len();
    let mut segs: Vec<Segment> = Vec::new();
    if n == 0 {
        return segs;
    }
    let mut ymin: i64 = data[0];
    let mut ymax: i64 = data[0];
    let mut i: usize = 1;
    while i < n
        invariant
            0 < n <= N_MAX,
            n == data.len(),
            vals_bounded(data@),
            1 <= i <= n,
            ymin == seq_min(data@.take(i as int)),
            ymax == seq_max(data@.take(i as int)),
            -VAL_MAX <= ymin <= VAL_MAX,
            -VAL_MAX <= ymax <= VAL_MAX,
        decreases n - i,
    {
        proof {
            assert(data@.take(i as int + 1).drop_last() =~= data@.take(i as int));
        }
        if data[i] < ymin {
            ymin = data[i];
        }
        if data[i] > ymax {
            ymax = data[i];
        }
        i += 1;
    }
    proof {
        assert(data@.take(n as int) =~= data@);
    }
    let upp: i64 = div_t(ymax - ymin, rect.h);
    let xstep: i64 = div_t(rect.w, n as i64);
    let mut prev: (i64, i64) = (0, 0);
    let mut j: usize = 0;
    while j < n
        invariant
            0 < n <= N_MAX,
            n == data.len(),
            rect.wf(),
            vals_bounded(data@),
            0 <= j <= n,
            upp == upp_1d(data@, rect.h as int),
            xstep == tdiv(rect.w as int, n as int),
            segs.len() == j,
            j > 0 ==> prev.0 == p1d_x(rect, n as int, j - 1) && prev.1 == p1d_y(
                rect,
                data@[j - 1] as int,
                upp as int,
            ),
            forall|k: int|
                0 <= k < j as int ==> (#[trigger] segs[k]).1.0 == p1d_x(rect, n as int, k)
                    && segs[k].1.1 == p1d_y(rect, data@[k] as int, upp as int),
            j > 0 ==> segs[0].0 == segs[0].1,
            forall|k: int| 1 <= k < j as int ==> (#[trigger] segs[k]).0 == segs[k - 1].1,
            forall|k: int|
                0 <= k < j as int ==> (#[trigger] segs[k]).0.1 <= rect.y + rect.h && segs[k].1.1
                    <= rect.y + rect.h,
        decreases n - j,
    {
        proof {
            lemma_sample_pos_in_range(
                rect.x as int,
                rect.x as int + rect.w as int,
                n as int,
                j as int,
            );
            assert(xstep as int == step_s(rect.x as int, rect.x as int + rect.w as int, n as int));
            assert(rect.x as int <= rect.x as int + (j as int) * (xstep as int) < rect.x as int
                + rect.w as int);
            assert((j as int) * (xstep as int) == (xstep as int) * (j as int)) by (nonlinear_arith);
        }
        let x: i64 = rect.x + xstep * (j as i64);
        let y: i64 = if upp == 0 {
            rect.y + rect.h
        } else {
            proof {
                crate::fx::lemma_tdiv_range(data@[j as int] as int, upp as int, VAL_MAX as int);
            }
            let q: i64 = div_t(data[j], upp);
            let raw: i64 = rect.y + rect.h - q;
            if raw > rect.y + rect.h {
                rect.y + rect.h
            } else {
                raw
            }
        };
        let p: (i64, i64) = (x, y);
        if j == 0 {
            segs.push((p, p));
        } else {
            segs.push((prev, p));
        }
        prev = p;
        j += 1;
    }
    segs
}

/// Largest pixels-per-unit magnitude a projection may hand back.
pub const PPU_MAX: i64 = 1_000_000_000_000_000_000;

/// Pixels-per-unit scale fitting the largest unwound sample value to the
/// given radius; zero when that largest value is zero, collapsing the
/// winding onto its center instead of dividing by zero.
pub open spec fn ppu_s(svals: Seq<i64>, radius: int) -> int {
    let m = seq_max(svals);
    if m == 0 {
        0
    } else if m > 0 {
        tdiv(radius * (SCALE_SQ as int), m)
    } else {
        -tdiv(radius * (SCALE_SQ as int), -m)
    }
}

/// One coordinate of a winding point mapped to the screen: the center
/// offset by the coordinate scaled with `ppu`.
pub open spec fn proj_c(coord: int, center: int, ppu: int) -> int {
    center + tdiv(coord * ppu, SCALE_SQ as int)
}

/// Maps a single point with an already computed scale, so a centroid can
/// be placed with exactly the scale its winding was drawn with.
pub fn project_point(p: (i64, i64), center: (i64, i64), ppu: i64) -> (q: (i64, i64))
    requires
        -VAL_MAX <= p.0 <= VAL_MAX,
        -VAL_MAX <= p.1 <= VAL_MAX,
        -PIX_MAX <= center.0 <= PIX_MAX,
        -PIX_MAX <= center.1 <= PIX_MAX,
        -PPU_MAX <= ppu <= PPU_MAX,
    ensures
        q.0 == proj_c(p.0 as int, center.0 as int, ppu as int),
        q.1 == proj_c(p.1 as int, center.1 as int, ppu as int),
{
    proof {
        assert(-((SCALE_SQ as int) * 1_000_000_000_000_000) <= (p.0 as int) * (ppu as int)
            <= (SCALE_SQ as int) * 1_000_000_000_000_000 && -((SCALE_SQ as int)
            * 1_000_000_000_000_000) <= (p.1 as int) * (ppu as int) <= (SCALE_SQ as int)
            * 1_000_000_000_000_000) by (nonlinear_arith)
            requires
                -(VAL_MAX as int) <= p.0 as int <= VAL_MAX as int,
                -(VAL_MAX as int) <= p.1 as int <= VAL_MAX as int,
                -(PPU_MAX as int) <= ppu as int <= PPU_MAX as int,
                VAL_MAX as int == 1_000_000_000,
                PPU_MAX as int == 1_000_000_000_000_000_000,
                SCALE_SQ as int == 1_000_000_000_000;
        crate::fx::lemma_tdiv_range(
            (p.0 as int) * (ppu as int),
            SCALE_SQ as int,
            1_000_000_000_000_000,
        );
        crate::fx::lemma_tdiv_range(
            (p.1 as int) * (ppu as int),
            SCALE_SQ as int,
            1_000_000_000_000_000,
        );
    }
    let qx: i64 = center.0 + mul_div_t(p.0, ppu, SCALE_SQ);
    let qy: i64 = center.1 + mul_div_t(p.1, ppu, SCALE_SQ);
    (qx, qy)
}

/// Projects a winding around a fixed center, scaled so the largest value
/// of the unwound sample sequence meets the given radius. Returns the
/// polyline and the pixels-per-unit scale used, so the caller can place
/// the centroid with the same scale.
pub fn project_2d_centered(
    winding: &Vec<(i64, i64)>,
    svals: &Vec<i64>,
    center: (i64, i64),
    radius: i64,
) -> (r: (Vec<Segment>, i64))
    requires
        0 < winding.len() <= N_MAX,
        svals.len() == winding.len(),
        points_bounded(winding@),
        vals_bounded(svals@),
        -PIX_MAX <= center.0 <= PIX_MAX,
        -PIX_MAX <= center.1 <= PIX_MAX,
        0 <= radius <= PIX_MAX,
    ensures
        r.1 == ppu_s(svals@, radius as int),
        -PPU_MAX <= r.1 <= PPU_MAX,
        r.0.len() == winding.len(),
        forall|i: int|
            0 <= i < winding@.len() ==> (#[trigger] r.0[i]).1.0 == proj_c(
                winding@[i].0 as int,
                center.0 as int,
                r.1 as int,
            ) && r.0[i].1.1 == proj_c(winding@[i].1 as int, center.1 as int, r.1 as int),
        r.0[0].0 == r.0[0].1,
        forall|i: int| 1 <= i < winding@.len() ==> (#[trigger] r.0[i]).0 == r.0[i - 1].1,
{
    let n = winding.len();
    let mut ymax: i64 = svals[0];
    let mut i: usize = 1;
    while i < n
        invariant
            0 < n <= N_MAX,
            n == svals.len(),
            vals_bounded(svals@),
            1 <= i <= n,
            ymax == seq_max(svals@.take(i as int)),
            -VAL_MAX <= ymax <= VAL_MAX,
        decreases n - i,
    {
        proof {
            assert(svals@.take(i as int + 1).drop_last() =~= svals@.take(i as int));
        }
        if svals[i] > ymax {
            ymax = svals[i];
        }
        i += 1;
    }
    proof {
        assert(svals@.take(n as int) =~= svals@);
    }
    let ppu: i64 = if ymax == 0 {
        0
    } else if ymax > 0 {
        proof {
            assert(-((ymax as int) * (PPU_MAX as int)) <= (radius as int) * (SCALE_SQ as int)
                <= (ymax as int) * (PPU_MAX as int)) by (nonlinear_arith)
                requires
                    1 <= ymax as int,
                    0 <= radius as int <= PIX_MAX as int,
                    PIX_MAX as int == 1_000_000,
                    SCALE_SQ as int == 1_000_000_000_000,
                    PPU_MAX as int == 1_000_000_000_000_000_000;
            crate::fx::lemma_tdiv_range(
                (radius as int) * (SCALE_SQ as int),
                ymax as int,
                PPU_MAX as int,
            );
        }
        mul_div_t(radius, SCALE_SQ, ymax)
    } else {
        proof {
            assert(-((-(ymax as int)) * (PPU_MAX as int)) <= (radius as int) * (SCALE_SQ as int)
                <= (-(ymax as int)) * (PPU_MAX as int)) by (nonlinear_arith)
                requires
                    ymax as int <= -1,
                    0 <= radius as int <= PIX_MAX as int,
                    PIX_MAX as int == 1_000_000,
                    SCALE_SQ as int == 1_000_000_000_000,
                    PPU_MAX as int == 1_000_000_000_000_000_000;
            crate::fx::lemma_tdiv_range(
                (radius as int) * (SCALE_SQ as int),
                -(ymax as int),
                PPU_MAX as int,
            );
        }
        -mul_div_t(radius, SCALE_SQ, -ymax)
    };
    let mut segs: Vec<Segment> = Vec::new();
    let mut prev: (i64, i64) = (0, 0);
    let mut j: usize = 0;
    while j < n
        invariant
            0 < n <= N_MAX,
            n == winding.len(),
            points_bounded(winding@),
            -PIX_MAX <= center.0 <= PIX_MAX,
            -PIX_MAX <= center.1 <= PIX_MAX,
            -PPU_MAX <= ppu <= PPU_MAX,
            0 <= j <= n,
            segs.len() == j,
            j > 0 ==> prev.0 == proj_c(winding@[j - 1].0 as int, center.0 as int, ppu as int)
                && prev.1 == proj_c(winding@[j - 1].1 as int, center.1 as int, ppu as int),
            forall|k: int|
                0 <= k < j as int ==> (#[trigger] segs[k]).1.0 == proj_c(
                    winding@[k].0 as int,
                    center.0 as int,
                    ppu as int,
                ) && segs[k].1.1 == proj_c(winding@[k].1 as int, center.1 as int, ppu as int),
            j > 0 ==> segs[0].0 == segs[0].1,
            forall|k: int| 1 <= k < j as int ==> (#[trigger] segs[k]).0 == segs[k - 1].1,
        decreases n - j,
    {
        let q: (i64, i64) = project_point(winding[j], center, ppu);
        if j == 0 {
            segs.push((q, q));
        } else {
            segs.push((prev, q));
        }
        prev = q;
        j += 1;
    }
    (segs, ppu)
}

} // verus!
