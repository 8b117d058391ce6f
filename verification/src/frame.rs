//! Per-frame arithmetic: the oscillating frequency derived from elapsed
//! time, the frequency tick marks over the signal plot, the marker that
//! points into the centroid-trajectory plot, and the offset channels that
//! make the trajectory plottable.

use vstd::prelude::*;
use crate::fx::{mul_div_t, sin_fx, sin_s, tdiv, SCALE, SCALE_SQ};
use crate::fx::{lemma_scaled_bound, lemma_sin_bounds, lemma_tdiv_range};
use crate::graph::{points_bounded, valid_range, Rect};
use crate::{PIX_MAX, VAL_MAX};

verus! {

/// One radian in fixed-point turns: the reciprocal of a full circle.
pub const RADIAN_TURNS: i64 = 159_155;

/// Largest elapsed-time tick count the frame driver accepts.
pub const TIME_MAX: i64 = 1_000_000_000_000_000;

/// Most tick marks a single plot will carry.
pub const TICK_LIMIT: usize = 1_000;

/// Phase of the frequency oscillation, in fixed-point turns, after `t`
/// ticks of elapsed time with the given period.
pub open spec fn osc_turns(t: int, period: int) -> int {
    tdiv(tdiv(t * (SCALE as int), period) * (RADIAN_TURNS as int), SCALE as int)
}

/// The frequency the frame driver uses at elapsed time `t`: an oscillation
/// of the given amplitude around `mid`.
pub open spec fn freq_of_time(t: int, period: int, amp: int, mid: int) -> int {
    mid + tdiv(sin_s(osc_turns(t, period)) * amp, SCALE as int)
}

/// Derives the current winding frequency from elapsed time: a sine
/// oscillation of amplitude `amp` around `mid`, completing one radian of
/// phase per `period` ticks of time. The result never leaves
/// `[mid - amp, mid + amp]`.
pub fn derive_frequency(t: i64, period: i64, amp: i64, mid: i64) -> (freq: i64)
    requires
        -TIME_MAX <= t <= TIME_MAX,
        SCALE <= period <= VAL_MAX,
        0 <= amp <= VAL_MAX,
        -VAL_MAX <= mid <= VAL_MAX,
    ensures
        freq == freq_of_time(t as int, period as int, amp as int, mid as int),
        mid - amp <= freq <= mid + amp,
{
    proof {
        assert(-((period as int) * (TIME_MAX as int)) <= (t as int) * (SCALE as int)
            <= (period as int) * (TIME_MAX as int)) by (nonlinear_arith)
            requires
                -(TIME_MAX as int) <= t as int <= TIME_MAX as int,
                SCALE as int <= period as int,
                SCALE as int == 1_000_000,
                TIME_MAX as int == 1_000_000_000_000_000;
        lemma_tdiv_range((t as int) * (SCALE as int), period as int, TIME_MAX as int);
    }
    let rad: i64 = mul_div_t(t, SCALE, period);
    proof {
        lemma_scaled_bound(RADIAN_TURNS as int, rad as int, SCALE as int, TIME_MAX as int);
        assert((rad as int) * (RADIAN_TURNS as int) == (RADIAN_TURNS as int) * (rad as int))
            by (nonlinear_arith);
    }
    let turns: i64 = mul_div_t(rad, RADIAN_TURNS, SCALE);
    let s: i64 = sin_fx(turns);
    proof {
        lemma_scaled_bound(s as int, amp as int, SCALE as int, amp as int);
    }
    let osc: i64 = mul_div_t(s, amp, SCALE);
    mid + osc
}

/// True exactly when an oscillation of amplitude `amp` around `mid` can
/// never leave the swept range `[lo, hi]`: the startup invariant that
/// keeps the live centroid marker inside the precomputed trajectory.
pub fn check_frequency_config(lo: i64, hi: i64, amp: i64, mid: i64) -> (ok: bool)
    requires
        -VAL_MAX <= lo <= VAL_MAX,
        -VAL_MAX <= hi <= VAL_MAX,
        -VAL_MAX <= amp <= VAL_MAX,
        -VAL_MAX <= mid <= VAL_MAX,
    ensures
        ok == (0 <= amp && lo as int <= mid as int - amp as int && mid as int + amp as int
            <= hi as int),
{
    0 <= amp && lo <= mid - amp && mid + amp <= hi
}

/// When the oscillation configuration passes its startup check, the
/// derived frequency stays inside the swept range at every elapsed time.
pub proof fn lemma_frequency_stays_in_sweep(
    t: int,
    period: int,
    amp: int,
    mid: int,
    lo: int,
    hi: int,
)
    requires
        0 <= amp,
        lo <= mid - amp,
        mid + amp <= hi,
    ensures
        lo <= freq_of_time(t, period, amp, mid) <= hi,
{
    lemma_sin_bounds(osc_turns(t, period));
    lemma_scaled_bound(sin_s(osc_turns(t, period)), amp, SCALE as int, amp);
}

/// Horizontal pixel position of tick mark `k`: multiples of the reciprocal
/// frequency scaled by pixels-per-unit.
pub open spec fn tick_x(freq: int, ppu: int, k: int) -> int {
    tdiv(k * ppu, freq)
}

/// Positions of the vertical frequency tick marks over the signal plot:
/// one every `1/freq` domain units, until the plot width is passed or the
/// tick budget is spent.
pub fn tick_xs(freq: i64, ppu: i64, width: i64, limit: usize) -> (xs: Vec<i64>)
    requires
        1 <= freq <= VAL_MAX,
        0 <= ppu <= SCALE_SQ,
        0 <= width <= PIX_MAX,
        limit <= TICK_LIMIT,
    ensures
        xs.len() <= limit,
        forall|k: int|
            0 <= k < xs@.len() ==> #[trigger] xs[k] == tick_x(freq as int, ppu as int, k)
                && xs[k] <= width,
        xs.len() < limit ==> tick_x(freq as int, ppu as int, xs@.len() as int) > width,
{
    let mut xs: Vec<i64> = Vec::new();
    let mut k: usize = 0;
    let mut past_edge = false;
    while k < limit && !past_edge
        invariant
            1 <= freq <= VAL_MAX,
            0 <= ppu <= SCALE_SQ,
            0 <= width <= PIX_MAX,
            limit <= TICK_LIMIT,
            0 <= k <= limit,
            xs.len() == k,
            forall|j: int|
                0 <= j < k as int ==> #[trigger] xs[j] == tick_x(freq as int, ppu as int, j)
                    && xs[j] <= width,
            past_edge ==> tick_x(freq as int, ppu as int, k as int) > width,
        decreases limit - k + if past_edge { 0int } else { 1int },
    {
        proof {
            assert(-((freq as int) * 1_000_000_000_000_000) <= (k as int) * (ppu as int)
                <= (freq as int) * 1_000_000_000_000_000) by (nonlinear_arith)
                requires
                    0 <= k as int <= 1_000,
                    0 <= ppu as int <= SCALE_SQ as int,
                    1 <= freq as int,
                    SCALE_SQ as int == 1_000_000_000_000;
            lemma_tdiv_range((k as int) * (ppu as int), freq as int, 1_000_000_000_000_000);
        }
        let x: i64 = mul_div_t(k as i64, ppu, freq);
        if x > width {
            past_edge = true;
        } else {
            xs.push(x);
            k += 1;
        }
    }
    xs
}

/// Horizontal pixel position of the marker that points at `freq` inside a
/// trajectory plot whose width spans the given frequency range.
pub open spec fn marker_x(rect: Rect, lo: int, hi: int, freq: int) -> int {
    rect.x as int + tdiv((rect.w as int) * freq, hi - lo)
}

/// Maps the current frequency to its horizontal position within the
/// trajectory plot rectangle.
pub fn freq_marker_x(rect: Rect, freq_range: (i64, i64), freq: i64) -> (x: i64)
    requires
        rect.wf(),
        valid_range(freq_range.0 as int, freq_range.1 as int),
        -VAL_MAX <= freq <= VAL_MAX,
    ensures
        x == marker_x(rect, freq_range.0 as int, freq_range.1 as int, freq as int),
{
    proof {
        let span = freq_range.1 as int - freq_range.0 as int;
        assert(-(span * 1_000_000_000_000_000) <= (rect.w as int) * (freq as int)
            <= span * 1_000_000_000_000_000) by (nonlinear_arith)
            requires
                1 <= span,
                0 < rect.w as int <= PIX_MAX as int,
                -(VAL_MAX as int) <= freq as int <= VAL_MAX as int,
                PIX_MAX as int == 1_000_000,
                VAL_MAX as int == 1_000_000_000;
        lemma_tdiv_range((rect.w as int) * (freq as int), span, 1_000_000_000_000_000);
    }
    rect.x + mul_div_t(rect.w, freq, freq_range.1 - freq_range.0)
}

/// Offset added to each trajectory channel so both stay positive enough
/// to plot.
pub const CHANNEL_OFFSET: i64 = 400_000;

/// Splits a centroid trajectory into its two plottable coordinate
/// channels: the horizontal parts and the negated vertical parts, each
/// shifted by the channel offset.
pub fn trajectory_channels(vcm: &Vec<(i64, i64)>) -> (chans: (Vec<i64>, Vec<i64>))
    requires
        points_bounded(vcm@),
    ensures
        chans.0.len() == vcm.len(),
        chans.1.len() == vcm.len(),
        forall|i: int|
            0 <= i < vcm@.len() ==> #[trigger] chans.0[i] == vcm@[i].0 + CHANNEL_OFFSET,
        forall|i: int|
            0 <= i < vcm@.len() ==> #[trigger] chans.1[i] == -vcm@[i].1 + CHANNEL_OFFSET,
{
    let mut xs: Vec<i64> = Vec::new();
    let mut ys: Vec<i64> = Vec::new();
    let mut i: usize = 0;
    while i < vcm.len()
        invariant
            points_bounded(vcm@),
            0 <= i <= vcm.len(),
            xs.len() == i,
            ys.len() == i,
            forall|j: int| 0 <= j < i as int ==> #[trigger] xs[j] == vcm@[j].0 + CHANNEL_OFFSET,
            forall|j: int| 0 <= j < i as int ==> #[trigger] ys[j] == -vcm@[j].1 + CHANNEL_OFFSET,
        decreases vcm.len() - i,
    {
        xs.push(vcm[i].0 + CHANNEL_OFFSET);
        ys.push(-vcm[i].1 + CHANNEL_OFFSET);
        i += 1;
    }
    (xs, ys)
}

} // verus!
