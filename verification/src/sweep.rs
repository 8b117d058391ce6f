//! Frequency-sweep precompute: the centroid of the winding at each of a
//! range of evenly spaced frequencies, collected once before the frame
//! loop into a centroid trajectory that later frames only read.

use vstd::prelude::*;
use vstd::arithmetic::div_mod::lemma_div_of0;
use crate::fx::{div_t, tdiv};
use crate::graph::{
    centroid, lemma_sample_pos_in_range, sample_polar, sample_pos, sampled_at_grid, step_s,
    sum_x, sum_y, valid_range, vals_bounded, wind_angle, wind_x, wind_y, winding_of,
};
use crate::{N_MAX, VAL_MAX};

verus! {

/// Sum of the horizontal winding coordinates of the values `vals` wound at
/// frequency `freq` over a grid with spacing `dt`.
pub open spec fn wind_sum_x(vals: Seq<i64>, freq: int, dt: int) -> int
    decreases vals.len(),
{
    if vals.len() == 0 {
        0
    } else {
        wind_sum_x(vals.drop_last(), freq, dt) + wind_x(
            vals.last() as int,
            wind_angle(freq, dt, vals.len() - 1),
        )
    }
}

/// Sum of the vertical winding coordinates.
pub open spec fn wind_sum_y(vals: Seq<i64>, freq: int, dt: int) -> int
    decreases vals.len(),
{
    if vals.len() == 0 {
        0
    } else {
        wind_sum_y(vals.drop_last(), freq, dt) + wind_y(
            vals.last() as int,
            wind_angle(freq, dt, vals.len() - 1),
        )
    }
}

/// Horizontal centroid coordinate of the winding of `vals` at `freq`.
pub open spec fn cm_x(vals: Seq<i64>, freq: int, dt: int) -> int
    recommends
        vals.len() > 0,
{
    tdiv(wind_sum_x(vals, freq, dt), vals.len() as int)
}

/// Vertical centroid coordinate of the winding of `vals` at `freq`.
pub open spec fn cm_y(vals: Seq<i64>, freq: int, dt: int) -> int
    recommends
        vals.len() > 0,
{
    tdiv(wind_sum_y(vals, freq, dt), vals.len() as int)
}

/// The coordinate sums of a winding equal the winding sums of the values
/// it was built from.
pub proof fn lemma_winding_sums(vals: Seq<i64>, freq: int, dt: int, ws: Seq<(i64, i64)>)
    requires
        winding_of(vals, freq, dt, ws),
    ensures
        sum_x(ws) == wind_sum_x(vals, freq, dt),
        sum_y(ws) == wind_sum_y(vals, freq, dt),
    decreases vals.len(),
{
    if vals.len() > 0 {
        assert(forall|i: int|
            0 <= i < vals.len() - 1 ==> #[trigger] vals.drop_last()[i] == vals[i]);
        assert(forall|i: int| 0 <= i < ws.len() - 1 ==> #[trigger] ws.drop_last()[i] == ws[i]);
        assert(winding_of(vals.drop_last(), freq, dt, ws.drop_last()));
        lemma_winding_sums(vals.drop_last(), freq, dt, ws.drop_last());
    }
}

/// Winding a signal that is zero everywhere produces zero sums at every
/// frequency.
proof fn lemma_zero_wind_sums(vals: Seq<i64>, freq: int, dt: int)
    requires
        forall|i: int| 0 <= i < vals.len() ==> #[trigger] vals[i] == 0,
    ensures
        wind_sum_x(vals, freq, dt) == 0,
        wind_sum_y(vals, freq, dt) == 0,
    decreases vals.len(),
{
    if vals.len() > 0 {
        assert(forall|i: int|
            0 <= i < vals.len() - 1 ==> #[trigger] vals.drop_last()[i] == vals[i]);
        lemma_zero_wind_sums(vals.drop_last(), freq, dt);
        let u = wind_angle(freq, dt, vals.len() - 1);
        assert(crate::fx::cos_s(u) * 0 == 0) by (nonlinear_arith);
        assert(crate::fx::sin_s(u) * 0 == 0) by (nonlinear_arith);
        lemma_div_of0(crate::fx::SCALE as int);
    }
}

/// The centroid of the winding of a constant-zero signal is the origin,
/// whatever the frequency and grid spacing.
pub proof fn lemma_zero_signal_centroid(vals: Seq<i64>, freq: int, dt: int)
    requires
        vals.len() > 0,
        forall|i: int| 0 <= i < vals.len() ==> #[trigger] vals[i] == 0,
    ensures
        cm_x(vals, freq, dt) == 0,
        cm_y(vals, freq, dt) == 0,
{
    lemma_zero_wind_sums(vals, freq, dt);
    lemma_div_of0(vals.len() as int);
}

/// Two centroid trajectories computed from the same values over the same
/// frequency grid are the same sequence: the sweep is a pure function of
/// its inputs, with no hidden state.
pub proof fn lemma_sweep_reproducible(
    vals: Seq<i64>,
    lo: int,
    hi: int,
    steps: int,
    dt: int,
    r1: Seq<(i64, i64)>,
    r2: Seq<(i64, i64)>,
)
    requires
        r1.len() == steps,
        r2.len() == steps,
        forall|i: int|
            0 <= i < steps ==> (#[trigger] r1[i]).0 == cm_x(vals, sample_pos(lo, hi, steps, i), dt)
                && r1[i].1 == cm_y(vals, sample_pos(lo, hi, steps, i), dt),
        forall|i: int|
            0 <= i < steps ==> (#[trigger] r2[i]).0 == cm_x(vals, sample_pos(lo, hi, steps, i), dt)
                && r2[i].1 == cm_y(vals, sample_pos(lo, hi, steps, i), dt),
    ensures
        r1 == r2,
{
    assert forall|i: int| 0 <= i < steps implies r1[i] == r2[i] by {
        assert(r1[i].0 == r2[i].0 && r1[i].1 == r2[i].1);
    }
    assert(r1 =~= r2);
}

/// Entry `i` of a centroid trajectory: the centroid of a winding of some
/// values the signal may produce on the sampling grid, at the `i`-th swept
/// frequency.
pub open spec fn is_sweep_entry<F: Fn(i64) -> i64>(
    f: F,
    domain: (i64, i64),
    freq_range: (i64, i64),
    steps: int,
    samples: int,
    i: int,
    e: (i64, i64),
) -> bool {
    exists|vals: Seq<i64>|
        #![trigger vals_bounded(vals)]
        {
            let fr = sample_pos(freq_range.0 as int, freq_range.1 as int, steps, i);
            let dt = step_s(domain.0 as int, domain.1 as int, samples);
            vals.len() == samples && sampled_at_grid(f, vals, dt) && vals_bounded(vals)
                && e.0 == cm_x(vals, fr, dt) && e.1 == cm_y(vals, fr, dt)
        }
}

/// Sweeps `steps` evenly spaced frequencies across `freq_range` (the start
/// included, the end never reached, as with sampling), winds the signal at
/// each and collects the centroids in frequency order. Each returned entry
/// is the centroid of a winding of values the signal may produce on the
/// sampling grid.
pub fn sweep_centroids<F: Fn(i64) -> i64 + Copy>(
    f: F,
    domain: (i64, i64),
    freq_range: (i64, i64),
    steps: usize,
    samples: usize,
) -> (trajectory: Vec<(i64, i64)>)
    requires
        valid_range(domain.0 as int, domain.1 as int),
        valid_range(freq_range.0 as int, freq_range.1 as int),
        0 < steps <= N_MAX,
        0 < samples <= N_MAX,
        forall|x: i64| #[trigger] call_requires(f, (x,)),
        forall|x: i64, y: i64| #[trigger] call_ensures(f, (x,), y) ==> -VAL_MAX <= y <= VAL_MAX,
    ensures
        trajectory.len() == steps,
        forall|i: int|
            0 <= i < steps as int ==> is_sweep_entry(
                f,
                domain,
                freq_range,
                steps as int,
                samples as int,
                i,
                #[trigger] trajectory[i],
            ),
{
    let lo = freq_range.0;
    let hi = freq_range.1;
    let fstep: i64 = div_t(hi - lo, steps as i64);
    let ghost dt = step_s(domain.0 as int, domain.1 as int, samples as int);
    let mut trajectory: Vec<(i64, i64)> = Vec::new();
    let mut i: usize = 0;
    while i < steps
        invariant
            valid_range(domain.0 as int, domain.1 as int),
            valid_range(lo as int, hi as int),
            lo == freq_range.0,
            hi == freq_range.1,
            0 < steps <= N_MAX,
            0 < samples <= N_MAX,
            fstep == step_s(lo as int, hi as int, steps as int),
            dt == step_s(domain.0 as int, domain.1 as int, samples as int),
            0 <= i <= steps,
            trajectory.len() == i,
            forall|x: i64| #[trigger] call_requires(f, (x,)),
            forall|x: i64, y: i64| #[trigger] call_ensures(f, (x,), y) ==> -VAL_MAX <= y
                <= VAL_MAX,
            forall|j: int|
                0 <= j < i as int ==> is_sweep_entry(
                    f,
                    domain,
                    freq_range,
                    steps as int,
                    samples as int,
                    j,
                    #[trigger] trajectory[j],
                ),
        decreases steps - i,
    {
        proof {
            lemma_sample_pos_in_range(lo as int, hi as int, steps as int, i as int);
        }
        let fr: i64 = lo + (i as i64) * fstep;
        let coords = sample_polar(f, domain, fr, samples);
        let cm = centroid(&coords);
        proof {
            let vals = choose|vals: Seq<i64>|
                vals.len() == samples as int && sampled_at_grid(f, vals, dt) && vals_bounded(vals)
                    && winding_of(vals, fr as int, dt, coords@);
            lemma_winding_sums(vals, fr as int, dt, coords@);
            assert(cm.0 == cm_x(vals, fr as int, dt) && cm.1 == cm_y(vals, fr as int, dt));
            assert(fr as int == sample_pos(
                freq_range.0 as int,
                freq_range.1 as int,
                steps as int,
                i as int,
            ));
            assert({
                let frq = sample_pos(freq_range.0 as int, freq_range.1 as int, steps as int,
                    i as int);
                let dtg = step_s(domain.0 as int, domain.1 as int, samples as int);
                vals.len() == samples as int && sampled_at_grid(f, vals, dtg) && vals_bounded(vals)
                    && cm.0 == cm_x(vals, frq, dtg) && cm.1 == cm_y(vals, frq, dtg)
            });
            assert(is_sweep_entry(f, domain, freq_range, steps as int, samples as int, i as int, cm));
        }
        trajectory.push(cm);
        i += 1;
    }
    trajectory
}

} // verus!
