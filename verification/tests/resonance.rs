//! End-to-end resonance checks: the centroid magnitude peaks when the
//! winding frequency matches the frequency content of the signal.

use winding::fx::SCALE;
use winding::graph::{centroid, sample_polar};
use winding::sweep::sweep_centroids;

fn cos_three_plus_one(t: i64) -> i64 {
    let x = t as f64 / SCALE as f64;
    (((2.0 * std::f64::consts::PI * 3.0 * x).cos() + 1.0) * SCALE as f64).round() as i64
}

fn magnitude_sq(p: (i64, i64)) -> i128 {
    (p.0 as i128) * (p.0 as i128) + (p.1 as i128) * (p.1 as i128)
}

#[test]
fn centroid_magnitude_peaks_at_the_signal_frequency() {
    let domain = (0, 4_000_000);
    let n = 1000;
    let mag_at = |freq: i64| -> i128 {
        let coords = sample_polar(cos_three_plus_one, domain, freq, n);
        magnitude_sq(centroid(&coords))
    };
    let at_resonance = mag_at(3_000_000);
    assert!(at_resonance > mag_at(2_900_000));
    assert!(at_resonance > mag_at(3_100_000));
}

#[test]
fn sweeping_recovers_the_signal_frequency() {
    let domain = (0, 4_000_000);
    let steps = 1000;
    let trajectory = sweep_centroids(cos_three_plus_one, domain, (50_000, 4_050_000), steps, 1000);
    assert_eq!(trajectory.len(), steps);
    // One sweep step is (4.05 - 0.05) / 1000 cycles per unit.
    let step = 4_000;
    // The signal's constant offset dominates the trajectory near zero
    // frequency (the centroid barely rotates there), so the resonance peak
    // is sought past that lobe, from one cycle per unit upward.
    let mut best = 0usize;
    let mut best_mag = -1i128;
    for (i, &cm) in trajectory.iter().enumerate() {
        let freq = 50_000 + step * i as i64;
        if freq < 1_000_000 {
            continue;
        }
        let m = magnitude_sq(cm);
        if m > best_mag {
            best_mag = m;
            best = i;
        }
    }
    let best_freq = 50_000 + step * best as i64;
    // The rational sine kernel is within 0.16% of the real sine, which
    // flattens the very top of the resonance peak; the located maximum is
    // therefore allowed a few sweep steps of slack around 3.0.
    assert!(
        (best_freq - 3_000_000).abs() <= 5 * step,
        "peak found at {best_freq}"
    );
}
