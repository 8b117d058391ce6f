//! Fixed-point core of a Fourier-winding visualizer: sampling a scalar
//! signal over a domain, winding it around the unit circle at a chosen
//! frequency, averaging the winding into a centroid, sweeping a frequency
//! range into a centroid trajectory, and projecting the results into
//! screen-space polylines. All real quantities are carried as `i64` values
//! scaled by [`fx::SCALE`].

use vstd::prelude::*;

pub mod fx;
pub mod graph;
pub mod sweep;
pub mod frame;

verus! {

/// Largest magnitude, in fixed-point ticks, that signal values, domain
/// positions, frequencies and winding coordinates may take.
pub const VAL_MAX: i64 = 1_000_000_000;

/// Largest number of samples a single sequence may hold.
pub const N_MAX: usize = 1_000_000;

/// Largest magnitude, in pixels, of screen coordinates and extents.
pub const PIX_MAX: i64 = 1_000_000;

} // verus!
