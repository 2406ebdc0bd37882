//! Piecewise-linear conversion between a password-guess score (the base-10
//! logarithm of the estimated number of guesses) and a 1 to 100 strength
//! score, defined by a short table of calibration points.
//!
//! Scores are fixed-point numbers: an `i64` counts millionths of a unit.
use vstd::prelude::*;

pub mod error;
pub mod laws;
pub mod line;
pub mod piecewise;
pub mod scores;
pub mod tolerance;

pub use error::CurveError;
pub use tolerance::approx_eq_ratio;

verus! {

/// Number of stored units in one whole score unit.
pub const SCALE: i64 = 1_000_000;

/// Largest magnitude of a calibration coordinate: 2000 whole units. Within it,
/// a curve evaluated at any non-negative query fits an `i64`, extrapolation
/// below the first calibration point included.
pub const MAX_MAGNITUDE: i64 = 2_000_000_000;

/// A value lies in the range that the curve engine works with.
pub open spec fn in_range(v: int) -> bool {
    -MAX_MAGNITUDE <= v <= MAX_MAGNITUDE
}

} // verus!
