use vstd::prelude::*;

verus! {

/// What can go wrong when building or evaluating a piecewise-linear curve.
#[derive(Debug, Clone, Copy, PartialEq, Eq, Structural)]
pub enum CurveError {
    /// The calibration table holds fewer than two points.
    InsufficientPoints,
    /// Two adjacent calibration points are not in strictly ascending input order.
    UnorderedPoints,
    /// Two adjacent calibration inputs are equal within the relative tolerance.
    DegenerateSegment,
    /// The query lies outside the range accepted in this direction.
    OutOfDomain,
}

} // verus!
