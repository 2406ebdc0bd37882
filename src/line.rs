use vstd::prelude::*;

use crate::in_range;
use crate::tolerance::{abs_int, approx_eq_ratio, approx_eq_ratio_spec};

verus! {

/// Relative tolerance, in parts per million, under which two calibration
/// inputs count as the same input.
pub const SEGMENT_TOLERANCE_PPM: i64 = 1_000;

/// A point of a calibration table on plain axes.
#[derive(Debug, Clone, Copy, PartialEq, Eq, Structural)]
pub struct GenericPoint {
    pub x: i64,
    pub y: i64,
}

impl GenericPoint {
    /// Both coordinates lie in the engine's range.
    pub open spec fn wf(self) -> bool {
        in_range(self.x as int) && in_range(self.y as int)
    }
}

/// The line through an anchor point `(x0, y0)` that rises by `rise` over a
/// horizontal distance of `run`. Its value at `x` is rounded down.
#[derive(Debug, Clone, Copy, PartialEq, Eq, Structural)]
pub struct Line {
    pub x0: i64,
    pub y0: i64,
    pub run: i64,
    pub rise: i64,
}

impl Line {
    pub open spec fn wf(self) -> bool {
        &&& in_range(self.x0 as int)
        &&& in_range(self.y0 as int)
        &&& 0 < self.run <= 2 * crate::MAX_MAGNITUDE
        &&& -2 * crate::MAX_MAGNITUDE <= self.rise <= 2 * crate::MAX_MAGNITUDE
    }

    /// The exact value of the line at `x`, rounded down.
    pub open spec fn at(self, x: int) -> int {
        self.y0 + (self.rise * (x - self.x0)) / (self.run as int)
    }

    /// The line through two points with different inputs, anchored at the
    /// point with the smaller input.
    pub open spec fn through(a: GenericPoint, b: GenericPoint) -> Line {
        if a.x < b.x {
            Line { x0: a.x, y0: a.y, run: (b.x - a.x) as i64, rise: (b.y - a.y) as i64 }
        } else {
            Line { x0: b.x, y0: b.y, run: (a.x - b.x) as i64, rise: (a.y - b.y) as i64 }
        }
    }

    /// Evaluates the line at `x`, rounding down. The result is wider than
    /// `x`: extrapolated far from the anchor, a line leaves the `i64` range.
    pub fn value_at(&self, x: i64) -> (r: i128)
        requires
            self.wf(),
        ensures
            r == self.at(x as int),
    {
        let d: i128 = x as i128 - self.x0 as i128;
        let rise: i128 = self.rise as i128;
        let run: i128 = self.run as i128;
        let ghost bound: int = 0x1_0000_0000_0000_0000int * 0x1_0000_0000int;
        assert(-bound <= rise * d <= bound) by (nonlinear_arith)
            requires
                -0x1_0000_0000_0000_0000 <= d <= 0x1_0000_0000_0000_0000,
                -0x1_0000_0000 <= rise <= 0x1_0000_0000,
                bound == 0x1_0000_0000_0000_0000 * 0x1_0000_0000,
        ;
        let num: i128 = rise * d;
        let q: i128 = floor_div(num, run);
        proof {
            lemma_div_bounded(num as int, run as int);
        }
        self.y0 as i128 + q
    }
}

/// Floor division of a wide value by a positive one.
pub(crate) fn floor_div(n: i128, d: i128) -> (r: i128)
    requires
        d > 0,
        -0x100_0000_0000_0000_0000_0000_0000_0000 <= n <= 0x100_0000_0000_0000_0000_0000_0000_0000,
    ensures
        r == n / d,
{
    proof {
        lemma_div_bounded(n as int, d as int);
    }
    match n.checked_div_euclid(d) {
        Some(q) => q,
        // the quotient is no larger than `n`, so it always fits
        None => 0,
    }
}

/// Floor division by a positive number never grows a magnitude.
pub(crate) proof fn lemma_div_bounded(n: int, d: int)
    requires
        1 <= d,
    ensures
        -abs_int(n) <= n / d <= abs_int(n),
{
    let q = n / d;
    let r = n % d;
    vstd::arithmetic::div_mod::lemma_fundamental_div_mod(n, d);
    vstd::arithmetic::div_mod::lemma_mod_division_less_than_divisor(n, d);
    assert(n == d * q + r);
    assert(0 <= r < d);
    if q >= 0 {
        assert(q <= n) by (nonlinear_arith)
            requires
                n == d * q + r,
                0 <= r,
                q >= 0,
                d >= 1,
        ;
    } else {
        assert(n <= q) by (nonlinear_arith)
            requires
                n == d * q + r,
                r < d,
                q < 0,
                d >= 1,
        ;
    }
}

impl GenericPoint {
    /// The line through `self` and `other`, or `None` where their inputs are
    /// equal within `SEGMENT_TOLERANCE_PPM`.
    pub fn line_from_points(&self, other: &GenericPoint) -> (r: Option<Line>)
        requires
            self.wf(),
            other.wf(),
        ensures
            approx_eq_ratio_spec(self.x as int, other.x as int, SEGMENT_TOLERANCE_PPM as int)
                ==> r is None,
            !approx_eq_ratio_spec(self.x as int, other.x as int, SEGMENT_TOLERANCE_PPM as int)
                ==> r == Some(Line::through(*self, *other)),
            r matches Some(l) ==> l.wf(),
    {
        if approx_eq_ratio(self.x, other.x, SEGMENT_TOLERANCE_PPM) {
            return None;
        }
        if self.x < other.x {
            Some(Line { x0: self.x, y0: self.y, run: other.x - self.x, rise: other.y - self.y })
        } else {
            Some(Line { x0: other.x, y0: other.y, run: self.x - other.x, rise: self.y - other.y })
        }
    }
}

} // verus!
