use vstd::prelude::*;

use crate::error::CurveError;
use crate::line::{GenericPoint, Line, SEGMENT_TOLERANCE_PPM};
use crate::tolerance::approx_eq_ratio_spec;

verus! {

/// One piece of a piecewise-linear curve: `line` applies to queries up to and
/// including `upper`.
#[derive(Debug, Clone, Copy, PartialEq, Eq, Structural)]
pub struct Segment {
    pub upper: i64,
    pub line: Line,
}

/// Every point of the table lies in the engine's range.
pub open spec fn points_wf(pts: Seq<GenericPoint>) -> bool {
    forall|i: int| 0 <= i < pts.len() ==> #[trigger] pts[i].wf()
}

/// What is wrong with two adjacent calibration points, if anything.
pub open spec fn pair_fault(a: GenericPoint, b: GenericPoint) -> Option<CurveError> {
    if !(a.x < b.x) {
        Some(CurveError::UnorderedPoints)
    } else if approx_eq_ratio_spec(a.x as int, b.x as int, SEGMENT_TOLERANCE_PPM as int) {
        Some(CurveError::DegenerateSegment)
    } else {
        None
    }
}

/// The fault of the first bad adjacent pair at index `i` or later.
pub open spec fn fault_from(pts: Seq<GenericPoint>, i: int) -> Option<CurveError>
    decreases pts.len() - i,
{
    if i < 0 || i + 1 >= pts.len() {
        None
    } else if pair_fault(pts[i], pts[i + 1]) is Some {
        pair_fault(pts[i], pts[i + 1])
    } else {
        fault_from(pts, i + 1)
    }
}

/// Why a calibration table cannot define a curve, if it cannot.
pub open spec fn table_error(pts: Seq<GenericPoint>) -> Option<CurveError> {
    if pts.len() < 2 {
        Some(CurveError::InsufficientPoints)
    } else {
        fault_from(pts, 0)
    }
}

/// The segment joining two adjacent calibration points.
pub open spec fn segment_of(a: GenericPoint, b: GenericPoint) -> Segment {
    Segment { upper: b.x, line: Line::through(a, b) }
}

/// One segment for each adjacent pair of the table, in order.
pub open spec fn segments_of(pts: Seq<GenericPoint>) -> Seq<Segment> {
    Seq::new((pts.len() - 1) as nat, |i: int| segment_of(pts[i], pts[i + 1]))
}

pub open spec fn segments_wf(segs: Seq<Segment>) -> bool {
    forall|i: int| 0 <= i < segs.len() ==> #[trigger] segs[i].line.wf()
}

/// The exact curve value at `x` from segment `i` on: the line of the first
/// segment whose upper bound is at least `x`, or `saturation` past them all.
pub open spec fn value_from(segs: Seq<Segment>, i: int, x: int, saturation: int) -> int
    decreases segs.len() - i,
{
    if i < 0 || i >= segs.len() {
        saturation
    } else if x <= segs[i].upper {
        segs[i].line.at(x)
    } else {
        value_from(segs, i + 1, x, saturation)
    }
}

pub open spec fn curve_value(segs: Seq<Segment>, x: int, saturation: int) -> int {
    value_from(segs, 0, x, saturation)
}

/// What evaluating a calibration table at `x` returns: the curve value, for
/// every query, where the table defines a curve.
pub open spec fn connected_spec(pts: Seq<GenericPoint>, x: int, saturation: int) -> Result<
    int,
    CurveError,
> {
    match table_error(pts) {
        Some(e) => Err(e),
        None => Ok(curve_value(segments_of(pts), x, saturation)),
    }
}

/// Builds one segment per adjacent pair of calibration points, checking that
/// the inputs ascend strictly and are not equal within the tolerance.
pub fn build_segments(points: &[GenericPoint]) -> (r: Result<Vec<Segment>, CurveError>)
    requires
        points_wf(points@),
    ensures
        match r {
            Ok(segs) => table_error(points@) is None && segs@ == segments_of(points@)
                && segments_wf(segs@),
            Err(e) => table_error(points@) == Some(e),
        },
{
    if points.len() < 2 {
        return Err(CurveError::InsufficientPoints);
    }
    let mut segments: Vec<Segment> = Vec::new();
    let mut i: usize = 1;
    while i < points.len()
        invariant
            points_wf(points@),
            2 <= points.len(),
            1 <= i <= points.len(),
            fault_from(points@, 0) == fault_from(points@, i - 1),
            segments@.len() == i - 1,
            forall|j: int|
                0 <= j < i - 1 ==> #[trigger] segments@[j] == segment_of(points@[j], points@[j + 1]),
            segments_wf(segments@),
        decreases points.len() - i,
    {
        let first = &points[i - 1];
        let second = &points[i];
        assert(first.wf() && second.wf());
        if !(second.x > first.x) {
            return Err(CurveError::UnorderedPoints);
        }
        let line = match first.line_from_points(second) {
            Some(l) => l,
            None => {
                return Err(CurveError::DegenerateSegment);
            },
        };
        segments.push(Segment { upper: second.x, line });
        i = i + 1;
    }
    assert(segments@ =~= segments_of(points@));
    Ok(segments)
}

/// Evaluates the curve at `x`: the first segment whose upper bound is at least
/// `x` gives the value, and past the last one the result is `saturation`.
pub fn evaluate_segments(segments: &[Segment], x: i64, saturation: i64) -> (r: i128)
    requires
        segments_wf(segments@),
    ensures
        r == curve_value(segments@, x as int, saturation as int),
{
    let mut i: usize = 0;
    while i < segments.len()
        invariant
            segments_wf(segments@),
            i <= segments.len(),
            value_from(segments@, 0, x as int, saturation as int) == value_from(
                segments@,
                i as int,
                x as int,
                saturation as int,
            ),
        decreases segments.len() - i,
    {
        if x <= segments[i].upper {
            assert(segments@[i as int].line.wf());
            return segments[i].line.value_at(x);
        }
        i = i + 1;
    }
    saturation as i128
}

/// Evaluates at `x` the curve that a calibration table defines, with
/// `max` as the value past its last point. Only a table that defines no
/// curve makes it fail.
pub fn connected_lines_at(points: &[GenericPoint], x: i64, max: i64) -> (r: Result<
    i128,
    CurveError,
>)
    requires
        points_wf(points@),
    ensures
        match r {
            Ok(v) => connected_spec(points@, x as int, max as int) == Ok::<int, CurveError>(
                v as int,
            ),
            Err(e) => connected_spec(points@, x as int, max as int) == Err::<int, CurveError>(e),
        },
{
    let segments = build_segments(points)?;
    let v = evaluate_segments(segments.as_slice(), x, max);
    Ok(v)
}

} // verus!
