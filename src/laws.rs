use vstd::prelude::*;

use crate::error::CurveError;
use crate::line::{GenericPoint, Line};
use crate::piecewise::{
    connected_spec, curve_value, fault_from, pair_fault, points_wf, segments_of,
    table_error, value_from, Segment,
};
use crate::line::lemma_div_bounded;
use crate::scores::{bits_of, zx_of_bits, LOG2_10_DEN, LOG2_10_NUM, 
    OpScore, ZxScore, forward_points, inverse_points, table_wf, to_op_spec, to_zx_spec, Point, MAX_OP_STRENGTH_SCORE,
    MAX_ZX_SCORE,
};

verus! {

/// Index of the first segment, from `i` on, whose upper bound is at least `x`;
/// the number of segments where there is none.
pub open spec fn locate_from(segs: Seq<Segment>, i: int, x: int) -> int
    decreases segs.len() - i,
{
    if i < 0 || i >= segs.len() {
        segs.len() as int
    } else if x <= segs[i].upper {
        i
    } else {
        locate_from(segs, i + 1, x)
    }
}

proof fn lemma_locate(segs: Seq<Segment>, i: int, x: int, saturation: int)
    requires
        0 <= i <= segs.len(),
    ensures
        i <= locate_from(segs, i, x) <= segs.len(),
        forall|j: int| i <= j < locate_from(segs, i, x) ==> x > #[trigger] segs[j].upper,
        locate_from(segs, i, x) < segs.len() ==> x <= segs[locate_from(segs, i, x)].upper,
        value_from(segs, i, x, saturation) == if locate_from(segs, i, x) < segs.len() {
            segs[locate_from(segs, i, x)].line.at(x)
        } else {
            saturation
        },
    decreases segs.len() - i,
{
    if i < segs.len() && x > segs[i].upper {
        lemma_locate(segs, i + 1, x, saturation);
    }
}

proof fn lemma_fault_free(pts: Seq<GenericPoint>, j: int)
    requires
        0 <= j,
        fault_from(pts, j) is None,
    ensures
        forall|i: int| j <= i < pts.len() - 1 ==> #[trigger] pair_fault(pts[i], pts[i + 1]) is None,
    decreases pts.len() - j,
{
    if j + 1 < pts.len() {
        lemma_fault_free(pts, j + 1);
    }
}

/// A table that defines a curve has strictly ascending inputs.
proof fn lemma_ascending(pts: Seq<GenericPoint>)
    requires
        table_error(pts) is None,
    ensures
        pts.len() >= 2,
        forall|i: int, j: int| 0 <= i < j < pts.len() ==> pts[i].x < pts[j].x,
{
    lemma_fault_free(pts, 0);
    assert forall|i: int, j: int| 0 <= i < j < pts.len() implies pts[i].x < pts[j].x by {
        lemma_ascending_from(pts, i, j);
    }
}

proof fn lemma_ascending_from(pts: Seq<GenericPoint>, i: int, j: int)
    requires
        0 <= i < j < pts.len(),
        forall|k: int| 0 <= k < pts.len() - 1 ==> #[trigger] pair_fault(pts[k], pts[k + 1]) is None,
    ensures
        pts[i].x < pts[j].x,
    decreases j - i,
{
    let k = j - 1;
    assert(pair_fault(pts[k], pts[k + 1]) is None);
    if i < j - 1 {
        lemma_ascending_from(pts, i, j - 1);
    }
}

/// The line through two points takes their outputs at their inputs.
proof fn lemma_line_ends(a: GenericPoint, b: GenericPoint)
    requires
        a.x < b.x,
        a.wf(),
        b.wf(),
    ensures
        Line::through(a, b).at(a.x as int) == a.y,
        Line::through(a, b).at(b.x as int) == b.y,
{
    let l = Line::through(a, b);
    assert(l.rise * (a.x - l.x0) == 0);
    vstd::arithmetic::div_mod::lemma_div_multiples_vanish(l.rise as int, l.run as int);
    assert(l.rise * (b.x - l.x0) == l.run * l.rise) by (nonlinear_arith)
        requires
            l.run == b.x - a.x,
            l.x0 == a.x,
    ;
}

/// Between its anchor and `run` further on, a line stays between its end values.
proof fn lemma_line_between(l: Line, x: int)
    requires
        l.run > 0,
        l.x0 <= x <= l.x0 + l.run,
    ensures
        l.rise >= 0 ==> l.y0 <= l.at(x) <= l.y0 + l.rise,
        l.rise < 0 ==> l.y0 + l.rise <= l.at(x) <= l.y0,
{
    let d = x - l.x0;
    let run = l.run as int;
    let rise = l.rise as int;
    vstd::arithmetic::div_mod::lemma_div_multiples_vanish(rise, run);
    if rise >= 0 {
        assert(0 <= rise * d <= run * rise) by (nonlinear_arith)
            requires
                0 <= d <= run,
                rise >= 0,
        ;
        vstd::arithmetic::div_mod::lemma_div_is_ordered(0, rise * d, run);
        vstd::arithmetic::div_mod::lemma_div_is_ordered(rise * d, run * rise, run);
    } else {
        assert(run * rise <= rise * d <= 0) by (nonlinear_arith)
            requires
                0 <= d <= run,
                rise < 0,
        ;
        vstd::arithmetic::div_mod::lemma_div_is_ordered(rise * d, 0, run);
        vstd::arithmetic::div_mod::lemma_div_is_ordered(run * rise, rise * d, run);
    }
}

/// A line that does not fall is nondecreasing.
proof fn lemma_line_monotone(l: Line, x1: int, x2: int)
    requires
        l.run > 0,
        l.rise >= 0,
        x1 <= x2,
    ensures
        l.at(x1) <= l.at(x2),
{
    assert(l.rise * (x1 - l.x0) <= l.rise * (x2 - l.x0)) by (nonlinear_arith)
        requires
            l.rise >= 0,
            x1 <= x2,
    ;
    vstd::arithmetic::div_mod::lemma_div_is_ordered(
        l.rise * (x1 - l.x0),
        l.rise * (x2 - l.x0),
        l.run as int,
    );
}

/// Facts on the segments of a table that defines a curve.
proof fn lemma_segments(pts: Seq<GenericPoint>)
    requires
        table_error(pts) is None,
        points_wf(pts),
    ensures
        segments_of(pts).len() == pts.len() - 1,
        forall|k: int|
            0 <= k < pts.len() - 1 ==> {
                &&& (#[trigger] segments_of(pts)[k]).upper == pts[k + 1].x
                &&& segments_of(pts)[k].line.x0 == pts[k].x
                &&& segments_of(pts)[k].line.y0 == pts[k].y
                &&& segments_of(pts)[k].line.run == pts[k + 1].x - pts[k].x
                &&& segments_of(pts)[k].line.rise == pts[k + 1].y - pts[k].y
                &&& segments_of(pts)[k].line.at(pts[k].x as int) == pts[k].y
                &&& segments_of(pts)[k].line.at(pts[k + 1].x as int) == pts[k + 1].y
            },
        forall|i: int, j: int| 0 <= i < j < pts.len() ==> pts[i].x < pts[j].x,
{
    lemma_ascending(pts);
    assert forall|k: int| 0 <= k < pts.len() - 1 implies {
        &&& (#[trigger] segments_of(pts)[k]).upper == pts[k + 1].x
        &&& segments_of(pts)[k].line.x0 == pts[k].x
        &&& segments_of(pts)[k].line.y0 == pts[k].y
        &&& segments_of(pts)[k].line.run == pts[k + 1].x - pts[k].x
        &&& segments_of(pts)[k].line.rise == pts[k + 1].y - pts[k].y
        &&& segments_of(pts)[k].line.at(pts[k].x as int) == pts[k].y
        &&& segments_of(pts)[k].line.at(pts[k + 1].x as int) == pts[k + 1].y
    } by {
        assert(pts[k].x < pts[k + 1].x);
        assert(pts[k].wf() && pts[k + 1].wf());
        lemma_line_ends(pts[k], pts[k + 1]);
    }
}

/// Where a table defines a curve, the segment that holds `x` is the first
/// `k` with `x` at most the input of point `k + 1`.
proof fn lemma_locate_table(pts: Seq<GenericPoint>, x: int, saturation: int)
    requires
        table_error(pts) is None,
        points_wf(pts),
    ensures
        ({
            let segs = segments_of(pts);
            let k = locate_from(segs, 0, x);
            &&& 0 <= k <= pts.len() - 1
            &&& curve_value(segs, x, saturation) == if k < pts.len() - 1 {
                segs[k].line.at(x)
            } else {
                saturation
            }
            &&& k < pts.len() - 1 ==> x <= pts[k + 1].x
            &&& k > 0 ==> pts[k].x < x
            &&& k == pts.len() - 1 ==> pts[pts.len() - 1].x < x
        }),
{
    lemma_segments(pts);
    let segs = segments_of(pts);
    lemma_locate(segs, 0, x, saturation);
    let k = locate_from(segs, 0, x);
    if k > 0 {
        assert(x > segs[k - 1].upper);
    }
}

/// Exactness at knots: where a table defines a curve, the curve takes each
/// calibration point's output at that point's input.
pub proof fn lemma_exact_at_knots(pts: Seq<GenericPoint>, k: int, saturation: int)
    requires
        table_error(pts) is None,
        points_wf(pts),
        0 <= k < pts.len(),
    ensures
        connected_spec(pts, pts[k].x as int, saturation) == Ok::<int, CurveError>(pts[k].y as int),
{
    let x = pts[k].x as int;
    lemma_segments(pts);
    lemma_locate_table(pts, x, saturation);
    let segs = segments_of(pts);
    let j = locate_from(segs, 0, x);
    if j < k - 1 {
        assert(pts[j + 1].x < pts[k].x);
    }
    if j > k {
        assert(pts[k].x < pts[j].x);
    }
    if j == k - 1 {
        assert(segs[j].line.at(pts[j + 1].x as int) == pts[j + 1].y);
    } else {
        assert(j == k);
        if k == pts.len() - 1 {
            assert(false);
        }
        assert(segs[j].line.at(pts[j].x as int) == pts[j].y);
    }
    assert(pts[k].wf());
}

/// Clamp at the top: past the last calibration input the curve is the
/// saturation value, exactly.
pub proof fn lemma_clamp_at_top(pts: Seq<GenericPoint>, x: int, saturation: int)
    requires
        table_error(pts) is None,
        points_wf(pts),
        pts.len() >= 1,
        x > pts[pts.len() - 1].x,
    ensures
        connected_spec(pts, x, saturation) == Ok::<int, CurveError>(saturation),
{
    lemma_segments(pts);
    lemma_locate_table(pts, x, saturation);
    let segs = segments_of(pts);
    let k = locate_from(segs, 0, x);
    if k < pts.len() - 1 {
        if k + 1 < pts.len() - 1 {
            assert(pts[k + 1].x < pts[pts.len() - 1].x);
        }
        assert(false);
    }
}

/// Table-size guard: a table of fewer than two points defines no curve, and
/// evaluating it fails the same way.
pub proof fn lemma_table_size_guard(pts: Seq<GenericPoint>, x: int, saturation: int)
    requires
        pts.len() < 2,
    ensures
        table_error(pts) == Some(CurveError::InsufficientPoints),
        connected_spec(pts, x, saturation) == Err::<int, CurveError>(
            CurveError::InsufficientPoints,
        ),
{
}

/// Monotonicity: where the outputs of a table ascend and the saturation value
/// is at least the last output, a larger input never gives a smaller value.
pub proof fn lemma_monotone(pts: Seq<GenericPoint>, x1: int, x2: int, saturation: int)
    requires
        table_error(pts) is None,
        points_wf(pts),
        forall|i: int, j: int| 0 <= i < j < pts.len() ==> pts[i].y <= pts[j].y,
        pts.len() >= 1 && saturation >= pts[pts.len() - 1].y,
        x1 < x2,
    ensures
        connected_spec(pts, x1, saturation) is Ok,
        connected_spec(pts, x2, saturation) is Ok,
        connected_spec(pts, x1, saturation)->Ok_0 <= connected_spec(pts, x2, saturation)->Ok_0,
{
    lemma_locate_table(pts, x1, saturation);
    lemma_locate_table(pts, x2, saturation);
    lemma_segments(pts);
    let segs = segments_of(pts);
    let n = pts.len() - 1;
    let k1 = locate_from(segs, 0, x1);
    let k2 = locate_from(segs, 0, x2);
    if k2 < k1 {
        assert(pts[k2 + 1].x <= pts[k1].x);
        assert(false);
    }
    if k1 < n {
        let l1 = segs[k1].line;
        assert(pts[k1].y <= pts[k1 + 1].y);
        lemma_line_monotone(l1, x1, pts[k1 + 1].x as int);
        if k2 == k1 {
            lemma_line_monotone(l1, x1, x2);
        } else if k2 < n {
            let l2 = segs[k2].line;
            assert(pts[k2].y <= pts[k2 + 1].y);
            lemma_line_monotone(l2, pts[k2].x as int, x2);
            if k1 + 1 < k2 {
                assert(pts[k1 + 1].y <= pts[k2].y);
            }
        } else {
            if k1 + 1 < n {
                assert(pts[k1 + 1].y <= pts[n].y);
            }
        }
    }
}


/// Rounding down twice, forward and back, loses less than one unit of the
/// input plus what one unit of the output spans.
proof fn lemma_round_trip_error(run: int, rise: int, d: int)
    requires
        run > 0,
        rise > 0,
        0 <= d <= run,
    ensures
        0 <= (rise * d) / run <= rise,
        0 <= (run * ((rise * d) / run)) / rise <= d,
        (d - (run * ((rise * d) / run)) / rise - 1) * rise < run,
{
    let q = (rise * d) / run;
    let e = (run * q) / rise;
    vstd::arithmetic::div_mod::lemma_fundamental_div_mod(rise * d, run);
    vstd::arithmetic::div_mod::lemma_mod_division_less_than_divisor(rise * d, run);
    let r1 = (rise * d) % run;
    assert(0 <= rise * d <= run * rise) by (nonlinear_arith)
        requires
            0 <= d <= run,
            rise > 0,
    ;
    vstd::arithmetic::div_mod::lemma_div_multiples_vanish(rise, run);
    vstd::arithmetic::div_mod::lemma_div_is_ordered(0, rise * d, run);
    vstd::arithmetic::div_mod::lemma_div_is_ordered(rise * d, run * rise, run);
    assert(0 <= run * q) by (nonlinear_arith)
        requires
            run > 0,
            q >= 0,
    ;
    vstd::arithmetic::div_mod::lemma_fundamental_div_mod(run * q, rise);
    vstd::arithmetic::div_mod::lemma_mod_division_less_than_divisor(run * q, rise);
    let r2 = (run * q) % rise;
    vstd::arithmetic::div_mod::lemma_div_is_ordered(0, run * q, rise);
    assert(e <= d) by (nonlinear_arith)
        requires
            rise * d == run * q + r1,
            run * q == rise * e + r2,
            0 <= r1,
            0 <= r2,
            rise > 0,
    ;
    assert((d - e - 1) * rise < run) by (nonlinear_arith)
        requires
            rise * d == run * q + r1,
            run * q == rise * e + r2,
            r1 < run,
            r2 < rise,
    ;
}

/// Both views of a valid score table hold valid plain points.
pub(crate) proof fn lemma_views_wf(points: Seq<Point>)
    requires
        table_wf(points),
    ensures
        points_wf(forward_points(points)),
        points_wf(inverse_points(points)),
        forward_points(points).len() == points.len(),
        inverse_points(points).len() == points.len(),
        forall|i: int|
            0 <= i < points.len() ==> #[trigger] forward_points(points)[i] == points[i].forward(),
        forall|i: int|
            0 <= i < points.len() ==> #[trigger] inverse_points(points)[i] == points[i].inverse(),
{
    assert forall|i: int| 0 <= i < points.len() implies #[trigger] forward_points(points)[i].wf() by {
        assert(points[i].wf());
    }
    assert forall|i: int| 0 <= i < points.len() implies #[trigger] inverse_points(points)[i].wf() by {
        assert(points[i].wf());
    }
}

/// Near-inverse: inside the calibrated range, mapping a guess score to a
/// strength score and back succeeds and returns at most the original guess
/// score, short of it by less than one stored unit plus the guess-score span
/// of one stored strength unit on the segment that holds it. The table's
/// strength scores must ascend strictly and lie on the 0 to 100 scale.
pub proof fn lemma_near_inverse(points: Seq<Point>, x: int)
    requires
        table_wf(points),
        table_error(forward_points(points)) is None,
        table_error(inverse_points(points)) is None,
        forall|i: int|
            0 <= i < points.len() ==> 0 <= #[trigger] points[i].op.0 <= MAX_OP_STRENGTH_SCORE,
        0 <= x,
        points.len() >= 1,
        points[0].zx.0 <= x <= points[points.len() - 1].zx.0,
    ensures
        to_op_spec(points, x) is Ok,
        to_zx_spec(points, to_op_spec(points, x)->Ok_0.0 as int) is Ok,
        ({
            let g = to_zx_spec(points, to_op_spec(points, x)->Ok_0.0 as int)->Ok_0.0 as int;
            &&& g <= x
            &&& forall|k: int|
                1 <= k < points.len() && points[k - 1].zx.0 < x <= #[trigger] points[k].zx.0
                    ==> (x - g - 1) * (points[k].op.0 - points[k - 1].op.0) < points[k].zx.0
                    - points[k - 1].zx.0
        }),
{
    let f = forward_points(points);
    let v = inverse_points(points);
    lemma_views_wf(points);
    lemma_segments(f);
    lemma_segments(v);
    let n = points.len() as int;
    let sf = segments_of(f);
    let sv = segments_of(v);
    lemma_locate_table(f, x, MAX_OP_STRENGTH_SCORE as int);
    let k = locate_from(sf, 0, x);
    if k == n - 1 {
        assert(false);
    }
    let lf = sf[k].line;
    let d = x - points[k].zx.0;
    let run = points[k + 1].zx.0 - points[k].zx.0;
    let rise = points[k + 1].op.0 - points[k].op.0;
    assert(v[k].x < v[k + 1].x);
    lemma_line_between(lf, x);
    lemma_round_trip_error(run, rise, d);
    let y = lf.at(x);
    assert(y == points[k].op.0 + (rise * d) / run);
    assert(points[k].op.0 <= y <= points[k + 1].op.0);
    assert(curve_value(sf, x, MAX_OP_STRENGTH_SCORE as int) == y);
    assert(to_op_spec(points, x) == Ok::<OpScore, CurveError>(OpScore(y as i64)));
    let q = y - points[k].op.0;
    let e = (run * q) / rise;
    lemma_locate_table(v, y, MAX_ZX_SCORE as int);
    let j = locate_from(sv, 0, y);
    let g = curve_value(sv, y, MAX_ZX_SCORE as int);
    if q > 0 {
        if j > k {
            assert(v[k + 1].x <= v[j].x);
            assert(false);
        }
        if j < k {
            assert(v[j + 1].x <= v[k].x);
            assert(false);
        }
        assert(g == sv[k].line.at(y));
        assert(g == points[k].zx.0 + e);
    } else {
        assert(q == 0);
        assert(run * q == 0) by (nonlinear_arith)
            requires
                q == 0,
        ;
        assert(e == 0);
        if k == 0 {
            if j > 0 {
                assert(v[0].x < v[j].x);
                assert(false);
            }
            assert(g == sv[0].line.at(v[0].x as int));
        } else {
            if j >= k {
                assert(v[k].x <= v[j].x);
                assert(false);
            }
            if j < k - 1 {
                assert(v[j + 1].x < v[k].x);
                assert(false);
            }
            assert(g == sv[k - 1].line.at(v[k].x as int));
        }
        assert(g == points[k].zx.0 + e);
    }
    assert(points[k].wf() && points[k + 1].wf());
    assert(to_zx_spec(points, y) == Ok::<ZxScore, CurveError>(ZxScore(g as i64)));
    assert forall|k2: int|
        1 <= k2 < points.len() && points[k2 - 1].zx.0 < x <= #[trigger] points[k2].zx.0 implies (x
        - g - 1) * (points[k2].op.0 - points[k2 - 1].op.0) < points[k2].zx.0
        - points[k2 - 1].zx.0 by {
        if k2 < k + 1 {
            assert(f[k2].x <= f[k].x);
        }
        if k2 > k + 1 {
            assert(f[k + 1].x <= f[k2 - 1].x);
        }
    }
}

/// Where a table defines a curve, its value at any non-negative query fits
/// an `i64`, extrapolation below the first point included.
pub proof fn lemma_fits_i64(pts: Seq<GenericPoint>, x: int, saturation: int)
    requires
        table_error(pts) is None,
        points_wf(pts),
        i64::MIN <= saturation <= i64::MAX,
        0 <= x,
    ensures
        i64::MIN <= curve_value(segments_of(pts), x, saturation) <= i64::MAX,
{
    lemma_segments(pts);
    lemma_locate_table(pts, x, saturation);
    let segs = segments_of(pts);
    let k = locate_from(segs, 0, x);
    if k < pts.len() - 1 {
        let l = segs[k].line;
        assert(pts[k].wf() && pts[k + 1].wf());
        if pts[k].x <= x {
            lemma_line_between(l, x);
        } else {
            assert(k == 0);
            let n = l.rise * (x - l.x0);
            assert(-8_000_000_000_000_000_000 <= n <= 8_000_000_000_000_000_000) by (nonlinear_arith)
                requires
                    n == l.rise * (x - l.x0),
                    -4_000_000_000 <= l.rise <= 4_000_000_000,
                    -2_000_000_000 <= x - l.x0 <= 0,
            ;
            lemma_div_bounded(n, l.run as int);
        }
    }
}

/// Converting a guess score to bits and back gives the same guess score:
/// both directions round to nearest, and a bit is less than a decimal digit.
pub proof fn lemma_bits_round_trip(zx: int)
    ensures
        zx_of_bits(bits_of(zx)) == zx,
{
    let num = LOG2_10_NUM as int;
    let den = LOG2_10_DEN as int;
    let n1 = 2 * zx * num + den;
    let b = n1 / (2 * den);
    vstd::arithmetic::div_mod::lemma_fundamental_div_mod(n1, 2 * den);
    vstd::arithmetic::div_mod::lemma_mod_division_less_than_divisor(n1, 2 * den);
    let r1 = n1 % (2 * den);
    let n2 = 2 * b * den + num;
    let z2 = n2 / (2 * num);
    vstd::arithmetic::div_mod::lemma_fundamental_div_mod(n2, 2 * num);
    vstd::arithmetic::div_mod::lemma_mod_division_less_than_divisor(n2, 2 * num);
    let r2 = n2 % (2 * num);
    assert(z2 == zx) by (nonlinear_arith)
        requires
            n1 == 2 * zx * num + den,
            n1 == (2 * den) * b + r1,
            0 <= r1 < 2 * den,
            n2 == 2 * b * den + num,
            n2 == (2 * num) * z2 + r2,
            0 <= r2 < 2 * num,
            num == 3_321_928_094_887,
            den == 1_000_000_000_000,
    ;
}

} // verus!
