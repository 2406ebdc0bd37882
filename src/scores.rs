use vstd::prelude::*;

use crate::error::CurveError;
use crate::line::{floor_div, GenericPoint, Line, SEGMENT_TOLERANCE_PPM};
use crate::tolerance::{abs_int, approx_eq_ratio_spec};
use crate::piecewise::{connected_lines_at, connected_spec, fault_from, points_wf, table_error};
use crate::{in_range, SCALE};

verus! {

/// Strength score returned past the last calibration point: the top of the
/// 1 to 100 scale.
pub const MAX_OP_STRENGTH_SCORE: i64 = 100 * SCALE;

/// Guess score returned by the inverse past the top of the strength scale;
/// it corresponds to roughly 128 bits.
pub const MAX_ZX_SCORE: i64 = 40 * SCALE;

/// Numerator and denominator of log2(10), the number of bits in one decimal
/// digit, to twelve places.
pub const LOG2_10_NUM: i64 = 3_321_928_094_887;

pub const LOG2_10_DEN: i64 = 1_000_000_000_000;

/// A guess score: the base-10 logarithm of the estimated number of guesses a
/// password takes, in millionths.
#[derive(Debug, Clone, Copy, PartialEq, Eq, Structural, PartialOrd)]
pub struct ZxScore(pub i64);

/// A strength score on the 1 to 100 scale, in millionths.
#[derive(Debug, Clone, Copy, PartialEq, Eq, Structural)]
pub struct OpScore(pub i64);

/// A calibration point: a guess score and the strength score it maps to.
#[derive(Debug, Clone, Copy, PartialEq, Eq, Structural)]
pub struct Point {
    pub zx: ZxScore,
    pub op: OpScore,
}

impl Point {
    pub open spec fn wf(self) -> bool {
        in_range(self.zx.0 as int) && in_range(self.op.0 as int)
    }

    /// The point with the guess score as input and the strength score as output.
    pub open spec fn forward(self) -> GenericPoint {
        GenericPoint { x: self.zx.0, y: self.op.0 }
    }

    /// The point with the axes swapped.
    pub open spec fn inverse(self) -> GenericPoint {
        GenericPoint { x: self.op.0, y: self.zx.0 }
    }
}

pub open spec fn table_wf(points: Seq<Point>) -> bool {
    forall|i: int| 0 <= i < points.len() ==> #[trigger] points[i].wf()
}

/// The table on plain axes, guess score first.
pub open spec fn forward_points(points: Seq<Point>) -> Seq<GenericPoint> {
    points.map_values(|p: Point| p.forward())
}

/// The table on plain axes, strength score first.
pub open spec fn inverse_points(points: Seq<Point>) -> Seq<GenericPoint> {
    points.map_values(|p: Point| p.inverse())
}

/// What `ZxScore::to_op_score` returns for the guess score `zx`.
pub open spec fn to_op_spec(points: Seq<Point>, zx: int) -> Result<OpScore, CurveError> {
    if zx < 0 {
        Err(CurveError::OutOfDomain)
    } else {
        match connected_spec(forward_points(points), zx, MAX_OP_STRENGTH_SCORE as int) {
            Ok(v) => Ok(OpScore(v as i64)),
            Err(e) => Err(e),
        }
    }
}

/// What `OpScore::to_zx_score` returns for the strength score `op`.
pub open spec fn to_zx_spec(points: Seq<Point>, op: int) -> Result<ZxScore, CurveError> {
    if op < 0 || op > MAX_OP_STRENGTH_SCORE {
        Err(CurveError::OutOfDomain)
    } else {
        match connected_spec(inverse_points(points), op, MAX_ZX_SCORE as int) {
            Ok(v) => Ok(ZxScore(v as i64)),
            Err(e) => Err(e),
        }
    }
}

/// The guess score in bits, rounded to nearest (halves up).
pub open spec fn bits_of(zx: int) -> int {
    (2 * zx * LOG2_10_NUM + LOG2_10_DEN) / (2 * LOG2_10_DEN)
}

/// The guess score of a number of bits, rounded to nearest (halves up).
pub open spec fn zx_of_bits(bits: int) -> int {
    (2 * bits * LOG2_10_DEN + LOG2_10_NUM) / (2 * LOG2_10_NUM)
}

impl ZxScore {
    pub fn value(&self) -> (r: i64)
        ensures
            r == self.0,
    {
        self.0
    }

    /// The difference of two guess scores.
    pub fn sub(self, other: ZxScore) -> (r: ZxScore)
        requires
            in_range(self.0 as int),
            in_range(other.0 as int),
        ensures
            r.0 == self.0 - other.0,
    {
        ZxScore(self.0 - other.0)
    }

    /// The ratio of two guess scores, as a fixed-point number; the quotient
    /// is Euclidean, so it rounds down for a positive divisor.
    pub fn div(self, other: ZxScore) -> (r: ZxScore)
        requires
            in_range(self.0 as int),
            other.0 != 0,
        ensures
            r.0 == (self.0 * SCALE) / (other.0 as int),
    {
        let n: i128 = self.0 as i128 * SCALE as i128;
        let d: i128 = other.0 as i128;
        proof {
            lemma_euclid_div_bounded(n as int, d as int);
        }
        match n.checked_div_euclid(d) {
            Some(q) => ZxScore(q as i64),
            // the quotient is no larger than `n` in magnitude, so it fits
            None => ZxScore(0),
        }
    }

    /// The score in bits (millionths of a bit), rounded to nearest: guesses
    /// are powers of ten, bits powers of two. A rough estimate stays rough in
    /// bits.
    pub fn to_bits(&self) -> (r: i64)
        requires
            in_range(self.0 as int),
        ensures
            r == bits_of(self.0 as int),
    {
        proof {
            lemma_to_bits_fits(self.0 as int);
        }
        let n: i128 = 2 * (self.0 as i128) * (LOG2_10_NUM as i128) + LOG2_10_DEN as i128;
        let q: i128 = floor_div(n, 2 * LOG2_10_DEN as i128);
        q as i64
    }

    /// The guess score of a number of bits (millionths of a bit), rounded to
    /// nearest. It undoes `to_bits` exactly.
    pub fn from_bits(bits: i64) -> (r: ZxScore)
        ensures
            r.0 == zx_of_bits(bits as int),
    {
        proof {
            lemma_from_bits_fits(bits as int);
        }
        let n: i128 = 2 * (bits as i128) * (LOG2_10_DEN as i128) + LOG2_10_NUM as i128;
        let q: i128 = floor_div(n, 2 * LOG2_10_NUM as i128);
        ZxScore(q as i64)
    }

    /// Maps this guess score to a strength score on the curve that `points`
    /// define, saturating at `MAX_OP_STRENGTH_SCORE` past the last point.
    /// A negative guess score is out of the domain.
    pub fn to_op_score(&self, points: &[Point]) -> (r: Result<OpScore, CurveError>)
        requires
            table_wf(points@),
        ensures
            r == to_op_spec(points@, self.0 as int),
            self.0 < 0 ==> r == Err::<OpScore, CurveError>(CurveError::OutOfDomain),
            r is Err <==> (self.0 < 0 || table_error(forward_points(points@)) is Some),
    {
        let zx = self.value();
        if zx < 0 {
            return Err(CurveError::OutOfDomain);
        }
        let g_pts = forward_table(points);
        let ret = connected_lines_at(g_pts.as_slice(), zx, MAX_OP_STRENGTH_SCORE)?;
        proof {
            crate::laws::lemma_fits_i64(g_pts@, zx as int, MAX_OP_STRENGTH_SCORE as int);
        }
        Ok(OpScore(ret as i64))
    }
}

impl OpScore {
    pub fn value(&self) -> (r: i64)
        ensures
            r == self.0,
    {
        self.0
    }

    /// The difference of two strength scores.
    pub fn sub(self, other: OpScore) -> (r: OpScore)
        requires
            in_range(self.0 as int),
            in_range(other.0 as int),
        ensures
            r.0 == self.0 - other.0,
    {
        OpScore(self.0 - other.0)
    }

    /// Maps this strength score back to a guess score, on the curve that
    /// `points` define with the axes swapped, saturating at `MAX_ZX_SCORE`.
    /// A strength score outside 0 to 100 is out of the domain. The table's
    /// strength scores must ascend for the swapped table to be valid.
    pub fn to_zx_score(&self, points: &[Point]) -> (r: Result<ZxScore, CurveError>)
        requires
            table_wf(points@),
        ensures
            r == to_zx_spec(points@, self.0 as int),
            r is Err <==> (self.0 < 0 || self.0 > MAX_OP_STRENGTH_SCORE || table_error(
                inverse_points(points@),
            ) is Some),
    {
        let op = self.value();
        if op < 0 || op > MAX_OP_STRENGTH_SCORE {
            return Err(CurveError::OutOfDomain);
        }
        let generic_points = inverse_table(points);
        let ret = connected_lines_at(generic_points.as_slice(), op, MAX_ZX_SCORE)?;
        proof {
            crate::laws::lemma_fits_i64(generic_points@, op as int, MAX_ZX_SCORE as int);
        }
        Ok(ZxScore(ret as i64))
    }
}

/// Euclidean division by a non-zero number grows a magnitude by at most one.
proof fn lemma_euclid_div_bounded(n: int, d: int)
    requires
        d != 0,
        -4_000_000_000_000_000 <= n <= 4_000_000_000_000_000,
    ensures
        -4_000_000_000_000_001 <= n / d <= 4_000_000_000_000_001,
{
    let q = n / d;
    let r = n % d;
    vstd::arithmetic::div_mod::lemma_fundamental_div_mod(n, d);
    assert(0 <= r < abs_int(d));
    if d > 0 {
        crate::line::lemma_div_bounded(n, d);
    } else {
        assert(-4_000_000_000_000_001 <= q <= 4_000_000_000_000_001) by (nonlinear_arith)
            requires
                n == d * q + r,
                0 <= r < -d,
                d <= -1,
                -4_000_000_000_000_000 <= n <= 4_000_000_000_000_000,
        ;
    }
}

/// A guess score in range, scaled to bits, stays within `i64`.
proof fn lemma_to_bits_fits(v: int)
    requires
        in_range(v),
    ensures
        -0x100_0000_0000_0000_0000_0000_0000_0000 <= 2 * v * LOG2_10_NUM + LOG2_10_DEN
            <= 0x100_0000_0000_0000_0000_0000_0000_0000,
        i64::MIN <= bits_of(v) <= i64::MAX,
{
    let n = 2 * v * LOG2_10_NUM + LOG2_10_DEN;
    let d = 2 * LOG2_10_DEN;
    let top: int = 7_000_000_000;
    assert(-d * top <= n <= d * top) by (nonlinear_arith)
        requires
            -2_000_000_000 <= v <= 2_000_000_000,
            n == 2 * v * 3_321_928_094_887 + 1_000_000_000_000,
            d == 2_000_000_000_000,
            top == 7_000_000_000,
    ;
    vstd::arithmetic::div_mod::lemma_div_multiples_vanish(top, d);
    vstd::arithmetic::div_mod::lemma_div_multiples_vanish(-top, d);
    vstd::arithmetic::div_mod::lemma_div_is_ordered(-d * top, n, d);
    vstd::arithmetic::div_mod::lemma_div_is_ordered(n, d * top, d);
    assert(d * -top == -d * top);
}

/// Any number of bits, scaled to a guess score, stays within `i64`.
proof fn lemma_from_bits_fits(v: int)
    requires
        i64::MIN <= v <= i64::MAX,
    ensures
        -0x100_0000_0000_0000_0000_0000_0000_0000 <= 2 * v * LOG2_10_DEN + LOG2_10_NUM
            <= 0x100_0000_0000_0000_0000_0000_0000_0000,
        i64::MIN <= zx_of_bits(v) <= i64::MAX,
{
    let n = 2 * v * LOG2_10_DEN + LOG2_10_NUM;
    let d = 2 * LOG2_10_NUM;
    let lo = i64::MIN as int;
    let hi = i64::MAX as int;
    assert(d * lo <= n <= d * hi) by (nonlinear_arith)
        requires
            lo <= v <= hi,
            lo == -9_223_372_036_854_775_808,
            hi == 9_223_372_036_854_775_807,
            n == 2 * v * 1_000_000_000_000 + 3_321_928_094_887,
            d == 2 * 3_321_928_094_887,
    ;
    vstd::arithmetic::div_mod::lemma_div_multiples_vanish(hi, d);
    vstd::arithmetic::div_mod::lemma_div_multiples_vanish(lo, d);
    vstd::arithmetic::div_mod::lemma_div_is_ordered(d * lo, n, d);
    vstd::arithmetic::div_mod::lemma_div_is_ordered(n, d * hi, d);
}

/// The table on plain axes, guess score first.
fn forward_table(points: &[Point]) -> (r: Vec<GenericPoint>)
    requires
        table_wf(points@),
    ensures
        r@ == forward_points(points@),
        points_wf(r@),
{
    let mut r: Vec<GenericPoint> = Vec::new();
    let mut i: usize = 0;
    while i < points.len()
        invariant
            table_wf(points@),
            i <= points.len(),
            r@ == forward_points(points@.take(i as int)),
            points_wf(r@),
        decreases points.len() - i,
    {
        let p = points[i];
        assert(points@[i as int].wf());
        r.push(GenericPoint { x: p.zx.0, y: p.op.0 });
        assert(points@.take(i + 1) =~= points@.take(i as int).push(p));
        assert(forward_points(points@.take(i + 1)) =~= forward_points(points@.take(i as int)).push(
            p.forward(),
        ));
        i = i + 1;
    }
    assert(points@.take(i as int) =~= points@);
    r
}

/// The table on plain axes, strength score first.
fn inverse_table(points: &[Point]) -> (r: Vec<GenericPoint>)
    requires
        table_wf(points@),
    ensures
        r@ == inverse_points(points@),
        points_wf(r@),
{
    let mut r: Vec<GenericPoint> = Vec::new();
    let mut i: usize = 0;
    while i < points.len()
        invariant
            table_wf(points@),
            i <= points.len(),
            r@ == inverse_points(points@.take(i as int)),
            points_wf(r@),
        decreases points.len() - i,
    {
        let p = points[i];
        assert(points@[i as int].wf());
        r.push(GenericPoint { x: p.op.0, y: p.zx.0 });
        assert(points@.take(i + 1) =~= points@.take(i as int).push(p));
        assert(inverse_points(points@.take(i + 1)) =~= inverse_points(points@.take(i as int)).push(
            p.inverse(),
        ));
        i = i + 1;
    }
    assert(points@.take(i as int) =~= points@);
    r
}

/// The calibration table of the strength scale, found by comparing the two
/// scores over a sample of passwords.
pub open spec fn control_table() -> Seq<Point> {
    seq![
        Point { zx: ZxScore(0), op: OpScore(1_000_000) },
        Point { zx: ZxScore(4_000_000), op: OpScore(8_000_000) },
        Point { zx: ZxScore(8_500_000), op: OpScore(45_000_000) },
        Point { zx: ZxScore(13_000_000), op: OpScore(57_000_000) },
        Point { zx: ZxScore(16_500_000), op: OpScore(73_000_000) },
        Point { zx: ZxScore(19_250_000), op: OpScore(85_000_000) },
        Point { zx: ZxScore(22_500_000), op: OpScore(100_000_000) },
    ]
}

/// The calibration table of the strength scale.
pub fn control_points() -> (r: Vec<Point>)
    ensures
        r@ == control_table(),
{
    let mut r: Vec<Point> = Vec::new();
    r.push(Point { zx: ZxScore(0), op: OpScore(1_000_000) });
    r.push(Point { zx: ZxScore(4_000_000), op: OpScore(8_000_000) });
    r.push(Point { zx: ZxScore(8_500_000), op: OpScore(45_000_000) });
    r.push(Point { zx: ZxScore(13_000_000), op: OpScore(57_000_000) });
    r.push(Point { zx: ZxScore(16_500_000), op: OpScore(73_000_000) });
    r.push(Point { zx: ZxScore(19_250_000), op: OpScore(85_000_000) });
    r.push(Point { zx: ZxScore(22_500_000), op: OpScore(100_000_000) });
    assert(r@ =~= control_table());
    r
}

/// The calibration table is valid in both directions.
proof fn lemma_control_table()
    ensures
        table_wf(control_table()),
        table_error(forward_points(control_table())) is None,
        table_error(inverse_points(control_table())) is None,
{
    let t = control_table();
    assert(forward_points(t) =~= seq![
        GenericPoint { x: 0, y: 1_000_000 },
        GenericPoint { x: 4_000_000, y: 8_000_000 },
        GenericPoint { x: 8_500_000, y: 45_000_000 },
        GenericPoint { x: 13_000_000, y: 57_000_000 },
        GenericPoint { x: 16_500_000, y: 73_000_000 },
        GenericPoint { x: 19_250_000, y: 85_000_000 },
        GenericPoint { x: 22_500_000, y: 100_000_000 },
    ]);
    assert(inverse_points(t) =~= seq![
        GenericPoint { x: 1_000_000, y: 0 },
        GenericPoint { x: 8_000_000, y: 4_000_000 },
        GenericPoint { x: 45_000_000, y: 8_500_000 },
        GenericPoint { x: 57_000_000, y: 13_000_000 },
        GenericPoint { x: 73_000_000, y: 16_500_000 },
        GenericPoint { x: 85_000_000, y: 19_250_000 },
        GenericPoint { x: 100_000_000, y: 22_500_000 },
    ]);
    reveal_with_fuel(fault_from, 8);
}

/// Converts a guess score (the base-10 logarithm of the guess count) to a
/// strength score on the calibrated 1 to 100 scale. Every non-negative guess
/// score has one.
pub fn convert_zxcvbn_guesses_log10_to_op_strength(log10_guesses: ZxScore) -> (r: Result<
    OpScore,
    CurveError,
>)
    ensures
        r == to_op_spec(control_table(), log10_guesses.0 as int),
        log10_guesses.0 >= 0 <==> r is Ok,
{
    proof {
        lemma_control_table();
    }
    let points = control_points();
    log10_guesses.to_op_score(points.as_slice())
}

impl GenericPoint {
    /// The point with the guess score as input and the strength score as output.
    pub fn new_from_point(p: &Point) -> (r: GenericPoint)
        ensures
            r == p.forward(),
    {
        GenericPoint { x: p.zx.0, y: p.op.0 }
    }
}

impl Point {
    /// The score point whose guess score is the input of `p`.
    pub fn new_from_generic_point(p: &GenericPoint) -> (r: Point)
        ensures
            r.forward() == *p,
    {
        Point { zx: ZxScore(p.x), op: OpScore(p.y) }
    }

    /// The line through two score points, from guess score to strength score,
    /// or `None` where their guess scores are equal within the tolerance.
    pub fn line_from_points(&self, other: &Point) -> (r: Option<Line>)
        requires
            self.wf(),
            other.wf(),
        ensures
            approx_eq_ratio_spec(self.zx.0 as int, other.zx.0 as int, SEGMENT_TOLERANCE_PPM as int)
                ==> r is None,
            !approx_eq_ratio_spec(self.zx.0 as int, other.zx.0 as int, SEGMENT_TOLERANCE_PPM as int)
                ==> r == Some(Line::through(self.forward(), other.forward())),
            r matches Some(l) ==> l.wf(),
    {
        let gp1 = GenericPoint::new_from_point(self);
        let gp2 = GenericPoint::new_from_point(other);
        gp1.line_from_points(&gp2)
    }
}

} // verus!
