use float_cmp::ApproxEqRatio;
use zxcvbn_to_op::line::GenericPoint;
use zxcvbn_to_op::piecewise::{build_segments, connected_lines_at, evaluate_segments};
use zxcvbn_to_op::scores::{
    control_points, convert_zxcvbn_guesses_log10_to_op_strength, OpScore, Point, ZxScore,
    MAX_OP_STRENGTH_SCORE, MAX_ZX_SCORE,
};
use zxcvbn_to_op::{approx_eq_ratio, CurveError};

const UNIT: i64 = 1_000_000;

fn test_points() -> Vec<Point> {
    vec![
        Point { zx: ZxScore(0), op: OpScore(0) },
        Point { zx: ZxScore(40 * UNIT), op: OpScore(20 * UNIT) },
        Point { zx: ZxScore(60 * UNIT), op: OpScore(100 * UNIT) },
    ]
}

fn test_generic_points() -> Vec<GenericPoint> {
    test_points().iter().map(GenericPoint::new_from_point).collect()
}

fn units(v: i64) -> f32 {
    v as f32 / UNIT as f32
}

struct TestVector {
    zx: f32,
    expected: f32,
}

#[test]
fn test_interpolation() {
    let tests = &[
        TestVector { zx: 0.0, expected: 0.0 },
        TestVector { zx: 6.0, expected: 3.0 },
        TestVector { zx: 12.0, expected: 6.0 },
        TestVector { zx: 18.0, expected: 9.0 },
        TestVector { zx: 24.0, expected: 12.0 },
        TestVector { zx: 30.0, expected: 15.0 },
        TestVector { zx: 39.0, expected: 19.5 },
        TestVector { zx: 40.0, expected: 20.0 },
        TestVector { zx: 41.0, expected: 24.0 },
        TestVector { zx: 44.0, expected: 36.0 },
        TestVector { zx: 50.0, expected: 60.0 },
        TestVector { zx: 59.0, expected: 96.0 },
        TestVector { zx: 60.0, expected: 100.0 },
        TestVector { zx: 61.0, expected: units(MAX_OP_STRENGTH_SCORE) },
    ];
    let points = test_points();
    for t in tests {
        let z = ZxScore((t.zx * UNIT as f32) as i64);
        let op = z.to_op_score(&points).unwrap();
        assert!(
            units(op.value()).approx_eq_ratio(&t.expected, 0.01),
            "f({}) should be {}. Got {}",
            t.zx,
            t.expected,
            units(op.value())
        );
    }
}

#[test]
fn test_inverse() {
    let points = control_points();
    for i in 1..8 {
        let t = ZxScore(i * 2_500_000);
        let op = t.to_op_score(&points).unwrap();
        let zx = op.to_zx_score(&points).unwrap();
        assert!(
            units(t.value()).approx_eq_ratio(&units(zx.value()), 0.0001),
            "t ({}) != zx ({})",
            units(t.value()),
            units(op.value())
        );
    }
}

#[test]
fn scenario_values_exact() {
    let pts = test_generic_points();
    let sat = 100 * UNIT;
    let cases: [(i64, i64); 7] = [
        (0, 0),
        (6 * UNIT, 3 * UNIT),
        (40 * UNIT, 20 * UNIT),
        (39 * UNIT, 19_500_000),
        (41 * UNIT, 24 * UNIT),
        (60 * UNIT, 100 * UNIT),
        (61 * UNIT, sat),
    ];
    for (x, y) in cases {
        assert_eq!(connected_lines_at(&pts, x, sat), Ok(y as i128));
    }
}

#[test]
fn saturation_value_is_returned_unchanged() {
    let pts = test_generic_points();
    assert_eq!(connected_lines_at(&pts, 61 * UNIT, 77 * UNIT), Ok(77 * UNIT as i128));
    assert_eq!(connected_lines_at(&pts, 60 * UNIT, 77 * UNIT), Ok(100 * UNIT as i128));
    assert_eq!(connected_lines_at(&pts, i64::MAX, 5), Ok(5));
}

#[test]
fn exact_at_every_control_knot() {
    let points = control_points();
    for p in &points {
        assert_eq!(p.zx.to_op_score(&points), Ok(p.op));
        assert_eq!(p.op.to_zx_score(&points), Ok(p.zx));
    }
}

#[test]
fn forward_is_monotone_on_control_table() {
    let points = control_points();
    let mut last = i64::MIN;
    let mut zx: i64 = 0;
    while zx <= 30 * UNIT {
        let op = ZxScore(zx).to_op_score(&points).unwrap().value();
        assert!(op >= last, "f({}) = {} fell below {}", zx, op, last);
        last = op;
        zx += 12_345;
    }
}

#[test]
fn clamps_above_last_point() {
    let points = control_points();
    for zx in [22_500_001, 23 * UNIT, 120 * UNIT, i64::MAX] {
        assert_eq!(ZxScore(zx).to_op_score(&points), Ok(OpScore(MAX_OP_STRENGTH_SCORE)));
    }
}

#[test]
fn negative_guess_score_is_out_of_domain() {
    let points = control_points();
    assert_eq!(ZxScore(-1).to_op_score(&points), Err(CurveError::OutOfDomain));
    assert_eq!(ZxScore(i64::MIN).to_op_score(&points), Err(CurveError::OutOfDomain));
    assert_eq!(ZxScore(-1).to_op_score(&[]), Err(CurveError::OutOfDomain));
    assert_eq!(
        convert_zxcvbn_guesses_log10_to_op_strength(ZxScore(-5 * UNIT)),
        Err(CurveError::OutOfDomain)
    );
}

#[test]
fn strength_outside_scale_is_out_of_domain() {
    let points = control_points();
    assert_eq!(OpScore(-1).to_zx_score(&points), Err(CurveError::OutOfDomain));
    assert_eq!(OpScore(100 * UNIT + 1).to_zx_score(&points), Err(CurveError::OutOfDomain));
    assert_eq!(OpScore(100 * UNIT).to_zx_score(&points), Ok(ZxScore(22_500_000)));
}

#[test]
fn inverse_below_first_output_extrapolates_and_top_is_exact() {
    let points = control_points();
    // strength 0 lies below the first calibrated strength of 1
    let zx = OpScore(0).to_zx_score(&points).unwrap();
    assert_eq!(zx, ZxScore(-571_429));
    assert!(MAX_ZX_SCORE > 22_500_000);
}

#[test]
fn near_inverse_within_a_unit() {
    let points = control_points();
    let mut x: i64 = 1;
    while x < 22_500_000 {
        let op = ZxScore(x).to_op_score(&points).unwrap();
        let back = op.to_zx_score(&points).unwrap().value();
        assert!(back <= x && x - back <= 1, "x {} came back as {}", x, back);
        x += 7_919;
    }
}

#[test]
fn too_few_points() {
    let one = vec![GenericPoint { x: 0, y: 0 }];
    let none: Vec<GenericPoint> = Vec::new();
    assert_eq!(build_segments(&one), Err(CurveError::InsufficientPoints));
    assert_eq!(build_segments(&none), Err(CurveError::InsufficientPoints));
    assert_eq!(connected_lines_at(&one, 0, 1), Err(CurveError::InsufficientPoints));
    assert_eq!(connected_lines_at(&none, 0, 1), Err(CurveError::InsufficientPoints));
    let one_point = vec![Point { zx: ZxScore(0), op: OpScore(0) }];
    assert_eq!(ZxScore(0).to_op_score(&one_point), Err(CurveError::InsufficientPoints));
    assert_eq!(OpScore(0).to_zx_score(&one_point), Err(CurveError::InsufficientPoints));
}

#[test]
fn unordered_points_are_rejected() {
    let descending = vec![
        GenericPoint { x: 0, y: 0 },
        GenericPoint { x: 10 * UNIT, y: 5 },
        GenericPoint { x: 5 * UNIT, y: 8 },
    ];
    assert_eq!(build_segments(&descending), Err(CurveError::UnorderedPoints));
    let repeated = vec![GenericPoint { x: 3, y: 0 }, GenericPoint { x: 3, y: 1 }];
    assert_eq!(build_segments(&repeated), Err(CurveError::UnorderedPoints));
    assert_eq!(connected_lines_at(&repeated, 0, 0), Err(CurveError::UnorderedPoints));
}

#[test]
fn near_duplicate_inputs_are_degenerate() {
    let close = vec![
        GenericPoint { x: 1_000 * UNIT, y: 0 },
        GenericPoint { x: 1_000 * UNIT + 500_000, y: UNIT },
    ];
    assert_eq!(build_segments(&close), Err(CurveError::DegenerateSegment));
    let far_enough = vec![
        GenericPoint { x: 1_000 * UNIT, y: 0 },
        GenericPoint { x: 1_002 * UNIT, y: UNIT },
    ];
    assert_eq!(build_segments(&far_enough).map(|s| s.len()), Ok(1));
    // the first bad pair decides
    let both = vec![
        GenericPoint { x: 1_000 * UNIT, y: 0 },
        GenericPoint { x: 1_000 * UNIT + 1, y: 0 },
        GenericPoint { x: 0, y: 0 },
    ];
    assert_eq!(build_segments(&both), Err(CurveError::DegenerateSegment));
}

#[test]
fn steep_extrapolation_is_exact() {
    let steep = vec![
        GenericPoint { x: UNIT, y: -2_000_000_000 },
        GenericPoint { x: 2 * UNIT, y: 2_000_000_000 },
    ];
    assert_eq!(connected_lines_at(&steep, 0, 0), Ok(-6_000_000_000));
    assert_eq!(connected_lines_at(&steep, UNIT, 0), Ok(-2_000_000_000));
    let far = -2_000_000_000i128
        + (4_000_000_000i128 * (i64::MIN as i128 - UNIT as i128)).div_euclid(UNIT as i128);
    assert_eq!(connected_lines_at(&steep, i64::MIN, 0), Ok(far));
    assert!(far < i64::MIN as i128);
}

#[test]
fn valid_table_with_late_start_never_fails() {
    // the first calibration input lies above zero, so small queries extrapolate
    let points = vec![
        Point { zx: ZxScore(2_000_000_000), op: OpScore(-2_000_000_000) },
        Point { zx: ZxScore(2_000_000_000), op: OpScore(2_000_000_000) },
    ];
    assert_eq!(ZxScore(0).to_op_score(&points), Err(CurveError::UnorderedPoints));
    let points = vec![
        Point { zx: ZxScore(1_999_999_999), op: OpScore(-2_000_000_000) },
        Point { zx: ZxScore(2_000_000_000), op: OpScore(2_000_000_000) },
    ];
    // inputs this close are equal within the tolerance
    assert_eq!(ZxScore(0).to_op_score(&points), Err(CurveError::DegenerateSegment));
    let points = vec![
        Point { zx: ZxScore(1_000_000_000), op: OpScore(-2_000_000_000) },
        Point { zx: ZxScore(2_000_000_000), op: OpScore(2_000_000_000) },
    ];
    assert_eq!(ZxScore(0).to_op_score(&points), Ok(OpScore(-6_000_000_000)));
}

#[test]
fn segments_evaluate_like_the_table() {
    let pts = test_generic_points();
    let segs = build_segments(&pts).unwrap();
    assert_eq!(segs.len(), 2);
    assert_eq!(segs[0].upper, 40 * UNIT);
    assert_eq!(segs[1].upper, 60 * UNIT);
    assert_eq!(segs[1].line.run, 20 * UNIT);
    assert_eq!(segs[1].line.rise, 80 * UNIT);
    assert_eq!(evaluate_segments(&segs, 50 * UNIT, 0), 60 * UNIT as i128);
    assert_eq!(evaluate_segments(&segs, 70 * UNIT, 9), 9);
    assert_eq!(evaluate_segments(&[], 70, 9), 9);
    // rounding goes down, also below zero
    assert_eq!(evaluate_segments(&segs, 1, 0), 0);
    assert_eq!(evaluate_segments(&segs, -1, 0), -1);
}

#[test]
fn line_through_two_points() {
    let a = Point { zx: ZxScore(0), op: OpScore(0) };
    let b = Point { zx: ZxScore(40 * UNIT), op: OpScore(20 * UNIT) };
    let l = a.line_from_points(&b).unwrap();
    assert_eq!(l.value_at(6 * UNIT), 3 * UNIT as i128);
    assert_eq!(b.line_from_points(&a), Some(l));
    let ga = GenericPoint::new_from_point(&a);
    assert_eq!(Point::new_from_generic_point(&ga), a);
    let c = Point { zx: ZxScore(40 * UNIT + 1), op: OpScore(0) };
    assert_eq!(b.line_from_points(&c), None);
}

#[test]
fn control_conversion_values() {
    assert_eq!(convert_zxcvbn_guesses_log10_to_op_strength(ZxScore(0)), Ok(OpScore(UNIT)));
    assert_eq!(
        convert_zxcvbn_guesses_log10_to_op_strength(ZxScore(2 * UNIT)),
        Ok(OpScore(4_500_000))
    );
    assert_eq!(
        convert_zxcvbn_guesses_log10_to_op_strength(ZxScore(120 * UNIT)),
        Ok(OpScore(100 * UNIT))
    );
    assert_eq!(control_points().len(), 7);
}

#[test]
fn bits_conversion() {
    assert_eq!(ZxScore(UNIT).to_bits(), 3_321_928);
    assert_eq!(ZxScore(-UNIT).to_bits(), -3_321_928);
    assert_eq!(ZxScore(100_000).to_bits(), 332_193);
    assert_eq!(ZxScore::from_bits(UNIT), ZxScore(301_030));
    assert_eq!(ZxScore::from_bits(3_321_928), ZxScore(UNIT));
    assert_eq!(ZxScore::from_bits(332_193), ZxScore(100_000));
    assert_eq!(ZxScore(0).to_bits(), 0);
}

#[test]
fn bits_round_trip_is_exact() {
    let mut z: i64 = -2_000_000_000;
    while z <= 2_000_000_000 {
        assert_eq!(ZxScore::from_bits(ZxScore(z).to_bits()), ZxScore(z));
        z += 999_983;
    }
    for z in [1, 2, 3, 99_999, 100_000, 100_001] {
        assert_eq!(ZxScore::from_bits(ZxScore(z).to_bits()), ZxScore(z));
    }
}

#[test]
fn score_arithmetic() {
    assert_eq!(ZxScore(5 * UNIT).sub(ZxScore(2 * UNIT)), ZxScore(3 * UNIT));
    assert_eq!(OpScore(2 * UNIT).sub(OpScore(5 * UNIT)), OpScore(-3 * UNIT));
    assert_eq!(ZxScore(UNIT).div(ZxScore(4 * UNIT)), ZxScore(250_000));
    assert_eq!(ZxScore(-UNIT).div(ZxScore(3 * UNIT)), ZxScore(-333_334));
    assert_eq!(ZxScore(UNIT).div(ZxScore(-3 * UNIT)), ZxScore(-333_333));
    assert!(ZxScore(UNIT) < ZxScore(2 * UNIT));
}

#[test]
fn relative_tolerance() {
    assert!(approx_eq_ratio(0, 0, 1_000));
    assert!(!approx_eq_ratio(0, 1, 1_000));
    assert!(!approx_eq_ratio(-5, 5, 1_000));
    assert!(approx_eq_ratio(1_000_000, 1_000_999, 1_000));
    assert!(!approx_eq_ratio(1_000_000, 1_002_000, 1_000));
    assert!(approx_eq_ratio(-1_000_000, -1_000_500, 1_000));
    assert!(approx_eq_ratio(i64::MIN, i64::MIN, 1));
}
