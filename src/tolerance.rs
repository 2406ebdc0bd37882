use vstd::prelude::*;

verus! {

/// Denominator of a ratio given in parts per million.
pub const PPM: i64 = 1_000_000;

pub open spec fn abs_int(v: int) -> int {
    if v < 0 { -v } else { v }
}

/// `a` and `b` have the same sign, and the difference of their magnitudes is
/// less than `ratio_ppm` millionths of the larger magnitude. Zero is only close
/// to zero.
pub open spec fn approx_eq_ratio_spec(a: int, b: int, ratio_ppm: int) -> bool {
    if (a < 0 && b > 0) || (a > 0 && b < 0) {
        false
    } else if a == 0 || b == 0 {
        a == 0 && b == 0
    } else {
        let s = abs_int(a);
        let o = abs_int(b);
        let larger = if s < o { o } else { s };
        let smaller = if s < o { s } else { o };
        (larger - smaller) * PPM < ratio_ppm * larger
    }
}

/// Relative closeness test: see `approx_eq_ratio_spec`.
pub fn approx_eq_ratio(a: i64, b: i64, ratio_ppm: i64) -> (r: bool)
    ensures
        r == approx_eq_ratio_spec(a as int, b as int, ratio_ppm as int),
{
    if (a < 0 && b > 0) || (a > 0 && b < 0) {
        return false;
    }
    if a == 0 || b == 0 {
        return a == 0 && b == 0;
    }
    let s: i128 = if a < 0 { -(a as i128) } else { a as i128 };
    let o: i128 = if b < 0 { -(b as i128) } else { b as i128 };
    let larger: i128 = if s < o { o } else { s };
    let smaller: i128 = if s < o { s } else { o };
    let ratio: i128 = ratio_ppm as i128;
    let diff: i128 = larger - smaller;
    assert(0 <= diff * 1_000_000 <= 0x8000_0000_0000_0000 * 1_000_000) by (nonlinear_arith)
        requires
            0 <= diff <= 0x8000_0000_0000_0000,
    ;
    assert(-0x8000_0000_0000_0000 * 0x8000_0000_0000_0000 <= ratio * larger
        <= 0x8000_0000_0000_0000 * 0x8000_0000_0000_0000) by (nonlinear_arith)
        requires
            -0x8000_0000_0000_0000 <= ratio < 0x8000_0000_0000_0000,
            0 < larger <= 0x8000_0000_0000_0000,
    ;
    diff * (PPM as i128) < ratio * larger
}

} // verus!
