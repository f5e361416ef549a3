use diff_summary::binary64::Binary64;
use float_cmp::Ulps;
use diff_summary::diff::{cyclic_range, diff_abs, diff_cyclic, diff_lesser, diff_rel, diff_ulps, is_diff_worse, CyclicTerms};

fn b(x: f64) -> Binary64 {
    Binary64::from_bits(x.to_bits())
}

fn f(v: Binary64) -> f64 {
    f64::from_bits(v.to_bits())
}

fn abs(x: f64, y: f64) -> (f64, bool) {
    let r = diff_abs(b(x), b(y), b(x - y));
    (f(r.0), r.1)
}

fn rel(x: f64, y: f64) -> (f64, bool) {
    let a = diff_abs(b(x), b(y), b(x - y));
    let scaled = f(a.0) * (2.0 / (x.abs() + y.abs()));
    let r = diff_rel(a, b(scaled));
    (f(r.0), r.1)
}

fn lesser(x: f64, y: f64) -> (f64, bool) {
    let a = diff_abs(b(x), b(y), b(x - y));
    let sum_abs = x.abs() + y.abs();
    let scaled = f(a.0) * (2.0 / sum_abs);
    let r = diff_lesser(a, b(sum_abs), b(scaled));
    (f(r.0), r.1)
}

fn ulps(x: f64, y: f64) -> (f64, bool) {
    let r = diff_ulps(b(x), b(y));
    (f(r.0), r.1)
}

fn reduce_into(v: f64, range_min: f64, range_max: f64) -> f64 {
    let span = range_max - range_min;
    let m = v % span;
    f(cyclic_range(b(m), b(range_min), b(range_max), b(m + span), b(m - span)))
}

fn cyclic(x: f64, y: f64, range_min: f64, range_max: f64) -> (f64, bool) {
    let xmod = reduce_into(x, range_min, range_max);
    let ymod = reduce_into(y, range_min, range_max);
    let x_up = xmod + range_max - range_min;
    let y_up = ymod + range_max - range_min;
    let t = CyclicTerms {
        xmod: b(xmod),
        ymod: b(ymod),
        direct: b(xmod - ymod),
        x_up: b(x_up),
        x_up_delta: b(x_up - ymod),
        y_up: b(y_up),
        y_up_delta: b(xmod - y_up),
    };
    let r = diff_cyclic(b(x), b(y), b(range_min), b(range_max), t);
    (f(r.0), r.1)
}

#[test]
fn test_abs() {
    assert_eq!(abs(0.0, 0.5), (0.5, false));
    assert_eq!(abs(10.0, 10.5), (0.5, false));
    assert_eq!(abs(-0.25, 0.25), (0.5, true));
    assert_eq!(abs(0.0, 0.0), (0.0, false));
    assert_eq!(abs(-0.0, 0.0), (0.0, true));
    assert_eq!(abs(f64::NAN, f64::NAN), (0.0, false));
    assert_eq!(abs(f64::NAN, -f64::NAN), (0.0, true));
    let diff = abs(f64::INFINITY, f64::NAN);
    assert!(diff.0.is_nan() && !diff.1);
    assert_eq!(abs(f64::INFINITY, f64::INFINITY), (0.0, false));
    assert_eq!(abs(f64::INFINITY, f64::NEG_INFINITY), (f64::INFINITY, true));
}

#[test]
fn test_cyclic() {
    assert_eq!(cyclic(0.0, 0.5, -180.0, 180.0), (0.5, false));
    assert_eq!(cyclic(10.0, 10.5, -180.0, 180.0), (0.5, false));
    assert_eq!(cyclic(-0.25, 0.25, -180.0, 180.0), (0.5, true));
    assert_eq!(cyclic(0.0, 0.0, -180.0, 180.0), (0.0, false));
    assert_eq!(cyclic(-0.0, 0.0, -180.0, 180.0), (0.0, true));
    assert_eq!(cyclic(f64::NAN, f64::NAN, -180.0, 180.0), (0.0, true));
    assert_eq!(cyclic(f64::NAN, -f64::NAN, -180.0, 180.0), (0.0, true));
    let diff = cyclic(f64::INFINITY, f64::NAN, -180.0, 180.0);
    assert!(diff.0.is_nan() && diff.1);
    let diff = cyclic(f64::INFINITY, f64::INFINITY, -180.0, 180.0);
    assert!(diff.0.is_nan() && diff.1);
    let diff = cyclic(f64::INFINITY, f64::NEG_INFINITY, -180.0, 180.0);
    assert!(diff.0.is_nan() && diff.1);
    assert_eq!(cyclic(-180.0, 180.0, -180.0, 180.0), (0.0, true));
    assert_eq!(cyclic(-179.0, 179.0, -180.0, 180.0), (2.0, true));
    assert_eq!(cyclic(-179.0, -179.0, -180.0, 180.0), (0.0, false));
    assert_eq!(cyclic(181.0, 181.0, -180.0, 180.0), (0.0, true));
    assert_eq!(cyclic(0.0, 721.0, -180.0, 180.0), (1.0, true));
}

#[test]
fn test_lesser() {
    assert_eq!(lesser(0.0, 0.5), (0.5, false));
    assert_eq!(lesser(10.0, 10.5), (1.0 / 20.5, false));
    assert_eq!(lesser(-0.25, 0.25), (0.5, true));
    assert_eq!(lesser(0.0, 0.0), (0.0, false));
    assert_eq!(lesser(-0.0, 0.0), (0.0, true));
    assert_eq!(lesser(f64::NAN, f64::NAN), (0.0, false));
    assert_eq!(lesser(f64::NAN, -f64::NAN), (0.0, true));
    let diff = lesser(f64::INFINITY, f64::NAN);
    assert!(diff.0.is_nan() && !diff.1);
    assert_eq!(lesser(f64::INFINITY, f64::INFINITY), (0.0, false));
    assert_eq!(lesser(f64::INFINITY, f64::NEG_INFINITY), (f64::INFINITY, true));
}

#[test]
fn test_rel() {
    assert_eq!(rel(0.0, 0.5), (2.0, false));
    assert_eq!(rel(10.0, 10.5), (1.0 / 20.5, false));
    assert_eq!(rel(-0.25, 0.25), (2.0, true));
    assert_eq!(rel(0.0, 0.0), (0.0, false));
    assert_eq!(rel(-0.0, 0.0), (0.0, true));
    assert_eq!(rel(f64::NAN, f64::NAN), (0.0, false));
    assert_eq!(rel(f64::NAN, -f64::NAN), (0.0, true));
    let diff = rel(f64::INFINITY, f64::NAN);
    assert!(diff.0.is_nan() && !diff.1);
    assert_eq!(rel(f64::INFINITY, f64::INFINITY), (0.0, false));
    let diff = rel(f64::INFINITY, f64::NEG_INFINITY);
    assert!(diff.0.is_nan() && diff.1);
}

#[test]
fn test_ulps() {
    assert_eq!(ulps(0.0, 0.0), (0.0, false));
    assert_eq!(ulps(1.0, 1.0 + f64::EPSILON), (1.0, false));
    assert!(f64::is_nan(ulps(1.0, f64::NAN).0));
    assert!(f64::is_infinite(ulps(f64::MAX, f64::INFINITY).0));
}

#[test]
fn abs_of_finite_values_is_the_plain_difference() {
    for &(x, y) in &[(1.5, -2.25), (1e300, -1e300), (-3.0, -7.5), (5e-324, 0.0), (0.1, 0.2)] {
        assert_eq!(abs(x, y), ((x - y).abs(), x.is_sign_negative() != y.is_sign_negative()));
    }
}

#[test]
fn abs_of_opposite_infinities_and_mixed_nan() {
    assert_eq!(abs(f64::NEG_INFINITY, f64::INFINITY), (f64::INFINITY, true));
    assert_eq!(abs(f64::NEG_INFINITY, f64::NEG_INFINITY), (0.0, false));
    let diff = abs(3.0, -f64::NAN);
    assert!(diff.0.is_nan() && diff.1);
    assert!(abs(3.0, -f64::NAN).0.is_sign_positive());
}

#[test]
fn lesser_never_exceeds_abs_and_matches_it_for_small_sums() {
    let values = [0.0, -0.0, 0.3, -0.7, 1.0, 1.5, -2.5, 10.0, 1e10, -1e-10, f64::INFINITY, f64::NAN];
    for &x in &values {
        for &y in &values {
            let a = abs(x, y);
            let l = lesser(x, y);
            assert_eq!(l.1, a.1);
            if a.0.is_nan() {
                assert!(l.0.is_nan());
            } else {
                assert!(l.0 <= a.0, "{} {}", x, y);
            }
            if !(x.abs() + y.abs() > 2.0) {
                assert_eq!(l.0.to_bits(), a.0.to_bits());
            }
        }
    }
    assert_eq!(lesser(0.5, 1.5), (1.0, false));
    assert_eq!(lesser(1.0, 3.0), (1.0, false));
}

#[test]
fn rel_keeps_zero_difference() {
    assert_eq!(rel(3.0, 3.0), (0.0, false));
    assert_eq!(rel(1.0, 3.0), (1.0, false));
}

#[test]
fn cyclic_uses_flooring_reduction() {
    // -190 floors to 170 on [-180, 180]; a truncating reduction would keep -190.
    assert_eq!(reduce_into(-190.0, -180.0, 180.0), 170.0);
    assert_eq!(reduce_into(190.0, -180.0, 180.0), -170.0);
    assert_eq!(cyclic(-190.0, 170.0, -180.0, 180.0), (0.0, true));
    assert_eq!(cyclic(0.0, 1.0, 0.0, 360.0), (1.0, false));
    assert_eq!(cyclic(1.0, 359.0, 0.0, 360.0), (2.0, true));
    assert_eq!(cyclic(720.0, 721.0, 0.0, 360.0), (1.0, true));
}

#[test]
fn ulps_across_special_values() {
    assert!(ulps(f64::NAN, 2.0).0.is_nan());
    assert_eq!(ulps(f64::NAN, -f64::NAN), (0.0, true));
    assert_eq!(ulps(2.0, f64::NEG_INFINITY), (f64::INFINITY, true));
    assert_eq!(ulps(0.0, -0.0), (1.0, true));
    assert_eq!(ulps(1.0, 1.0 - f64::EPSILON / 2.0), (1.0, false));
    assert_eq!(ulps(f64::MAX, f64::MIN), (0x0020_0000_0000_0001u64 as f64, true));
}

#[test]
fn count_conversion_rounds_to_nearest_even() {
    let counts = [0u64, 1, 2, 3, 10, 1 << 52, (1 << 53) - 1, 1 << 53, (1 << 53) + 1, (1 << 53) + 3, 1 << 63, u64::MAX, 12345678901234567];
    for &n in &counts {
        assert_eq!(Binary64::from_count(n).to_bits(), (n as f64).to_bits(), "{}", n);
    }
}

#[test]
fn worse_orders_nan_above_infinity_above_finite() {
    assert!(is_diff_worse(b(f64::NAN), b(f64::INFINITY)));
    assert!(is_diff_worse(b(f64::INFINITY), b(1e300)));
    assert!(is_diff_worse(b(2.0), b(1.0)));
    assert!(!is_diff_worse(b(1.0), b(2.0)));
    assert!(!is_diff_worse(b(f64::NAN), b(f64::NAN)));
    assert!(!is_diff_worse(b(1.0), b(f64::NAN)));
}

#[test]
fn ulps_agree_with_float_cmp() {
    let values = [
        0.0, -0.0, 1.0, -1.0, 1.0 + f64::EPSILON, 0.5, 3.75, -1e-300, 5e-324, -5e-324,
        f64::MIN_POSITIVE, f64::MAX, f64::MIN, 1e300, -2.5e17, 123456.789,
    ];
    for &x in &values {
        for &y in &values {
            let expected = (x.ulps(&y) as f64).abs();
            assert_eq!(ulps(x, y).0.to_bits(), expected.to_bits(), "{} {}", x, y);
        }
    }
}
