use raytracer::scalar::{fmax, fmin, is_in_range, Scalar};

fn s(x: f64) -> Scalar {
    Scalar::from_bits(x.to_bits())
}

fn samples() -> Vec<f64> {
    vec![
        0.0,
        -0.0,
        1.0,
        -1.0,
        0.5,
        -0.5,
        1.5,
        2.0,
        -2.0,
        1e-310,
        -1e-310,
        f64::MIN_POSITIVE,
        f64::MAX,
        f64::MIN,
        f64::INFINITY,
        f64::NEG_INFINITY,
        f64::NAN,
        -f64::NAN,
        f64::EPSILON,
        0.1,
        0.7,
        1e300,
        -1e300,
    ]
}

#[test]
fn comparisons_are_those_of_the_floats() {
    for a in samples() {
        for b in samples() {
            assert_eq!(s(a).lt(s(b)), a < b, "{} < {}", a, b);
            assert_eq!(s(a).le(s(b)), a <= b, "{} <= {}", a, b);
            assert_eq!(s(a).gt(s(b)), a > b, "{} > {}", a, b);
            assert_eq!(s(a).ge(s(b)), a >= b, "{} >= {}", a, b);
            assert_eq!(s(a).same(s(b)), a == b, "{} == {}", a, b);
        }
    }
}

#[test]
fn nan_is_told_from_numbers() {
    for a in samples() {
        assert_eq!(s(a).is_nan(), a.is_nan());
    }
}

#[test]
fn neg_and_abs_are_those_of_the_floats() {
    for a in samples() {
        assert_eq!(s(a).neg().to_bits(), (-a).to_bits());
        assert_eq!(s(a).abs().to_bits(), a.abs().to_bits());
    }
}

#[test]
fn zero_and_one_are_the_floats() {
    assert_eq!(Scalar::zero().to_bits(), 0.0f64.to_bits());
    assert_eq!(Scalar::one().to_bits(), 1.0f64.to_bits());
}

#[test]
fn fmin_and_fmax_prefer_the_second_when_nothing_compares() {
    for a in samples() {
        for b in samples() {
            let min = if a <= b { a } else { b };
            let max = if a >= b { a } else { b };
            assert_eq!(fmin(s(a), s(b)).to_bits(), min.to_bits());
            assert_eq!(fmax(s(a), s(b)).to_bits(), max.to_bits());
        }
    }
    assert_eq!(fmin(s(f64::NAN), s(2.0)), s(2.0));
    assert_eq!(fmax(s(f64::NAN), s(2.0)), s(2.0));
    assert_eq!(fmin(s(0.0), s(-0.0)), s(0.0));
    assert_eq!(fmin(s(-0.0), s(0.0)), s(-0.0));
}

#[test]
fn range_is_closed_below_and_open_above() {
    assert!(is_in_range(s(1.0), s(1.0), Some(s(2.0))));
    assert!(!is_in_range(s(2.0), s(1.0), Some(s(2.0))));
    assert!(!is_in_range(s(0.5), s(1.0), Some(s(2.0))));
    assert!(is_in_range(s(1e300), s(1.0), None));
    assert!(is_in_range(s(f64::INFINITY), s(1.0), None));
    assert!(!is_in_range(s(f64::NEG_INFINITY), s(1.0), None));
}

#[test]
fn what_is_not_a_number_lies_in_no_interval() {
    assert!(!is_in_range(s(f64::NAN), s(1.0), None));
    assert!(!is_in_range(s(f64::NAN), s(1.0), Some(s(2.0))));
    assert!(!is_in_range(s(-f64::NAN), s(f64::NEG_INFINITY), None));
    assert!(!is_in_range(s(1.5), s(f64::NAN), None));
    assert!(!is_in_range(s(1.5), s(f64::NAN), Some(s(2.0))));
    assert!(!is_in_range(s(1.5), s(1.0), Some(s(f64::NAN))));
}
