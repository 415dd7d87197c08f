use ray_tracer::approx::{approx_eq, epsilon};
use ray_tracer::colour::Colour;
use ray_tracer::point::Point;
use ray_tracer::scalar::Scalar;
use ray_tracer::tuple::Tuple;
use ray_tracer::vector::Vector;

fn s(x: f64) -> Scalar {
    Scalar::from_bits(x.to_bits())
}

fn point(x: f64, y: f64, z: f64) -> Point {
    Point::new(s(x), s(y), s(z))
}

fn vector(x: f64, y: f64, z: f64) -> Vector {
    Vector::new(s(x), s(y), s(z))
}

/// Numbers of magnitude at most 2^35, of every size down to the smallest.
fn bounded_samples() -> Vec<f64> {
    let limit = 34359738368.0;
    let mut out = vec![
        0.0,
        -0.0,
        1.0,
        -1.0,
        1e-5,
        1.2e-5,
        5e-324,
        2.2250738585072014e-308,
        0.1,
        limit,
        -limit,
        limit - 0.0000038,
        17179869184.000004,
        3.0000000000000004,
    ];
    let mut state: u64 = 0x2545_F491_4F6C_DD1D;
    for _ in 0..120 {
        state ^= state << 13;
        state ^= state >> 7;
        state ^= state << 17;
        let x = f64::from_bits(state);
        if x.is_finite() && x.abs() <= limit {
            out.push(x);
        }
        out.push(f64::from_bits((state >> 12) | 0x3FF0_0000_0000_0000) * limit / 2.0);
        out.push(-(f64::from_bits((state >> 12) | 0x3FF0_0000_0000_0000) - 1.0) * 1e4);
    }
    out
}

#[test]
fn the_tolerance_is_one_hundred_thousandth() {
    assert_eq!(epsilon().to_bits(), 0.00001f64.to_bits());
}

#[test]
fn approximate_equality_compares_the_rounded_difference_with_the_tolerance() {
    for &a in &bounded_samples() {
        for &b in &bounded_samples() {
            assert_eq!(approx_eq(s(a), s(b)), (a - b).abs() < 0.00001, "{a:e} ~ {b:e}");
        }
    }
}

#[test]
fn the_tolerance_reaches_half_a_spacing_short_of_itself() {
    let tolerance = 0.00001;
    // 2^-70 is half of the spacing below the tolerance: the difference lies
    // half-way and rounds to the even significand below the tolerance.
    let half_spacing = f64::from_bits(0x3B90_0000_0000_0000);
    assert_eq!(half_spacing, 2.0f64.powi(-70));
    assert!(approx_eq(s(tolerance), s(half_spacing)));
    assert!(approx_eq(s(-half_spacing), s(-tolerance)));
    // Any less taken away, and the difference rounds to the tolerance.
    assert!(!approx_eq(s(tolerance), s(half_spacing / 2.0)));
    assert!(!approx_eq(s(tolerance), s(half_spacing * 0.9999999999999999)));
    assert!(!approx_eq(s(tolerance), s(0.0)));
    assert!(!approx_eq(s(0.0), s(-tolerance)));
    // Differences that are out of range are not close.
    assert!(!approx_eq(s(1.7976931348623157e308), s(-1.7976931348623157e308)));
}

#[test]
fn approximate_equality_is_reflexive_on_finite_numbers() {
    for &a in &bounded_samples() {
        assert!(approx_eq(s(a), s(a)));
        assert_eq!(point(a, a, a), point(a, a, a));
        assert_eq!(vector(a, 0.0, a), vector(a, 0.0, a));
        assert_eq!(Colour::new(s(a), s(a), s(1.0)), Colour::new(s(a), s(a), s(1.0)));
    }
    assert!(approx_eq(s(1.7976931348623157e308), s(1.7976931348623157e308)));
}

#[test]
fn approximate_equality_is_not_reflexive_on_the_rest() {
    assert!(!approx_eq(s(f64::INFINITY), s(f64::INFINITY)));
    assert!(!approx_eq(s(f64::NEG_INFINITY), s(f64::NEG_INFINITY)));
    assert!(!approx_eq(s(f64::NAN), s(f64::NAN)));
    let c = Colour::new(s(f64::INFINITY), s(0.0), s(0.0));
    assert_ne!(c, c);
}

#[test]
fn approximate_equality_is_symmetric() {
    let mut xs = bounded_samples();
    xs.extend_from_slice(&[f64::INFINITY, f64::NEG_INFINITY, f64::NAN, 1e300, -1e300]);
    for &a in &xs {
        for &b in &xs {
            assert_eq!(approx_eq(s(a), s(b)), approx_eq(s(b), s(a)), "{a:e} ~ {b:e}");
        }
    }
}

#[test]
fn moving_there_and_back_returns_within_the_bound() {
    let xs = bounded_samples();
    for &a in &xs {
        for &b in &xs {
            let p = point(a, -a, 1.0);
            let v = vector(b, b, -b);
            assert_eq!((p + v) - v, p, "{a:e}, {b:e}");
            assert_eq!((p - v) + v, p, "{a:e}, {b:e}");
            assert_eq!((v + p) - v, p, "{a:e}, {b:e}");
        }
    }
}

#[test]
fn moving_there_and_back_can_fail_beyond_the_bound() {
    let p = point(1.0, 0.0, 0.0);
    let v = vector(1e300, 0.0, 0.0);
    assert_ne!((p + v) - v, p);

    // 2^37 is the first power of two whose neighbours are further apart
    // than twice the tolerance.
    let p = point(0.000012, 0.0, 0.0);
    let v = vector(137438953472.0, 0.0, 0.0);
    assert_ne!((p + v) - v, p);
}

#[test]
fn scaling_there_and_back_returns_within_the_bound() {
    let factors = [
        1.0,
        -1.0,
        3.5,
        0.1,
        -7.25,
        1e-3,
        1e6,
        2.2250738585072014e-308,
        -2.2250738585072014e-308,
        1e-300,
        1e200,
        8.98846567431158e307,
        0.3333333333333333,
    ];
    for &a in &bounded_samples() {
        for &f in &factors {
            let v = vector(a, -a, a);
            let scaled = v * s(f);
            if scaled.x().is_finite() {
                assert_eq!(scaled / s(f), v, "{a:e} * {f:e}");
            }
        }
    }
}

#[test]
fn scaling_there_and_back_can_fail_beyond_the_bound() {
    // The product is out of range.
    let v = vector(1e200, 0.0, 0.0);
    assert_ne!((v * s(1e200)) / s(1e200), v);

    // The factor is not normal: the product 1.5 * 2^-1074 rounds to 2^-1073.
    let v = vector(1.5, 0.0, 0.0);
    assert_ne!((v * s(5e-324)) / s(5e-324), v);

    // The coordinate is too large for the tolerance.
    let v = vector(106035867756.70026, 0.0, 0.0);
    assert_ne!((v * s(2.686234445770003)) / s(2.686234445770003), v);
}

#[test]
fn a_sum_does_not_depend_on_the_order() {
    let xs = bounded_samples();
    for &a in &xs {
        for &b in &xs {
            let p = point(a, b, a);
            let v = vector(b, a, -a);
            let left = p + v;
            let right = v + p;
            assert_eq!(left.x().to_bits(), right.x().to_bits());
            assert_eq!(left.y().to_bits(), right.y().to_bits());
            assert_eq!(left.z().to_bits(), right.z().to_bits());
        }
    }
}

#[test]
fn the_cross_product_is_anticommutative() {
    let xs = [0.0, 1.0, -2.5, 0.1, 1e10, -3e-7, 7.0];
    for &a in &xs {
        for &b in &xs {
            for &c in &xs {
                let u = vector(a, b, c);
                let v = vector(c, a, -b);
                let left = u.cross(v);
                let right = -(v.cross(u));
                for (l, r) in [(left.x(), right.x()), (left.y(), right.y()), (left.z(), right.z())] {
                    assert!(l.to_bits() == r.to_bits() || (l.is_zero() && r.is_zero()));
                }
            }
        }
    }
}
