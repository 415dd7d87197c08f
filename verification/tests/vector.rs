use ray_tracer::point::Point;
use ray_tracer::scalar::Scalar;
use ray_tracer::tuple::Tuple;
use ray_tracer::vector::Vector;

fn s(x: f64) -> Scalar {
    Scalar::from_bits(x.to_bits())
}

fn vector(x: f64, y: f64, z: f64) -> Vector {
    Vector::new(s(x), s(y), s(z))
}

#[test]
fn new_vector() {
    let vec = Vector::new(s(4.3), s(-4.2), s(3.1));

    assert_eq!(vec.x(), s(4.3));
    assert_eq!(vec.y(), s(-4.2));
    assert_eq!(vec.z(), s(3.1));
    assert_eq!(vec.w(), s(1.0))
}

#[test]
fn add_vector_and_vector() {
    let vector1 = vector(3.0, -2.0, 5.0);
    let vector2 = vector(-2.0, 3.0, 1.0);

    let result = vector1 + vector2;
    let expected = Vector::new(s(1.0), s(1.0), s(6.0));

    assert_eq!(result, expected)
}

#[test]
fn sub_vector_from_vector() {
    let vector1 = vector(3.0, 2.0, 1.0);
    let vector2 = vector(5.0, 6.0, 7.0);

    let result = vector1 - vector2;
    let expected = Vector::new(s(-2.0), s(-4.0), s(-6.0));

    assert_eq!(result, expected)
}

#[test]
fn sub_point_from_point() {
    let point1 = Point::new(s(3.0), s(2.0), s(1.0));
    let point2 = Point::new(s(5.0), s(6.0), s(7.0));

    let result = point1 - point2;
    let expected = Vector::new(s(-2.0), s(-4.0), s(-6.0));

    assert_eq!(result, expected)
}

#[test]
fn negate_vector() {
    let vector = vector(1.0, -2.0, 3.0);

    let expected = Vector::new(s(-1.0), s(2.0), s(-3.0));

    assert_eq!(-vector, expected)
}

#[test]
fn multiply_vector_by_scalar() {
    let vector = vector(1.0, -2.0, 3.0);

    let result = vector * s(3.5);
    let expected = Vector::new(s(3.5), s(-7.0), s(10.5));

    assert_eq!(result, expected)
}

#[test]
fn multiply_vector_by_fraction() {
    let vector = vector(1.0, -2.0, 3.0);

    let result = vector * s(0.5);
    let expected = Vector::new(s(0.5), s(-1.0), s(1.5));

    assert_eq!(result, expected)
}

#[test]
fn divide_vector_by_scalar() {
    let vector = vector(1.0, -2.0, 3.0);

    let result = vector / s(2.0);
    let expected = Vector::new(s(0.5), s(-1.0), s(1.5));

    assert_eq!(result, expected)
}

#[test]
fn divide_vector_by_fraction() {
    let vector = vector(1.0, -2.0, 3.0);

    let result = vector / s(0.5);
    let expected = Vector::new(s(2.0), s(-4.0), s(6.0));

    assert_eq!(result, expected)
}

#[test]
fn compute_magnitude_x() {
    let vector = vector(1.0, 0.0, 0.0);

    let result = vector.magnitude();
    let expected = s(f64::sqrt(1.0));

    assert_eq!(result, expected)
}

#[test]
fn compute_magnitude_y() {
    let vector = vector(0.0, 1.0, 0.0);

    let result = vector.magnitude();
    let expected = s(f64::sqrt(1.0));

    assert_eq!(result, expected)
}

#[test]
fn compute_magnitude_z() {
    let vector = vector(0.0, 0.0, 1.0);

    let result = vector.magnitude();
    let expected = s(f64::sqrt(1.0));

    assert_eq!(result, expected)
}

#[test]
fn compute_magnitude_positive() {
    let vector = vector(1.0, 2.0, 3.0);

    let result = vector.magnitude();
    let expected = s(f64::sqrt(14.0));

    assert_eq!(result, expected)
}

#[test]
fn compute_magnitude_negative() {
    let vector = vector(-1.0, -2.0, -3.0);

    let result = vector.magnitude();
    let expected = s(f64::sqrt(14.0));

    assert_eq!(result, expected)
}

#[test]
fn normalise_simple_vector() {
    let vector = vector(4.0, 0.0, 0.0);

    let result = vector.normalise();
    let expected = Vector::new(s(1.0), s(0.0), s(0.0));

    assert_eq!(result, expected)
}

#[test]
fn normalise_complex_vector() {
    let vector = vector(1.0, 2.0, 3.0);

    let result = vector.normalise();
    let expected = Vector::new(
        s(1.0 / f64::sqrt(14.0)),
        s(2.0 / f64::sqrt(14.0)),
        s(3.0 / f64::sqrt(14.0)),
    );

    assert_eq!(result, expected)
}

#[test]
fn magnitude_normalised_vector() {
    let vector = vector(1.0, 2.0, 3.0);

    let result = vector.normalise().magnitude();

    assert_eq!(result, s(1.0))
}

#[test]
fn dot_product() {
    let vector1 = vector(1.0, 2.0, 3.0);
    let vector2 = vector(2.0, 3.0, 4.0);

    let result = vector1.dot(vector2);

    assert_eq!(result, s(20.0))
}

#[test]
fn cross_product() {
    let vector1 = vector(1.0, 2.0, 3.0);
    let vector2 = vector(2.0, 3.0, 4.0);

    let result = vector1.cross(vector2);
    let expected = Vector::new(s(-1.0), s(2.0), s(-1.0));

    assert_eq!(result, expected)
}

#[test]
fn cross_product_reverse() {
    let vector1 = vector(1.0, 2.0, 3.0);
    let vector2 = vector(2.0, 3.0, 4.0);

    let result = vector2.cross(vector1);
    let expected = Vector::new(s(1.0), s(-2.0), s(1.0));

    assert_eq!(result, expected)
}

#[test]
fn the_homogeneous_coordinate_of_a_vector_is_one() {
    for &(x, y, z) in &[(0.0, 0.0, 0.0), (4.3, -4.2, 3.1), (1e300, -1e-300, 5e-324)] {
        assert_eq!(vector(x, y, z).w().to_bits(), 1.0f64.to_bits());
    }
}

#[test]
fn magnitude_matches_hardware_bit_for_bit() {
    for &(x, y, z) in &[(1.0, 2.0, 3.0), (0.1, 0.2, 0.3), (-7.5, 1e-3, 2e5), (1e200, 0.0, 0.0)] {
        let want = f64::sqrt(x * x + y * y + z * z);
        assert_eq!(vector(x, y, z).magnitude().to_bits(), want.to_bits());
    }
}

#[test]
fn dot_and_cross_match_hardware_bit_for_bit() {
    let (x1, y1, z1) = (0.1f64, -2.7, 3.3);
    let (x2, y2, z2) = (4.9f64, 0.3, -1.1);
    let a = vector(x1, y1, z1);
    let b = vector(x2, y2, z2);

    assert_eq!(a.dot(b).to_bits(), (x1 * x2 + y1 * y2 + z1 * z2).to_bits());

    let c = a.cross(b);
    assert_eq!(c.x().to_bits(), (y1 * z2 - z1 * y2).to_bits());
    assert_eq!(c.y().to_bits(), (z1 * x2 - x1 * z2).to_bits());
    assert_eq!(c.z().to_bits(), (x1 * y2 - y1 * x2).to_bits());
}

#[test]
fn the_reversed_cross_product_is_the_negation() {
    let a = vector(0.1, -2.7, 3.3);
    let b = vector(4.9, 0.3, -1.1);
    assert_eq!(a.cross(b), -(b.cross(a)));
    let c = vector(1.0, 2.0, 3.0);
    let d = vector(2.0, 3.0, 4.0);
    assert_eq!(c.cross(d), -(d.cross(c)));
}

#[test]
fn normalising_the_zero_vector_gives_no_numbers() {
    let n = vector(0.0, 0.0, 0.0).normalise();
    assert!(n.x().is_nan());
    assert!(n.y().is_nan());
    assert!(n.z().is_nan());
}

#[test]
fn dividing_a_vector_by_zero_is_not_guarded() {
    let v = vector(1.0, -2.0, 0.0) / s(0.0);
    assert_eq!(v.x().to_bits(), f64::INFINITY.to_bits());
    assert_eq!(v.y().to_bits(), f64::NEG_INFINITY.to_bits());
    assert!(v.z().is_nan());
}

#[test]
fn negation_keeps_the_magnitude() {
    let v = vector(1.0, -2.0, 3.0);
    assert_eq!((-v).magnitude().to_bits(), v.magnitude().to_bits());
}

#[test]
fn scaling_and_dividing_by_the_same_factor_returns_the_vector() {
    let v = vector(1.0, -2.0, 3.0);
    for &f in &[3.5, 0.5, -7.25, 1e-3, 1e6, 0.1] {
        assert_eq!((v * s(f)) / s(f), v);
    }
}

#[test]
fn vectors_within_the_tolerance_are_equal() {
    assert_eq!(vector(1.0, 2.0, 3.0), vector(1.0, 2.000001, 3.0));
    assert_ne!(vector(1.0, 2.0, 3.0), vector(1.0, 2.0001, 3.0));
}
