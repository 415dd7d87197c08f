use ray_tracer::point::Point;
use ray_tracer::scalar::Scalar;
use ray_tracer::tuple::Tuple;
use ray_tracer::vector::Vector;

fn s(x: f64) -> Scalar {
    Scalar::from_bits(x.to_bits())
}

fn point(x: f64, y: f64, z: f64) -> Point {
    Point::new(s(x), s(y), s(z))
}

fn vector(x: f64, y: f64, z: f64) -> Vector {
    Vector::new(s(x), s(y), s(z))
}

#[test]
fn new_point() {
    let point = Point::new(s(4.3), s(-4.2), s(3.1));

    assert_eq!(point.x(), s(4.3));
    assert_eq!(point.y(), s(-4.2));
    assert_eq!(point.z(), s(3.1));
    assert_eq!(point.w(), s(0.0))
}

#[test]
fn add_point_and_vector() {
    let point = point(-2.0, 3.0, 1.0);
    let vector = vector(3.0, -2.0, 5.0);

    let result = point + vector;
    let expected = Point::new(s(1.0), s(1.0), s(6.0));

    assert_eq!(result, expected)
}

#[test]
fn add_vector_and_point() {
    let vector = vector(3.0, -2.0, 5.0);
    let point = point(-2.0, 3.0, 1.0);

    let result = vector + point;
    let expected = Point::new(s(1.0), s(1.0), s(6.0));

    assert_eq!(result, expected)
}

#[test]
fn sub_vector_from_point() {
    let point = point(3.0, 2.0, 1.0);
    let vector = vector(5.0, 6.0, 7.0);

    let result = point - vector;
    let expected = Point::new(s(-2.0), s(-4.0), s(-6.0));

    assert_eq!(result, expected)
}

#[test]
fn multiply_point_by_scalar() {
    let point = point(1.0, -2.0, 3.0);

    let result = point * s(3.5);
    let expected = Point::new(s(3.5), s(-7.0), s(10.5));

    assert_eq!(result, expected)
}

#[test]
fn multiply_point_by_fraction() {
    let point = point(1.0, -2.0, 3.0);

    let result = point * s(0.5);
    let expected = Point::new(s(0.5), s(-1.0), s(1.5));

    assert_eq!(result, expected)
}

#[test]
fn divide_point_by_scalar() {
    let point = point(1.0, -2.0, 3.0);

    let result = point / s(2.0);
    let expected = Point::new(s(0.5), s(-1.0), s(1.5));

    assert_eq!(result, expected)
}

#[test]
fn divide_point_by_fraction() {
    let point = point(1.0, -2.0, 3.0);

    let result = point / s(0.5);
    let expected = Point::new(s(2.0), s(-4.0), s(6.0));

    assert_eq!(result, expected)
}

#[test]
fn the_homogeneous_coordinate_of_a_point_is_zero() {
    for &(x, y, z) in &[(0.0, 0.0, 0.0), (4.3, -4.2, 3.1), (1e300, -1e-300, 5e-324)] {
        assert_eq!(point(x, y, z).w().to_bits(), 0.0f64.to_bits());
    }
}

#[test]
fn point_coordinates_are_kept_bit_for_bit() {
    let p = point(4.3, -0.0, 5e-324);
    assert_eq!(p.x().to_bits(), 4.3f64.to_bits());
    assert_eq!(p.y().to_bits(), (-0.0f64).to_bits());
    assert_eq!(p.z().to_bits(), 5e-324f64.to_bits());
}

#[test]
fn points_within_the_tolerance_are_equal() {
    assert_eq!(point(1.0, 2.0, 3.0), point(1.000001, 2.0, 3.0));
    assert_ne!(point(1.0, 2.0, 3.0), point(1.0001, 2.0, 3.0));
    assert_ne!(point(1.0, 2.0, 3.0), point(1.0, 2.0, 3.00002));
}

#[test]
fn the_tolerance_itself_is_not_within_the_tolerance() {
    assert_ne!(point(0.00001, 0.0, 0.0), point(0.0, 0.0, 0.0));
    assert_eq!(point(0.0000099, 0.0, 0.0), point(0.0, 0.0, 0.0));
}

#[test]
fn points_that_are_not_finite_equal_nothing() {
    let p = point(f64::INFINITY, 0.0, 0.0);
    assert_ne!(p, p);
    let q = point(0.0, f64::NAN, 0.0);
    assert_ne!(q, q);
}

#[test]
fn moving_a_point_there_and_back_returns_to_it() {
    let p = point(0.1, -7.25, 1e6);
    let v = vector(0.2, 3.3, -1e-3);
    assert_eq!((p + v) - v, p);
    assert_eq!((p - v) + v, p);
}

#[test]
fn dividing_a_point_by_zero_is_not_guarded() {
    let p = point(1.0, -2.0, 0.0) / s(0.0);
    assert_eq!(p.x().to_bits(), f64::INFINITY.to_bits());
    assert_eq!(p.y().to_bits(), f64::NEG_INFINITY.to_bits());
    assert!(p.z().is_nan());
}
