use ray_tracer::colour::Colour;
use ray_tracer::scalar::Scalar;

fn s(x: f64) -> Scalar {
    Scalar::from_bits(x.to_bits())
}

fn colour(r: f64, g: f64, b: f64) -> Colour {
    Colour::new(s(r), s(g), s(b))
}

#[test]
fn new_colour() {
    let colour = Colour::new(s(-0.5), s(0.4), s(1.7));

    assert_eq!(colour.r, s(-0.5));
    assert_eq!(colour.g, s(0.4));
    assert_eq!(colour.b, s(1.7));
}

#[test]
fn colours_equality() {
    let colour1 = colour(-0.5, 0.4, 1.7);
    let colour2 = colour(-0.5, 0.4, 1.7);

    assert_eq!(colour1, colour2)
}

#[test]
fn add_colours() {
    let colour1 = colour(0.9, 0.6, 0.75);
    let colour2 = colour(0.7, 0.1, 0.25);

    let result = colour1 + colour2;
    let expected = colour(1.6, 0.7, 1.0);

    assert_eq!(result, expected);
}

#[test]
fn sub_colours() {
    let colour1 = colour(0.9, 0.6, 0.75);
    let colour2 = colour(0.7, 0.1, 0.25);

    let result = colour1 - colour2;
    let expected = colour(0.2, 0.5, 0.5);

    assert_eq!(result, expected);
}

#[test]
fn multiply_colours() {
    let colour1 = colour(1.0, 0.2, 0.4);
    let colour2 = colour(0.9, 1.0, 0.1);

    let result = colour1 * colour2;
    let expected = colour(0.9, 0.2, 0.04);

    assert_eq!(result, expected);
}

#[test]
fn multiply_colour_by_scalar() {
    let colour = colour(0.2, 0.3, 0.4);

    let result = colour * s(2.0);
    let expected = Colour::new(s(0.4), s(0.6), s(0.8));

    assert_eq!(result, expected);
}

#[test]
fn colour_arithmetic_matches_hardware_bit_for_bit() {
    let a = colour(0.9, 0.6, 0.75);
    let b = colour(0.7, 0.1, 0.25);

    let sum = a + b;
    assert_eq!(sum.r.to_bits(), (0.9f64 + 0.7).to_bits());
    assert_eq!(sum.g.to_bits(), (0.6f64 + 0.1).to_bits());
    assert_eq!(sum.b.to_bits(), (0.75f64 + 0.25).to_bits());

    let difference = a - b;
    assert_eq!(difference.r.to_bits(), (0.9f64 - 0.7).to_bits());
    assert_eq!(difference.g.to_bits(), (0.6f64 - 0.1).to_bits());
    assert_eq!(difference.b.to_bits(), (0.75f64 - 0.25).to_bits());

    let product = a * b;
    assert_eq!(product.r.to_bits(), (0.9f64 * 0.7).to_bits());
    assert_eq!(product.g.to_bits(), (0.6f64 * 0.1).to_bits());
    assert_eq!(product.b.to_bits(), (0.75f64 * 0.25).to_bits());

    let scaled = a * s(3.5);
    assert_eq!(scaled.r.to_bits(), (0.9f64 * 3.5).to_bits());
    assert_eq!(scaled.g.to_bits(), (0.6f64 * 3.5).to_bits());
    assert_eq!(scaled.b.to_bits(), (0.75f64 * 3.5).to_bits());
}

#[test]
fn colours_within_the_tolerance_are_equal() {
    assert_eq!(colour(1e-7, 0.0, 0.0), colour(0.0, 0.0, 0.0));
    assert_eq!(colour(0.0, 0.0, 0.0), colour(1e-7, 0.0, 0.0));
    assert_ne!(colour(1.0, 0.0, 0.0), colour(0.0, 0.0, 0.0));
    assert_ne!(colour(0.0, 1.0, 0.0), colour(0.0, 0.0, 0.0));
    assert_ne!(colour(0.0, 0.0, 1.0), colour(0.0, 0.0, 0.0));
}

#[test]
fn intensities_are_not_clamped() {
    let bright = colour(0.9, 0.9, 0.9) + colour(0.9, 0.9, 0.9);
    assert_eq!(bright, colour(1.8, 1.8, 1.8));
    let dark = colour(0.1, 0.1, 0.1) - colour(0.9, 0.9, 0.9);
    assert_eq!(dark, colour(-0.8, -0.8, -0.8));
}
