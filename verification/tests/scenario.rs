use ray_tracer::point::Point;
use ray_tracer::scalar::Scalar;
use ray_tracer::tuple::Tuple;
use ray_tracer::vector::Vector;

fn s(x: f64) -> Scalar {
    Scalar::from_bits(x.to_bits())
}

fn f(x: Scalar) -> f64 {
    f64::from_bits(x.to_bits())
}

#[test]
fn a_projectile_lands() {
    let mut position = Point::new(s(0.0), s(1.0), s(0.0));
    let mut velocity = Vector::new(s(2.0), s(2.0), s(0.0));
    let gravity = Vector::new(s(0.0), s(-0.1), s(0.0));
    let wind = Vector::new(s(-0.01), s(0.0), s(0.0));

    // The same flight in hardware arithmetic.
    let (mut px, mut py) = (0.0f64, 1.0f64);
    let (mut vx, mut vy) = (2.0f64, 2.0f64);

    let mut ticks = 0;
    while s(0.0).less_than(position.y()) {
        assert!(ticks < 1000, "the projectile never lands");
        ticks += 1;
        position = position + velocity;
        velocity = velocity + gravity + wind;

        px += vx;
        py += vy;
        vx = vx + 0.0 + -0.01;
        vy = vy + -0.1 + 0.0;
        assert_eq!(f(position.x()).to_bits(), px.to_bits());
        assert_eq!(f(position.y()).to_bits(), py.to_bits());
    }

    assert_eq!(ticks, 42);
    assert!(position.y().at_most(s(0.0)));
    assert_eq!(position.w(), s(0.0));
    assert_eq!(velocity.w(), s(1.0));
}
