//! Locations in space.

use crate::approx::{approx_eq, lemma_approx_eq_reflexive};
use crate::scalar::Scalar;
use crate::triple::Triple;
use crate::tuple::Tuple;
use crate::value::Value;
use crate::vector::Vector;
use vstd::prelude::*;
use vstd::std_specs::cmp::PartialEqSpecImpl;
use vstd::std_specs::ops::{AddSpecImpl, DivSpecImpl, MulSpecImpl, SubSpecImpl};

verus! {

/// A location in space. Its homogeneous coordinate is always zero.
#[derive(Clone, Copy, Debug)]
pub struct Point {
    x: Scalar,
    y: Scalar,
    z: Scalar,
}

impl View for Point {
    type V = Triple;

    /// The numbers that the three free coordinates stand for.
    open spec fn view(&self) -> Triple {
        let (x, y, z) = self.coordinates();
        Triple { x: x@, y: y@, z: z@ }
    }
}

impl Point {
    /// The point with the given free coordinates.
    pub closed spec fn at(x: Scalar, y: Scalar, z: Scalar) -> Point {
        Point { x, y, z }
    }

    /// The point whose coordinates are the bit patterns chosen for `t`.
    pub open spec fn of(t: Triple) -> Point {
        Point::at(Scalar::of(t.x), Scalar::of(t.y), Scalar::of(t.z))
    }

    /// A point is made of its coordinates, and of nothing else.
    pub proof fn lemma_coordinates(self)
        ensures
            self == Point::at(self.coordinates().0, self.coordinates().1, self.coordinates().2),
            forall|x: Scalar, y: Scalar, z: Scalar|
                (#[trigger] Point::at(x, y, z)).coordinates() == (x, y, z),
    {
    }
}

impl Tuple for Point {
    closed spec fn coordinates(&self) -> (Scalar, Scalar, Scalar) {
        (self.x, self.y, self.z)
    }

    open spec fn homogeneous() -> Scalar {
        Scalar { bits: 0 }
    }

    fn new(x: Scalar, y: Scalar, z: Scalar) -> (r: Point)
        ensures
            r == Point::at(x, y, z),
    {
        Point { x, y, z }
    }

    fn x(&self) -> (r: Scalar) {
        self.x
    }

    fn y(&self) -> (r: Scalar) {
        self.y
    }

    fn z(&self) -> (r: Scalar) {
        self.z
    }

    /// Zero, whatever the point.
    fn w(&self) -> (r: Scalar)
        ensures
            r@ == Value::zero(),
    {
        Scalar { bits: 0 }
    }
}

impl PartialEq for Point {
    /// Whether the two points are approximately equal, coordinate by
    /// coordinate.
    fn eq(&self, other: &Point) -> (r: bool) {
        proof {
            lemma_approx_eq_reflexive(Value::zero());
        }
        approx_eq(self.x, other.x) && approx_eq(self.y, other.y) && approx_eq(self.z, other.z)
            && approx_eq(self.w(), other.w())
    }
}

impl PartialEqSpecImpl for Point {
    open spec fn obeys_eq_spec() -> bool {
        true
    }

    open spec fn eq_spec(&self, other: &Point) -> bool {
        self@.approx_eq(other@)
    }
}

impl core::ops::Add<Vector> for Point {
    type Output = Point;

    /// The point moved by the displacement.
    fn add(self, rhs: Vector) -> (r: Point)
        ensures
            r@ == self@.sum(rhs@),
    {
        Point { x: self.x + rhs.x(), y: self.y + rhs.y(), z: self.z + rhs.z() }
    }
}

impl AddSpecImpl<Vector> for Point {
    open spec fn obeys_add_spec() -> bool {
        true
    }

    open spec fn add_req(self, rhs: Vector) -> bool {
        true
    }

    open spec fn add_spec(self, rhs: Vector) -> Point {
        Point::of(self@.sum(rhs@))
    }
}

impl core::ops::Sub<Vector> for Point {
    type Output = Point;

    /// The point moved against the displacement.
    fn sub(self, rhs: Vector) -> (r: Point)
        ensures
            r@ == self@.difference(rhs@),
    {
        Point { x: self.x - rhs.x(), y: self.y - rhs.y(), z: self.z - rhs.z() }
    }
}

impl SubSpecImpl<Vector> for Point {
    open spec fn obeys_sub_spec() -> bool {
        true
    }

    open spec fn sub_req(self, rhs: Vector) -> bool {
        true
    }

    open spec fn sub_spec(self, rhs: Vector) -> Point {
        Point::of(self@.difference(rhs@))
    }
}

impl core::ops::Sub<Point> for Point {
    type Output = Vector;

    /// The displacement that leads from `rhs` to this point.
    fn sub(self, rhs: Point) -> (r: Vector)
        ensures
            r@ == self@.difference(rhs@),
    {
        Vector::new(self.x - rhs.x, self.y - rhs.y, self.z - rhs.z)
    }
}

impl SubSpecImpl<Point> for Point {
    open spec fn obeys_sub_spec() -> bool {
        true
    }

    open spec fn sub_req(self, rhs: Point) -> bool {
        true
    }

    open spec fn sub_spec(self, rhs: Point) -> Vector {
        Vector::of(self@.difference(rhs@))
    }
}

impl core::ops::Mul<Scalar> for Point {
    type Output = Point;

    /// The point with every coordinate multiplied by `rhs`.
    fn mul(self, rhs: Scalar) -> (r: Point)
        ensures
            r@ == self@.times(rhs@),
    {
        Point { x: self.x * rhs, y: self.y * rhs, z: self.z * rhs }
    }
}

impl MulSpecImpl<Scalar> for Point {
    open spec fn obeys_mul_spec() -> bool {
        true
    }

    open spec fn mul_req(self, rhs: Scalar) -> bool {
        true
    }

    open spec fn mul_spec(self, rhs: Scalar) -> Point {
        Point::of(self@.times(rhs@))
    }
}

impl core::ops::Div<Scalar> for Point {
    type Output = Point;

    /// The point with every coordinate divided by `rhs`. Division by zero
    /// is not guarded: it gives infinite coordinates, or none at all.
    fn div(self, rhs: Scalar) -> (r: Point)
        ensures
            r@ == self@.over(rhs@),
    {
        Point { x: self.x / rhs, y: self.y / rhs, z: self.z / rhs }
    }
}

impl DivSpecImpl<Scalar> for Point {
    open spec fn obeys_div_spec() -> bool {
        true
    }

    open spec fn div_req(self, rhs: Scalar) -> bool {
        true
    }

    open spec fn div_spec(self, rhs: Scalar) -> Point {
        Point::of(self@.over(rhs@))
    }
}

} // verus!
