//! Directions and displacements.

use crate::approx::{approx_eq, lemma_approx_eq_reflexive};
use crate::point::Point;
use crate::scalar::Scalar;
use crate::triple::Triple;
use crate::tuple::Tuple;
use crate::value::Value;
use vstd::arithmetic::power2::*;
use vstd::prelude::*;
use vstd::std_specs::cmp::PartialEqSpecImpl;
use vstd::std_specs::ops::{AddSpecImpl, DivSpecImpl, MulSpecImpl, NegSpecImpl, SubSpecImpl};

verus! {

/// The bit pattern of the number one.
pub const ONE_BITS: u64 = 0x3FF0_0000_0000_0000;

/// A direction with a length. Its homogeneous coordinate is always one.
#[derive(Clone, Copy, Debug)]
pub struct Vector {
    x: Scalar,
    y: Scalar,
    z: Scalar,
}

impl View for Vector {
    type V = Triple;

    /// The numbers that the three free coordinates stand for.
    open spec fn view(&self) -> Triple {
        let (x, y, z) = self.coordinates();
        Triple { x: x@, y: y@, z: z@ }
    }
}

/// The pattern of one stands for the number one.
pub proof fn lemma_one()
    ensures
        (Scalar { bits: ONE_BITS })@ == Value::one(),
{
    let one = Scalar { bits: ONE_BITS };
    assert(one.magnitude_field() == ONE_BITS);
    assert(one.exponent_field() == 1023);
    assert(one.fraction_field() == 0);
    lemma2_to64_rest();
    lemma_pow2_adds(52, 1022);
}

impl Vector {
    /// The vector with the given free coordinates.
    pub closed spec fn at(x: Scalar, y: Scalar, z: Scalar) -> Vector {
        Vector { x, y, z }
    }

    /// The vector whose coordinates are the bit patterns chosen for `t`.
    pub open spec fn of(t: Triple) -> Vector {
        Vector::at(Scalar::of(t.x), Scalar::of(t.y), Scalar::of(t.z))
    }

    /// A vector is made of its coordinates, and of nothing else.
    pub proof fn lemma_coordinates(self)
        ensures
            self == Vector::at(self.coordinates().0, self.coordinates().1, self.coordinates().2),
            forall|x: Scalar, y: Scalar, z: Scalar|
                (#[trigger] Vector::at(x, y, z)).coordinates() == (x, y, z),
    {
    }

    /// The Euclidean length.
    pub fn magnitude(&self) -> (r: Scalar)
        ensures
            r@ == self@.length(),
            r == Scalar::of(r@),
    {
        (self.x * self.x + self.y * self.y + self.z * self.z).sqrt()
    }

    /// The vector divided by its length. The zero vector has no direction:
    /// its coordinates come out as not a number.
    pub fn normalise(&self) -> (r: Vector)
        ensures
            r@ == self@.over(self@.length()),
            r == Vector::of(r@),
    {
        *self / self.magnitude()
    }

    /// The dot product with `vector`.
    pub fn dot(&self, vector: Vector) -> (r: Scalar)
        ensures
            r@ == self@.dot(vector@),
            r == Scalar::of(r@),
    {
        self.x * vector.x + self.y * vector.y + self.z * vector.z
    }

    /// The right-handed cross product with `vector`.
    pub fn cross(&self, vector: Vector) -> (r: Vector)
        ensures
            r@ == self@.cross(vector@),
            r == Vector::of(r@),
    {
        Vector::new(
            self.y * vector.z - self.z * vector.y,
            self.z * vector.x - self.x * vector.z,
            self.x * vector.y - self.y * vector.x,
        )
    }
}

impl Tuple for Vector {
    closed spec fn coordinates(&self) -> (Scalar, Scalar, Scalar) {
        (self.x, self.y, self.z)
    }

    open spec fn homogeneous() -> Scalar {
        Scalar { bits: ONE_BITS }
    }

    fn new(x: Scalar, y: Scalar, z: Scalar) -> (r: Vector)
        ensures
            r == Vector::at(x, y, z),
    {
        Vector { x, y, z }
    }

    fn x(&self) -> (r: Scalar) {
        self.x
    }

    fn y(&self) -> (r: Scalar) {
        self.y
    }

    fn z(&self) -> (r: Scalar) {
        self.z
    }

    /// One, whatever the vector.
    fn w(&self) -> (r: Scalar)
        ensures
            r@ == Value::one(),
    {
        proof {
            lemma_one();
        }
        Scalar { bits: ONE_BITS }
    }
}

impl PartialEq for Vector {
    /// Whether the two vectors are approximately equal, coordinate by
    /// coordinate.
    fn eq(&self, other: &Vector) -> (r: bool) {
        proof {
            lemma_approx_eq_reflexive(Value::one());
        }
        approx_eq(self.x, other.x) && approx_eq(self.y, other.y) && approx_eq(self.z, other.z)
            && approx_eq(self.w(), other.w())
    }
}

impl PartialEqSpecImpl for Vector {
    open spec fn obeys_eq_spec() -> bool {
        true
    }

    open spec fn eq_spec(&self, other: &Vector) -> bool {
        self@.approx_eq(other@)
    }
}

impl core::ops::Add<Vector> for Vector {
    type Output = Vector;

    /// The two displacements, one after the other.
    fn add(self, rhs: Vector) -> (r: Vector)
        ensures
            r@ == self@.sum(rhs@),
    {
        Vector { x: self.x + rhs.x, y: self.y + rhs.y, z: self.z + rhs.z }
    }
}

impl AddSpecImpl<Vector> for Vector {
    open spec fn obeys_add_spec() -> bool {
        true
    }

    open spec fn add_req(self, rhs: Vector) -> bool {
        true
    }

    open spec fn add_spec(self, rhs: Vector) -> Vector {
        Vector::of(self@.sum(rhs@))
    }
}

impl core::ops::Add<Point> for Vector {
    type Output = Point;

    /// The point moved by this displacement.
    fn add(self, rhs: Point) -> (r: Point)
        ensures
            r@ == self@.sum(rhs@),
    {
        Point::new(self.x + rhs.x(), self.y + rhs.y(), self.z + rhs.z())
    }
}

impl AddSpecImpl<Point> for Vector {
    open spec fn obeys_add_spec() -> bool {
        true
    }

    open spec fn add_req(self, rhs: Point) -> bool {
        true
    }

    open spec fn add_spec(self, rhs: Point) -> Point {
        Point::of(self@.sum(rhs@))
    }
}

impl core::ops::Sub<Vector> for Vector {
    type Output = Vector;

    /// The displacement that is left after taking `rhs` away.
    fn sub(self, rhs: Vector) -> (r: Vector)
        ensures
            r@ == self@.difference(rhs@),
    {
        Vector { x: self.x - rhs.x, y: self.y - rhs.y, z: self.z - rhs.z }
    }
}

impl SubSpecImpl<Vector> for Vector {
    open spec fn obeys_sub_spec() -> bool {
        true
    }

    open spec fn sub_req(self, rhs: Vector) -> bool {
        true
    }

    open spec fn sub_spec(self, rhs: Vector) -> Vector {
        Vector::of(self@.difference(rhs@))
    }
}

impl core::ops::Neg for Vector {
    type Output = Vector;

    /// The opposite direction, with the same length.
    fn neg(self) -> (r: Vector)
        ensures
            r@ == self@.negated(),
    {
        Vector { x: self.x.neg(), y: self.y.neg(), z: self.z.neg() }
    }
}

impl NegSpecImpl for Vector {
    open spec fn obeys_neg_spec() -> bool {
        true
    }

    open spec fn neg_req(self) -> bool {
        true
    }

    open spec fn neg_spec(self) -> Vector {
        Vector::of(self@.negated())
    }
}

impl core::ops::Mul<Scalar> for Vector {
    type Output = Vector;

    /// The vector with every coordinate multiplied by `rhs`.
    fn mul(self, rhs: Scalar) -> (r: Vector)
        ensures
            r@ == self@.times(rhs@),
    {
        Vector { x: self.x * rhs, y: self.y * rhs, z: self.z * rhs }
    }
}

impl MulSpecImpl<Scalar> for Vector {
    open spec fn obeys_mul_spec() -> bool {
        true
    }

    open spec fn mul_req(self, rhs: Scalar) -> bool {
        true
    }

    open spec fn mul_spec(self, rhs: Scalar) -> Vector {
        Vector::of(self@.times(rhs@))
    }
}

impl core::ops::Div<Scalar> for Vector {
    type Output = Vector;

    /// The vector with every coordinate divided by `rhs`. Division by zero
    /// is not guarded: it gives infinite coordinates, or none at all.
    fn div(self, rhs: Scalar) -> (r: Vector)
        ensures
            r@ == self@.over(rhs@),
    {
        Vector { x: self.x / rhs, y: self.y / rhs, z: self.z / rhs }
    }
}

impl DivSpecImpl<Scalar> for Vector {
    open spec fn obeys_div_spec() -> bool {
        true
    }

    open spec fn div_req(self, rhs: Scalar) -> bool {
        true
    }

    open spec fn div_spec(self, rhs: Scalar) -> Vector {
        Vector::of(self@.over(rhs@))
    }
}

} // verus!
