//! Laws of the arithmetic on points, vectors and colours, stated over the
//! numbers that their components stand for.

use crate::approx::lemma_approx_eq_reflexive;
use crate::accuracy::{
    lemma_approx_eq_exact, lemma_product_then_quotient, lemma_sum_then_difference,
};
use crate::point::Point;
use crate::scalar::Scalar;
use crate::triple::Triple;
use crate::tuple::Tuple;
use crate::value::Value;
use crate::vector::{lemma_one, Vector};
use vstd::arithmetic::mul::*;
use vstd::prelude::*;

verus! {

/// The homogeneous coordinate of every point is zero, and that of every
/// vector is one, whatever coordinates they were made with.
pub proof fn lemma_homogeneous_coordinates(x: Scalar, y: Scalar, z: Scalar)
    ensures
        Point::homogeneous()@ == Value::zero(),
        Vector::homogeneous()@ == Value::one(),
        Point::at(x, y, z).coordinates() == (x, y, z),
        Vector::at(x, y, z).coordinates() == (x, y, z),
{
    lemma_one();
    Point::at(x, y, z).lemma_coordinates();
    Vector::at(x, y, z).lemma_coordinates();
}

/// A point, a vector or a colour whose components are all finite is
/// approximately equal to itself.
pub proof fn lemma_approx_eq_is_reflexive(a: Triple)
    requires
        a.is_finite(),
    ensures
        a.approx_eq(a),
{
    lemma_approx_eq_reflexive(a.x);
    lemma_approx_eq_reflexive(a.y);
    lemma_approx_eq_reflexive(a.z);
}

/// Approximate equality of two numbers does not depend on their order.
pub proof fn lemma_value_approx_eq_is_symmetric(a: Value, b: Value)
    ensures
        a.approx_eq(b) == b.approx_eq(a),
{
}

/// Approximate equality of two points, two vectors or two colours does not
/// depend on their order.
pub proof fn lemma_approx_eq_is_symmetric(a: Triple, b: Triple)
    ensures
        a.approx_eq(b) == b.approx_eq(a),
{
    lemma_value_approx_eq_is_symmetric(a.x, b.x);
    lemma_value_approx_eq_is_symmetric(a.y, b.y);
    lemma_value_approx_eq_is_symmetric(a.z, b.z);
}

/// Approximate equality is tolerant, and no more than that: two points, two
/// vectors or two colours with finite components are approximately equal
/// exactly when the exact difference of every pair of components is at most
/// the tolerance less half of the spacing below it.
pub proof fn lemma_approx_eq_is_tolerant(a: Triple, b: Triple)
    requires
        a.is_finite(),
        b.is_finite(),
    ensures
        a.approx_eq(b) <==> a.close_to(b),
{
    lemma_approx_eq_exact(a.x, b.x);
    lemma_approx_eq_exact(a.y, b.y);
    lemma_approx_eq_exact(a.z, b.z);
}

/// Moving a point by a displacement and back again, in either order, comes
/// back approximately to the point, when all coordinates are finite and of
/// magnitude at most `2^35`.
pub proof fn lemma_move_there_and_back(p: Point, v: Vector)
    requires
        p@.within_pow2(35),
        v@.within_pow2(35),
    ensures
        p@.sum(v@).difference(v@).approx_eq(p@),
        p@.difference(v@).sum(v@).approx_eq(p@),
{
    lemma_sum_then_difference(p@.x, v@.x);
    lemma_sum_then_difference(p@.y, v@.y);
    lemma_sum_then_difference(p@.z, v@.z);
}

/// Scaling a vector by a normal factor and dividing by it again comes back
/// approximately to the vector, when its coordinates are finite and of
/// magnitude at most `2^35` and the scaled coordinates are finite.
pub proof fn lemma_scale_there_and_back(v: Vector, s: Scalar)
    requires
        v@.within_pow2(35),
        s@.is_normal(),
        v@.times(s@).is_finite(),
    ensures
        v@.times(s@).over(s@).approx_eq(v@),
{
    lemma_product_then_quotient(v@.x, s@);
    lemma_product_then_quotient(v@.y, s@);
    lemma_product_then_quotient(v@.z, s@);
}

/// A point moved by a displacement is the same point whichever of the two
/// is written first.
pub proof fn lemma_sum_commutes(p: Point, v: Vector)
    ensures
        p@.sum(v@) == v@.sum(p@),
{
}

/// The order of the factors does not matter to a product.
pub proof fn lemma_product_commutes(a: Value, b: Value)
    ensures
        a.product(b) == b.product(a),
{
    if a is Finite && b is Finite {
        lemma_mul_is_commutative(a.units() as int, b.units() as int);
    }
}

/// A difference taken the other way round is the negation, up to the sign
/// of a zero difference.
pub proof fn lemma_difference_reversed(a: Value, b: Value)
    ensures
        a.difference(b).same_up_to_zero_sign(b.difference(a).negated()),
{
}

/// The cross product is anticommutative: taken the other way round it is
/// the negation, up to the sign of a zero coordinate.
pub proof fn lemma_cross_is_anticommutative(u: Vector, v: Vector)
    ensures
        u@.cross(v@).same_up_to_zero_sign(v@.cross(u@).negated()),
{
    let a = u@;
    let b = v@;
    lemma_product_commutes(a.y, b.z);
    lemma_product_commutes(a.z, b.y);
    lemma_product_commutes(a.z, b.x);
    lemma_product_commutes(a.x, b.z);
    lemma_product_commutes(a.x, b.y);
    lemma_product_commutes(a.y, b.x);
    lemma_difference_reversed(a.y.product(b.z), a.z.product(b.y));
    lemma_difference_reversed(a.z.product(b.x), a.x.product(b.z));
    lemma_difference_reversed(a.x.product(b.y), a.y.product(b.x));
}

/// Negation leaves the length of a vector unchanged.
pub proof fn lemma_negation_keeps_length(v: Vector)
    ensures
        v@.negated().length() == v@.length(),
{
    lemma_negated_product(v@.x);
    lemma_negated_product(v@.y);
    lemma_negated_product(v@.z);
}

/// A number and its negation have the same square.
pub proof fn lemma_negated_product(a: Value)
    ensures
        a.negated().product(a.negated()) == a.product(a),
{
}

} // verus!
