//! Triples of numbers and the componentwise arithmetic that points, vectors
//! and colours share.

use crate::value::Value;
use vstd::prelude::*;

verus! {

/// Three numbers: the free components of a point or a vector, or the red,
/// green and blue of a colour.
pub struct Triple {
    pub x: Value,
    pub y: Value,
    pub z: Value,
}

impl Triple {
    /// The componentwise sum.
    pub open spec fn sum(self, other: Triple) -> Triple {
        Triple { x: self.x.sum(other.x), y: self.y.sum(other.y), z: self.z.sum(other.z) }
    }

    /// The componentwise difference.
    pub open spec fn difference(self, other: Triple) -> Triple {
        Triple {
            x: self.x.difference(other.x),
            y: self.y.difference(other.y),
            z: self.z.difference(other.z),
        }
    }

    /// The componentwise product.
    pub open spec fn product(self, other: Triple) -> Triple {
        Triple {
            x: self.x.product(other.x),
            y: self.y.product(other.y),
            z: self.z.product(other.z),
        }
    }

    /// Every component with the opposite sign.
    pub open spec fn negated(self) -> Triple {
        Triple { x: self.x.negated(), y: self.y.negated(), z: self.z.negated() }
    }

    /// Every component multiplied by `factor`.
    pub open spec fn times(self, factor: Value) -> Triple {
        Triple {
            x: self.x.product(factor),
            y: self.y.product(factor),
            z: self.z.product(factor),
        }
    }

    /// Every component divided by `divisor`.
    pub open spec fn over(self, divisor: Value) -> Triple {
        Triple {
            x: self.x.quotient(divisor),
            y: self.y.quotient(divisor),
            z: self.z.quotient(divisor),
        }
    }

    /// The dot product `x1 * x2 + y1 * y2 + z1 * z2`, each step rounded,
    /// summed from the left.
    pub open spec fn dot(self, other: Triple) -> Value {
        self.x.product(other.x).sum(self.y.product(other.y)).sum(self.z.product(other.z))
    }

    /// The right-handed cross product
    /// `(y1 * z2 - z1 * y2, z1 * x2 - x1 * z2, x1 * y2 - y1 * x2)`, each
    /// step rounded.
    pub open spec fn cross(self, other: Triple) -> Triple {
        Triple {
            x: self.y.product(other.z).difference(self.z.product(other.y)),
            y: self.z.product(other.x).difference(self.x.product(other.z)),
            z: self.x.product(other.y).difference(self.y.product(other.x)),
        }
    }

    /// The Euclidean length: the root of the dot product with itself.
    pub open spec fn length(self) -> Value {
        self.dot(self).root()
    }

    /// Whether every pair of components is approximately equal.
    pub open spec fn approx_eq(self, other: Triple) -> bool {
        self.x.approx_eq(other.x) && self.y.approx_eq(other.y) && self.z.approx_eq(other.z)
    }

    /// Whether the exact difference of every pair of components is at most
    /// `Value::tolerance_reach` in magnitude.
    pub open spec fn close_to(self, other: Triple) -> bool
        recommends
            self.is_finite(),
            other.is_finite(),
    {
        self.x.close_to(other.x) && self.y.close_to(other.y) && self.z.close_to(other.z)
    }

    /// Whether every pair of components is the same, or a pair of zeros
    /// that differ in sign only.
    pub open spec fn same_up_to_zero_sign(self, other: Triple) -> bool {
        self.x.same_up_to_zero_sign(other.x) && self.y.same_up_to_zero_sign(other.y)
            && self.z.same_up_to_zero_sign(other.z)
    }

    /// Whether all three components are finite and of magnitude at most
    /// `2^e`.
    pub open spec fn within_pow2(self, e: nat) -> bool {
        self.x.within_pow2(e) && self.y.within_pow2(e) && self.z.within_pow2(e)
    }

    /// Whether all three components are finite.
    pub open spec fn is_finite(self) -> bool {
        self.x is Finite && self.y is Finite && self.z is Finite
    }
}

} // verus!
