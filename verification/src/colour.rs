//! Colours as intensities of red, green and blue.

use crate::approx::approx_eq;
use crate::scalar::Scalar;
use crate::triple::Triple;
use vstd::prelude::*;
use vstd::std_specs::cmp::PartialEqSpecImpl;
use vstd::std_specs::ops::{AddSpecImpl, MulSpecImpl, SubSpecImpl};

verus! {

/// A colour. The intensities are not limited to any range.
#[derive(Clone, Copy, Debug)]
pub struct Colour {
    pub r: Scalar,
    pub g: Scalar,
    pub b: Scalar,
}

impl View for Colour {
    type V = Triple;

    /// Red, green and blue as the first, second and third number.
    open spec fn view(&self) -> Triple {
        Triple { x: self.r@, y: self.g@, z: self.b@ }
    }
}

impl Colour {
    /// The colour whose intensities are the bit patterns chosen for `t`.
    pub open spec fn of(t: Triple) -> Colour {
        Colour { r: Scalar::of(t.x), g: Scalar::of(t.y), b: Scalar::of(t.z) }
    }

    /// The colour with the given intensities.
    pub fn new(r: Scalar, g: Scalar, b: Scalar) -> (c: Colour)
        ensures
            c.r == r,
            c.g == g,
            c.b == b,
    {
        Colour { r, g, b }
    }
}

impl PartialEq for Colour {
    /// Whether the two colours are approximately equal, intensity by
    /// intensity.
    fn eq(&self, other: &Colour) -> (r: bool) {
        approx_eq(self.r, other.r) && approx_eq(self.g, other.g) && approx_eq(self.b, other.b)
    }
}

impl PartialEqSpecImpl for Colour {
    open spec fn obeys_eq_spec() -> bool {
        true
    }

    open spec fn eq_spec(&self, other: &Colour) -> bool {
        self@.approx_eq(other@)
    }
}

impl core::ops::Add<Colour> for Colour {
    type Output = Colour;

    /// The two colours blended by adding their intensities.
    fn add(self, rhs: Colour) -> (r: Colour)
        ensures
            r@ == self@.sum(rhs@),
    {
        Colour { r: self.r + rhs.r, g: self.g + rhs.g, b: self.b + rhs.b }
    }
}

impl AddSpecImpl<Colour> for Colour {
    open spec fn obeys_add_spec() -> bool {
        true
    }

    open spec fn add_req(self, rhs: Colour) -> bool {
        true
    }

    open spec fn add_spec(self, rhs: Colour) -> Colour {
        Colour::of(self@.sum(rhs@))
    }
}

impl core::ops::Sub<Colour> for Colour {
    type Output = Colour;

    /// The intensities of `rhs` taken away from this colour's.
    fn sub(self, rhs: Colour) -> (r: Colour)
        ensures
            r@ == self@.difference(rhs@),
    {
        Colour { r: self.r - rhs.r, g: self.g - rhs.g, b: self.b - rhs.b }
    }
}

impl SubSpecImpl<Colour> for Colour {
    open spec fn obeys_sub_spec() -> bool {
        true
    }

    open spec fn sub_req(self, rhs: Colour) -> bool {
        true
    }

    open spec fn sub_spec(self, rhs: Colour) -> Colour {
        Colour::of(self@.difference(rhs@))
    }
}

impl core::ops::Mul<Colour> for Colour {
    type Output = Colour;

    /// The colour tinted by `rhs`: the intensities multiplied pair by pair.
    fn mul(self, rhs: Colour) -> (r: Colour)
        ensures
            r@ == self@.product(rhs@),
    {
        Colour { r: self.r * rhs.r, g: self.g * rhs.g, b: self.b * rhs.b }
    }
}

impl MulSpecImpl<Colour> for Colour {
    open spec fn obeys_mul_spec() -> bool {
        true
    }

    open spec fn mul_req(self, rhs: Colour) -> bool {
        true
    }

    open spec fn mul_spec(self, rhs: Colour) -> Colour {
        Colour::of(self@.product(rhs@))
    }
}

impl core::ops::Mul<Scalar> for Colour {
    type Output = Colour;

    /// The colour with every intensity multiplied by `rhs`.
    fn mul(self, rhs: Scalar) -> (r: Colour)
        ensures
            r@ == self@.times(rhs@),
    {
        Colour { r: self.r * rhs, g: self.g * rhs, b: self.b * rhs }
    }
}

impl MulSpecImpl<Scalar> for Colour {
    open spec fn obeys_mul_spec() -> bool {
        true
    }

    open spec fn mul_req(self, rhs: Scalar) -> bool {
        true
    }

    open spec fn mul_spec(self, rhs: Scalar) -> Colour {
        Colour::of(self@.times(rhs@))
    }
}

} // verus!
