//! The coordinates that points and vectors share.

use crate::scalar::Scalar;
use vstd::prelude::*;

verus! {

/// Anything with three free coordinates and a fourth, homogeneous one that
/// its type fixes.
pub trait Tuple: Sized {
    /// The three free coordinates.
    spec fn coordinates(&self) -> (Scalar, Scalar, Scalar);

    /// The homogeneous coordinate of every value of the type.
    spec fn homogeneous() -> Scalar;

    /// The value with the given free coordinates.
    fn new(x: Scalar, y: Scalar, z: Scalar) -> (r: Self)
        ensures
            r.coordinates() == (x, y, z),
    ;

    /// The first coordinate.
    fn x(&self) -> (r: Scalar)
        ensures
            r == self.coordinates().0,
    ;

    /// The second coordinate.
    fn y(&self) -> (r: Scalar)
        ensures
            r == self.coordinates().1,
    ;

    /// The third coordinate.
    fn z(&self) -> (r: Scalar)
        ensures
            r == self.coordinates().2,
    ;

    /// The homogeneous coordinate.
    fn w(&self) -> (r: Scalar)
        ensures
            r == Self::homogeneous(),
    ;
}

} // verus!
