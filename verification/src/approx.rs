//! Approximate equality of binary64 numbers.

use crate::scalar::{lemma_parts, Scalar};
use crate::value::Value;
use vstd::arithmetic::mul::*;
use vstd::arithmetic::power2::*;
use vstd::prelude::*;

verus! {

/// The bit pattern of the tolerance, `0.00001`.
pub const EPSILON_BITS: u64 = 0x3EE4_F8B5_88E3_68F1;

/// The tolerance pattern stands for the tolerance, which is positive.
pub proof fn lemma_epsilon()
    ensures
        (Scalar { bits: EPSILON_BITS })@ == Value::epsilon(),
        Value::epsilon().units() > 0,
{
    let e = Scalar { bits: EPSILON_BITS };
    assert(e.magnitude_field() == EPSILON_BITS);
    assert(e.exponent_field() == 1006);
    assert(e.fraction_field() == 0x4_F8B5_88E3_68F1);
    lemma_parts(e);
    lemma_pow2_pos(1005);
    lemma_mul_strictly_positive(0x14_F8B5_88E3_68F1, pow2(1005) as int);
}

/// A finite number is approximately equal to itself.
pub proof fn lemma_approx_eq_reflexive(v: Value)
    requires
        v is Finite,
    ensures
        v.approx_eq(v),
{
    lemma_epsilon();
}

/// The tolerance as a number.
pub fn epsilon() -> (r: Scalar)
    ensures
        r@ == Value::epsilon(),
        r.bits == EPSILON_BITS,
{
    proof {
        lemma_epsilon();
    }
    Scalar { bits: EPSILON_BITS }
}

/// Whether the magnitude of `a - b` is below the tolerance.
pub fn approx_eq(a: Scalar, b: Scalar) -> (r: bool)
    ensures
        r == a@.approx_eq(b@),
{
    (a - b).abs().less_than(epsilon())
}

} // verus!
