//! Multiplication of binary64 numbers.

use crate::dyadic::round_dyadic;
use crate::rounding::{scaled, SIGNIFICAND_LIMIT};
use crate::scalar::Scalar;
use vstd::arithmetic::power2::*;
use vstd::prelude::*;
use vstd::std_specs::ops::MulSpecImpl;

verus! {

/// The product of two scaled magnitudes is the product of the significands,
/// scaled by both exponents.
pub proof fn lemma_scaled_product(a: nat, i: nat, b: nat, j: nat)
    ensures
        scaled(a, i) * scaled(b, j) == scaled(a * b, i + j),
{
    lemma_pow2_adds(i, j);
    let p = pow2(i);
    let q = pow2(j);
    assert((a * p) * (b * q) == (a * b) * (p * q)) by (nonlinear_arith);
}

impl core::ops::Mul<Scalar> for Scalar {
    type Output = Scalar;

    /// The product of the two numbers, rounded to nearest.
    fn mul(self, rhs: Scalar) -> (r: Scalar)
        ensures
            r@ == self@.product(rhs@),
    {
        if self.is_nan() || rhs.is_nan() {
            return Scalar::nan();
        }
        let negative = self.is_sign_negative() != rhs.is_sign_negative();
        if self.is_infinite() {
            if rhs.is_zero() {
                Scalar::nan()
            } else {
                Scalar::infinity(negative)
            }
        } else if rhs.is_infinite() {
            if self.is_zero() {
                Scalar::nan()
            } else {
                Scalar::infinity(negative)
            }
        } else {
            let (a_sig, a_exp) = self.parts();
            let (b_sig, b_exp) = rhs.parts();
            proof {
                lemma_scaled_product(a_sig as nat, a_exp as nat, b_sig as nat, b_exp as nat);
                assert(a_sig * b_sig < SIGNIFICAND_LIMIT * SIGNIFICAND_LIMIT) by (nonlinear_arith)
                    requires
                        a_sig < SIGNIFICAND_LIMIT,
                        b_sig < SIGNIFICAND_LIMIT,
                ;
            }
            let c: u128 = (a_sig as u128) * (b_sig as u128);
            round_dyadic(negative, c, a_exp + b_exp, 1074)
        }
    }
}

impl MulSpecImpl<Scalar> for Scalar {
    open spec fn obeys_mul_spec() -> bool {
        true
    }

    open spec fn mul_req(self, rhs: Scalar) -> bool {
        true
    }

    open spec fn mul_spec(self, rhs: Scalar) -> Scalar {
        Scalar::of(self@.product(rhs@))
    }
}

} // verus!
