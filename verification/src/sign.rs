//! Negation and absolute value of binary64 numbers.

use crate::scalar::{lemma_canonical, Scalar, SIGN_BIT};
use vstd::prelude::*;
use vstd::std_specs::ops::NegSpecImpl;

verus! {

impl core::ops::Neg for Scalar {
    type Output = Scalar;

    /// The number with the opposite sign.
    fn neg(self) -> (r: Scalar)
        ensures
            r@ == self@.negated(),
    {
        if self.is_nan() {
            Scalar::nan()
        } else {
            proof {
                let flipped = Scalar {
                    bits: if self.bits >= SIGN_BIT {
                        (self.bits - SIGN_BIT) as u64
                    } else {
                        (self.bits + SIGN_BIT) as u64
                    },
                };
                assert(flipped@ == self@.negated());
                lemma_canonical(flipped);
            }
            if self.bits >= SIGN_BIT {
                Scalar { bits: self.bits - SIGN_BIT }
            } else {
                Scalar { bits: self.bits + SIGN_BIT }
            }
        }
    }
}

impl NegSpecImpl for Scalar {
    open spec fn obeys_neg_spec() -> bool {
        true
    }

    open spec fn neg_req(self) -> bool {
        true
    }

    open spec fn neg_spec(self) -> Scalar {
        Scalar::of(self@.negated())
    }
}

impl Scalar {
    /// The number without its sign.
    pub fn abs(self) -> (r: Scalar)
        ensures
            r@ == self@.absolute(),
            r == Scalar::of(r@),
    {
        if self.is_nan() {
            Scalar::nan()
        } else {
            let r = Scalar { bits: self.bits % SIGN_BIT };
            proof {
                assert(r@ == self@.absolute());
                lemma_canonical(r);
            }
            r
        }
    }
}

} // verus!
