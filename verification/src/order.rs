//! Comparison of binary64 numbers.

use crate::dyadic::{lemma_scaled_ordered, lemma_scaled_twice};
use crate::rounding::{scaled, HIDDEN_BIT, SIGNIFICAND_LIMIT};
use crate::scalar::{lemma_parts, Scalar, SIGN_BIT};
use crate::value::Value;
use vstd::arithmetic::power2::*;
use vstd::prelude::*;
use vstd::std_specs::cmp::PartialEqSpecImpl;

verus! {

/// Magnitudes are ordered as their bit fields are: a smaller exponent, or
/// the same exponent with a smaller significand, is a smaller magnitude.
pub proof fn lemma_field_order(s1: nat, e1: nat, s2: nat, e2: nat)
    requires
        s1 < SIGNIFICAND_LIMIT,
        s2 < SIGNIFICAND_LIMIT,
        e1 > 0 ==> s1 >= HIDDEN_BIT,
        e2 > 0 ==> s2 >= HIDDEN_BIT,
        e1 * HIDDEN_BIT + s1 < e2 * HIDDEN_BIT + s2,
    ensures
        scaled(s1, e1) < scaled(s2, e2),
{
    if e1 == e2 {
        lemma_scaled_ordered(s1, s2, e1);
    } else {
        assert(e1 < e2) by (nonlinear_arith)
            requires
                e1 != e2,
                s1 < 2 * HIDDEN_BIT,
                s2 < 2 * HIDDEN_BIT,
                e1 > 0 ==> s1 >= HIDDEN_BIT,
                e1 * HIDDEN_BIT + s1 < e2 * HIDDEN_BIT + s2,
        ;
        lemma2_to64();
        // s1 * 2^e1 < 2^53 * 2^e1 == 2^52 * 2^(e1 + 1) <= 2^52 * 2^e2 <= s2 * 2^e2
        lemma_scaled_ordered(s1, SIGNIFICAND_LIMIT as nat, e1);
        lemma_scaled_twice(HIDDEN_BIT as nat, 1, e1);
        assert(scaled(HIDDEN_BIT as nat, 1) == SIGNIFICAND_LIMIT);
        lemma_scaled_twice(HIDDEN_BIT as nat, e1 + 1, (e2 - e1 - 1) as nat);
        lemma_pow2_pos((e2 - e1 - 1) as nat);
        let x = scaled(HIDDEN_BIT as nat, e1 + 1);
        let p = pow2((e2 - e1 - 1) as nat);
        assert(x <= x * p) by (nonlinear_arith)
            requires
                p > 0,
                x >= 0,
        ;
        lemma_scaled_ordered(HIDDEN_BIT as nat, s2, e2);
    }
}

/// Two finite numbers have their magnitudes in the order of their
/// magnitude fields.
pub proof fn lemma_magnitude_order(a: Scalar, b: Scalar)
    requires
        a@ is Finite,
        b@ is Finite,
    ensures
        a.magnitude_field() < b.magnitude_field() <==> a@.units() < b@.units(),
        a.magnitude_field() == b.magnitude_field() <==> a@.units() == b@.units(),
{
    lemma_parts(a);
    lemma_parts(b);
    let (s1, e1) = (a.significand(), a.exponent());
    let (s2, e2) = (b.significand(), b.exponent());
    if a.magnitude_field() < b.magnitude_field() {
        lemma_field_order(s1, e1, s2, e2);
    } else if a.magnitude_field() > b.magnitude_field() {
        lemma_field_order(s2, e2, s1, e1);
    } else {
        assert(e1 == e2 && s1 == s2) by (nonlinear_arith)
            requires
                s1 < 2 * HIDDEN_BIT,
                s2 < 2 * HIDDEN_BIT,
                e1 > 0 ==> s1 >= HIDDEN_BIT,
                e2 > 0 ==> s2 >= HIDDEN_BIT,
                e1 * HIDDEN_BIT + s1 == e2 * HIDDEN_BIT + s2,
        ;
    }
}

/// Only the zeros have an empty magnitude field.
pub proof fn lemma_zero_field(a: Scalar)
    ensures
        a.magnitude_field() == 0 <==> a@.is_zero(),
{
    if a@ is Finite {
        let zero = Scalar { bits: 0 };
        assert(zero.magnitude_field() == 0);
        assert(zero@ == Value::zero());
        lemma_magnitude_order(a, zero);
    }
}

impl Scalar {
    /// Whether this number is strictly below the other. Nothing is below or
    /// above a pattern that is not a number.
    pub fn less_than(self, other: Scalar) -> (r: bool)
        ensures
            r == self@.less_than(other@),
    {
        if self.is_nan() || other.is_nan() {
            return false;
        }
        proof {
            lemma_zero_field(self);
            lemma_zero_field(other);
            if self@ is Finite && other@ is Finite {
                lemma_magnitude_order(self, other);
            }
        }
        let a = self.bits % SIGN_BIT;
        let b = other.bits % SIGN_BIT;
        if self.is_sign_negative() {
            if other.is_sign_negative() {
                a > b
            } else {
                a != 0 || b != 0
            }
        } else {
            if other.is_sign_negative() {
                false
            } else {
                a < b
            }
        }
    }

    /// Whether this number is below or equal to the other.
    pub fn at_most(self, other: Scalar) -> (r: bool)
        ensures
            r == (self@.less_than(other@) || self@.same_number(other@)),
    {
        self.less_than(other) || self == other
    }
}

impl PartialEq for Scalar {
    /// Whether the two are equal as numbers: the two zeros are, and a
    /// pattern that is not a number equals nothing.
    fn eq(&self, other: &Scalar) -> (r: bool) {
        if self.is_nan() || other.is_nan() {
            return false;
        }
        proof {
            lemma_zero_field(*self);
            lemma_zero_field(*other);
            if self@ is Finite && other@ is Finite {
                lemma_magnitude_order(*self, *other);
            }
        }
        self.bits == other.bits || (self.bits % SIGN_BIT == 0 && other.bits % SIGN_BIT == 0)
    }
}

impl PartialEqSpecImpl for Scalar {
    open spec fn obeys_eq_spec() -> bool {
        true
    }

    open spec fn eq_spec(&self, other: &Scalar) -> bool {
        self@.same_number(other@)
    }
}

} // verus!
