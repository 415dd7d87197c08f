//! Addition of binary64 numbers.

use crate::dyadic::{
    lemma_finite_range, lemma_scaled_ordered, lemma_scaled_twice, pow2_u128, round_dyadic,
    lemma_pow2_fits,
};
use crate::rounding::{
    lemma_round_even_eval, round_even, scaled, HIDDEN_BIT, SIGNIFICAND_LIMIT,
};
use crate::scalar::Scalar;
use vstd::arithmetic::div_mod::*;
use vstd::arithmetic::power2::*;
use core::ops::Neg;
use vstd::prelude::*;
use vstd::std_specs::ops::{AddSpecImpl, SubSpecImpl};

verus! {

/// A normal magnitude absorbs a term below a quarter of its spacing, added
/// or taken away: the sum rounds back to the magnitude itself.
pub proof fn lemma_absorb(s: nat, e: nat, x: nat)
    requires
        HIDDEN_BIT <= s < SIGNIFICAND_LIMIT,
        e >= 2,
        x < pow2((e - 2) as nat),
    ensures
        x < scaled(s, e),
        round_even(scaled(s, e) + x, 1) == scaled(s, e),
        round_even((scaled(s, e) - x) as nat, 1) == scaled(s, e),
{
    let p = pow2(e);
    let half = pow2((e - 1) as nat);
    let quarter = pow2((e - 2) as nat);
    lemma_pow2_unfold(e);
    lemma_pow2_unfold((e - 1) as nat);
    lemma_pow2_pos((e - 2) as nat);
    let m = scaled(s, e);
    assert(m == s * p);
    assert(s * p >= p) by (nonlinear_arith)
        requires
            s >= 1,
            p >= 0,
    ;
    // Adding.
    let up = m + x;
    lemma_fundamental_div_mod_converse(up as int, p as int, s as int, x as int);
    assert(up * (1 * pow2(e)) == up * p);
    lemma_round_even_eval(up, 1, e, up, p);
    // Taking away.
    let down = (m - x) as nat;
    if x == 0 {
    } else if s > HIDDEN_BIT {
        assert(down == (s - 1) * p + (p - x)) by (nonlinear_arith)
            requires
                down == s * p - x,
        ;
        lemma_fundamental_div_mod_converse(down as int, p as int, s - 1, p - x);
        assert(down * (1 * pow2(e)) == down * p);
        lemma_round_even_eval(down, 1, e, down, p);
    } else {
        assert(down == (SIGNIFICAND_LIMIT - 1) * half + (half - x)) by (nonlinear_arith)
            requires
                down == s * p - x,
                s == HIDDEN_BIT,
                p == 2 * half,
        ;
        lemma_fundamental_div_mod_converse(
            down as int,
            half as int,
            SIGNIFICAND_LIMIT - 1,
            half - x,
        );
        assert(down * (1 * pow2((e - 1) as nat)) == down * half);
        lemma_round_even_eval(down, 1, (e - 1) as nat, down, half);
        lemma_scaled_twice(HIDDEN_BIT as nat, 1, (e - 1) as nat);
        lemma2_to64();
        assert(scaled(HIDDEN_BIT as nat, 1) == SIGNIFICAND_LIMIT);
    }
}

/// The sum of two finite numbers, the first with the larger exponent.
fn add_ordered(hi: Scalar, lo: Scalar) -> (r: Scalar)
    requires
        hi@ is Finite,
        lo@ is Finite,
        hi.exponent_field() >= lo.exponent_field(),
    ensures
        r@ == hi@.sum(lo@),
        r == Scalar::of(r@),
{
    let hi_negative = hi.is_sign_negative();
    let lo_negative = lo.is_sign_negative();
    let (hi_sig, hi_exp) = hi.parts();
    let (lo_sig, lo_exp) = lo.parts();
    let ghost hi_units = scaled(hi_sig as nat, hi_exp as nat);
    let ghost lo_units = scaled(lo_sig as nat, lo_exp as nat);
    proof {
        lemma2_to64();
        lemma2_to64_rest();
    }
    let gap = hi_exp - lo_exp;
    if gap > 60 {
        // The terms are so far apart that the smaller one is rounded away.
        proof {
            // The smaller term is below a quarter of the larger one's spacing.
            lemma_scaled_ordered(lo_sig as nat, SIGNIFICAND_LIMIT as nat, lo_exp as nat);
            lemma_scaled_twice(1, 53, lo_exp as nat);
            assert(scaled(1, 53) == SIGNIFICAND_LIMIT);
            assert(scaled(1, (53 + lo_exp) as nat) == pow2((53 + lo_exp) as nat));
            lemma_pow2_strictly_increases((53 + lo_exp) as nat, (hi_exp - 2) as nat);
            lemma_absorb(hi_sig as nat, hi_exp as nat, lo_units);
            lemma_finite_range(hi_sig as nat, hi_exp as nat);
        }
        return Scalar::pack(hi_negative, hi_sig, hi_exp);
    }
    proof {
        lemma_pow2_fits(gap as nat);
        lemma_pow2_strictly_increases(gap as nat, 61);
        lemma_scaled_ordered(hi_sig as nat, SIGNIFICAND_LIMIT as nat, gap as nat);
        lemma_scaled_ordered(SIGNIFICAND_LIMIT as nat, SIGNIFICAND_LIMIT as nat, gap as nat);
        lemma_scaled_twice(hi_sig as nat, gap as nat, lo_exp as nat);
        lemma_pow2_pos(gap as nat);
        assert(scaled(SIGNIFICAND_LIMIT as nat, gap as nat) < SIGNIFICAND_LIMIT * pow2(61))
            by (nonlinear_arith)
            requires
                scaled(SIGNIFICAND_LIMIT as nat, gap as nat) == SIGNIFICAND_LIMIT * pow2(
                    gap as nat,
                ),
                pow2(gap as nat) < pow2(61),
        ;
    }
    // Both terms as multiples of `2^lo_exp`: their sum and their difference
    // are exact in 128 bits.
    let wide: u128 = (hi_sig as u128) * pow2_u128(gap);
    let narrow: u128 = lo_sig as u128;
    assert(hi_units == scaled(wide as nat, lo_exp as nat));
    proof {
        let p = pow2(lo_exp as nat);
        assert((wide + narrow) * p == wide * p + narrow * p) by (nonlinear_arith);
        assert((wide - narrow) * p == wide * p - narrow * p) by (nonlinear_arith);
        assert((narrow - wide) * p == narrow * p - wide * p) by (nonlinear_arith);
        lemma_scaled_ordered(wide as nat, narrow as nat, lo_exp as nat);
        lemma_scaled_ordered(narrow as nat, wide as nat, lo_exp as nat);
        assert(pow2(0) == 1);
    }
    if hi_negative == lo_negative {
        let total = wide + narrow;
        if total == 0 {
            proof {
                assert(scaled(0, 0) == 0);
                assert(hi_units == 0 && lo_units == 0) by (nonlinear_arith)
                    requires
                        hi_units == wide * pow2(lo_exp as nat),
                        lo_units == narrow * pow2(lo_exp as nat),
                        wide == 0,
                        narrow == 0,
                ;
            }
            Scalar::pack(hi_negative, 0, 0)
        } else {
            proof {
                lemma_pow2_pos(lo_exp as nat);
                assert(scaled(total as nat, lo_exp as nat) > 0) by (nonlinear_arith)
                    requires
                        scaled(total as nat, lo_exp as nat) == total * pow2(lo_exp as nat),
                        total > 0,
                        pow2(lo_exp as nat) > 0,
                ;
            }
            round_dyadic(hi_negative, total, lo_exp, 0)
        }
    } else if wide > narrow {
        round_dyadic(hi_negative, wide - narrow, lo_exp, 0)
    } else if wide < narrow {
        round_dyadic(lo_negative, narrow - wide, lo_exp, 0)
    } else {
        proof {
            assert(scaled(0, 0) == 0);
        }
        Scalar::pack(false, 0, 0)
    }
}

impl core::ops::Add<Scalar> for Scalar {
    type Output = Scalar;

    /// The sum of the two numbers, rounded to nearest.
    fn add(self, rhs: Scalar) -> (r: Scalar)
        ensures
            r@ == self@.sum(rhs@),
    {
        if self.is_nan() || rhs.is_nan() {
            Scalar::nan()
        } else if self.is_infinite() {
            if rhs.is_infinite() && self.is_sign_negative() != rhs.is_sign_negative() {
                Scalar::nan()
            } else {
                Scalar::infinity(self.is_sign_negative())
            }
        } else if rhs.is_infinite() {
            Scalar::infinity(rhs.is_sign_negative())
        } else if self.exponent_bits() >= rhs.exponent_bits() {
            add_ordered(self, rhs)
        } else {
            add_ordered(rhs, self)
        }
    }
}

impl AddSpecImpl<Scalar> for Scalar {
    open spec fn obeys_add_spec() -> bool {
        true
    }

    open spec fn add_req(self, rhs: Scalar) -> bool {
        true
    }

    open spec fn add_spec(self, rhs: Scalar) -> Scalar {
        Scalar::of(self@.sum(rhs@))
    }
}

impl core::ops::Sub<Scalar> for Scalar {
    type Output = Scalar;

    /// The difference of the two numbers, rounded to nearest.
    fn sub(self, rhs: Scalar) -> (r: Scalar)
        ensures
            r@ == self@.difference(rhs@),
    {
        self + rhs.neg()
    }
}

impl SubSpecImpl<Scalar> for Scalar {
    open spec fn obeys_sub_spec() -> bool {
        true
    }

    open spec fn sub_req(self, rhs: Scalar) -> bool {
        true
    }

    open spec fn sub_spec(self, rhs: Scalar) -> Scalar {
        Scalar::of(self@.difference(rhs@))
    }
}

} // verus!
