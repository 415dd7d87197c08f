//! Division of binary64 numbers.

use crate::dyadic::{
    bit_length, lemma_div_between, lemma_overflow_units, lemma_pow2_fits, lemma_scaled_ordered,
    lemma_scaled_twice, pow2_u128, round_pack, rounds_up_at,
};
use crate::product::lemma_scaled_product;
use crate::rounding::{
    lemma_round_even_eval, lemma_same_rounding, round_even, scaled, HIDDEN_BIT,
    SIGNIFICAND_LIMIT,
};
use crate::scalar::Scalar;
use crate::value::Value;
use vstd::arithmetic::div_mod::*;
use vstd::arithmetic::mul::*;
use vstd::arithmetic::power2::*;
use vstd::prelude::*;
use vstd::std_specs::ops::DivSpecImpl;

verus! {

/// Nothing rounds to nothing.
pub proof fn lemma_round_even_zero(d: nat)
    requires
        d > 0,
    ensures
        round_even(0, d) == 0,
{
    assert(0nat * (d * pow2(0)) == 0nat * 1);
    lemma_round_even_eval(0, d, 0, 0, 1);
    assert(scaled(0, 0) == 0);
}

/// A nonzero significand moved up until its leading digit is the hidden
/// bit, with the number of places it was moved.
pub(crate) fn normalised(significand: u64) -> (r: (u64, u64))
    requires
        0 < significand < SIGNIFICAND_LIMIT,
    ensures
        HIDDEN_BIT <= r.0 < SIGNIFICAND_LIMIT,
        r.1 <= 52,
        r.0 == scaled(significand as nat, r.1 as nat),
{
    let len = bit_length(significand as u128);
    proof {
        lemma2_to64();
        lemma2_to64_rest();
        if len > 53 {
            lemma_pow2_strictly_increases(53, len as nat);
            if len > 54 {
                lemma_pow2_strictly_increases(53, (len - 1) as nat);
            }
        }
    }
    let places = 53 - len;
    proof {
        lemma_pow2_fits(places as nat);
        lemma_scaled_ordered(significand as nat, pow2(len as nat), places as nat);
        lemma_scaled_ordered(pow2((len - 1) as nat), significand as nat, places as nat);
        lemma_pow2_adds(len as nat, places as nat);
        lemma_pow2_adds((len - 1) as nat, places as nat);
    }
    let moved = (significand as u128) * pow2_u128(places);
    (moved as u64, places)
}

/// The quotient of two normalised significands, scaled by `2^up / 2^down`
/// and rounded to nearest.
fn divide_normalised(negative: bool, a: u64, b: u64, up_exp: u64, down_exp: u64) -> (r: Scalar)
    requires
        HIDDEN_BIT <= a < SIGNIFICAND_LIMIT,
        HIDDEN_BIT <= b < SIGNIFICAND_LIMIT,
        up_exp < 0x2000,
        down_exp < 0x2000,
    ensures
        r@ == Value::rounded(
            negative,
            scaled(a as nat, up_exp as nat),
            scaled(b as nat, down_exp as nat),
        ),
        r == Scalar::of(r@),
{
    let ghost n = scaled(a as nat, up_exp as nat);
    let ghost d = scaled(b as nat, down_exp as nat);
    let lead: u64 = if a >= b {
        52
    } else {
        53
    };
    proof {
        lemma2_to64();
        lemma2_to64_rest();
        lemma_pow2_pos(down_exp as nat);
        lemma_mul_strictly_positive(b as int, pow2(down_exp as nat) as int);
        // With `lead` places more, the quotient has exactly 53 digits.
        let p = pow2(lead as nat);
        assert(HIDDEN_BIT * b <= a * p < SIGNIFICAND_LIMIT * b) by (nonlinear_arith)
            requires
                HIDDEN_BIT <= a < SIGNIFICAND_LIMIT,
                HIDDEN_BIT <= b < SIGNIFICAND_LIMIT,
                HIDDEN_BIT == 0x10_0000_0000_0000,
                SIGNIFICAND_LIMIT == 0x20_0000_0000_0000,
                a >= b ==> p == 0x10_0000_0000_0000,
                a < b ==> p == 0x20_0000_0000_0000,
        ;
    }
    if up_exp > down_exp + lead {
        let k = up_exp - down_exp - lead;
        let num: u128 = (a as u128) * pow2_u128(lead);
        let den: u128 = b as u128;
        let floor = num / den;
        let rem = num % den;
        let up = rounds_up_at(rem, den, floor);
        proof {
            lemma_div_between(num as nat, den as nat, HIDDEN_BIT as nat, SIGNIFICAND_LIMIT as nat);
            // num * (d * 2^k) == n * den
            lemma_scaled_twice(b as nat, down_exp as nat, k as nat);
            lemma_scaled_product(a as nat, lead as nat, b as nat, (down_exp + k) as nat);
            lemma_scaled_product(a as nat, up_exp as nat, b as nat, 0);
            assert(scaled(b as nat, 0) == b);
            lemma_round_even_eval(n, d, k as nat, num as nat, den as nat);
        }
        round_pack(negative, floor as u64, up, k)
    } else if up_exp >= down_exp {
        let shift = up_exp - down_exp;
        proof {
            lemma_pow2_fits(shift as nat);
            if shift < lead {
                lemma_pow2_strictly_increases(shift as nat, lead as nat);
            }
            lemma_scaled_ordered(1, pow2(lead as nat), 0);
            assert(a * pow2(shift as nat) <= a * pow2(lead as nat)) by (nonlinear_arith)
                requires
                    pow2(shift as nat) <= pow2(lead as nat),
                    a >= 0,
            ;
        }
        let num: u128 = (a as u128) * pow2_u128(shift);
        let den: u128 = b as u128;
        let floor = num / den;
        let rem = num % den;
        let up = rounds_up_at(rem, den, floor);
        proof {
            lemma_div_between(num as nat, den as nat, 0, SIGNIFICAND_LIMIT as nat);
            lemma_scaled_twice(b as nat, down_exp as nat, 0);
            lemma_scaled_product(a as nat, shift as nat, b as nat, down_exp as nat);
            lemma_scaled_product(a as nat, up_exp as nat, b as nat, 0);
            assert(scaled(b as nat, 0) == b);
            assert(d * pow2(0) == d);
            lemma_round_even_eval(n, d, 0, num as nat, den as nat);
        }
        round_pack(negative, floor as u64, up, 0)
    } else {
        let shift = down_exp - up_exp;
        if shift >= 2 {
            proof {
                let den = scaled(b as nat, shift as nat);
                lemma_pow2_unfold(2);
                if shift > 2 {
                    lemma_pow2_strictly_increases(2, shift as nat);
                }
                assert(2 * a < b * pow2(shift as nat)) by (nonlinear_arith)
                    requires
                        a < SIGNIFICAND_LIMIT,
                        HIDDEN_BIT <= b,
                        SIGNIFICAND_LIMIT == 2 * HIDDEN_BIT,
                        pow2(shift as nat) >= 4,
                ;
                lemma_small_mod(a as nat, den);
                lemma_basic_div(a as int, den as int);
                lemma_scaled_product(a as nat, 0, b as nat, down_exp as nat);
                lemma_scaled_product(a as nat, up_exp as nat, b as nat, shift as nat);
                assert(scaled(a as nat, 0) == a);
                assert(d * pow2(0) == d);
                lemma_round_even_eval(n, d, 0, a as nat, den);
                lemma_overflow_units();
                assert(scaled(0, 0) == 0);
            }
            Scalar::pack(negative, 0, 0)
        } else {
            let num: u128 = a as u128;
            let den: u128 = (b as u128) * 2;
            let floor = num / den;
            let rem = num % den;
            let up = rounds_up_at(rem, den, floor);
            proof {
                lemma_div_between(num as nat, den as nat, 0, SIGNIFICAND_LIMIT as nat);
                assert(den == scaled(b as nat, 1));
                lemma_scaled_product(a as nat, 0, b as nat, down_exp as nat);
                lemma_scaled_product(a as nat, up_exp as nat, b as nat, 1);
                assert(scaled(a as nat, 0) == a);
                assert(d * pow2(0) == d);
                lemma_round_even_eval(n, d, 0, num as nat, den as nat);
            }
            round_pack(negative, floor as u64, up, 0)
        }
    }
}

impl core::ops::Div<Scalar> for Scalar {
    type Output = Scalar;

    /// The quotient of the two numbers, rounded to nearest. Division by
    /// zero gives an infinity, or no number when the dividend is zero too.
    fn div(self, rhs: Scalar) -> (r: Scalar)
        ensures
            r@ == self@.quotient(rhs@),
    {
        if self.is_nan() || rhs.is_nan() {
            return Scalar::nan();
        }
        let negative = self.is_sign_negative() != rhs.is_sign_negative();
        if self.is_infinite() {
            if rhs.is_infinite() {
                Scalar::nan()
            } else {
                Scalar::infinity(negative)
            }
        } else if rhs.is_infinite() {
            proof {
                assert(scaled(0, 0) == 0);
            }
            Scalar::pack(negative, 0, 0)
        } else if rhs.is_zero() {
            if self.is_zero() {
                Scalar::nan()
            } else {
                Scalar::infinity(negative)
            }
        } else if self.is_zero() {
            proof {
                assert(scaled(0, 0) == 0);
                assert(0 * pow2(1074) == 0);
                lemma_round_even_zero(rhs@.units());
                lemma_overflow_units();
            }
            Scalar::pack(negative, 0, 0)
        } else {
            let (a_sig, a_exp) = self.parts();
            let (b_sig, b_exp) = rhs.parts();
            proof {
                assert(a_sig != 0) by {
                    if a_sig == 0 {
                        assert(scaled(0, a_exp as nat) == 0);
                    }
                }
                assert(b_sig != 0) by {
                    if b_sig == 0 {
                        assert(scaled(0, b_exp as nat) == 0);
                    }
                }
            }
            let (a, a_places) = normalised(a_sig);
            let (b, b_places) = normalised(b_sig);
            let up_exp = a_exp + b_places + 1074;
            let down_exp = a_places + b_exp;
            proof {
                let a_units = scaled(a_sig as nat, a_exp as nat);
                let b_units = scaled(b_sig as nat, b_exp as nat);
                // a_units * 2^1074 / b_units == a * 2^up_exp / (b * 2^down_exp)
                let n1 = scaled(a as nat, up_exp as nat);
                let d1 = scaled(b as nat, down_exp as nat);
                let n2 = a_units * pow2(1074);
                lemma_scaled_twice(a_sig as nat, a_places as nat, up_exp as nat);
                lemma_scaled_twice(b_sig as nat, b_places as nat, down_exp as nat);
                lemma_scaled_twice(a_sig as nat, a_exp as nat, 1074);
                lemma_scaled_product(
                    a_sig as nat,
                    (a_places + up_exp) as nat,
                    b_sig as nat,
                    b_exp as nat,
                );
                lemma_scaled_product(
                    a_sig as nat,
                    (a_exp + 1074) as nat,
                    b_sig as nat,
                    (b_places + down_exp) as nat,
                );
                assert(n1 * b_units == n2 * d1);
                lemma_pow2_pos(b_exp as nat);
                lemma_pow2_pos(down_exp as nat);
                lemma_mul_strictly_positive(b_sig as int, pow2(b_exp as nat) as int);
                lemma_mul_strictly_positive(b as int, pow2(down_exp as nat) as int);
                lemma_same_rounding(n1, d1, n2, b_units);
            }
            divide_normalised(negative, a, b, up_exp, down_exp)
        }
    }
}

impl DivSpecImpl<Scalar> for Scalar {
    open spec fn obeys_div_spec() -> bool {
        true
    }

    open spec fn div_req(self, rhs: Scalar) -> bool {
        true
    }

    open spec fn div_spec(self, rhs: Scalar) -> Scalar {
        Scalar::of(self@.quotient(rhs@))
    }
}

} // verus!
