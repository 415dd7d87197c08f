//! Square roots of binary64 numbers.

use crate::dyadic::{lemma_finite_range, lemma_scaled_twice, pow2_u128, round_pack};
use crate::quotient::normalised;
use crate::rounding::{
    is_floor_root, lemma_round_even_root_eval, scaled, HIDDEN_BIT, SIGNIFICAND_LIMIT,
};
use crate::scalar::{lemma_canonical, Scalar};
use vstd::arithmetic::power2::*;
use vstd::prelude::*;

verus! {

/// The whole part of the square root of a number below `2^106`.
pub(crate) fn floor_root_u128(w: u128) -> (m: u64)
    requires
        w < 0x400_0000_0000_0000_0000_0000_0000,
    ensures
        is_floor_root(w as nat, m as nat),
        m < SIGNIFICAND_LIMIT,
{
    let mut lo: u64 = 0;
    let mut hi: u64 = SIGNIFICAND_LIMIT;
    assert(lo * lo <= w < hi * hi) by (nonlinear_arith)
        requires
            lo == 0,
            hi == 0x20_0000_0000_0000,
            w < 0x400_0000_0000_0000_0000_0000_0000,
    ;
    while hi - lo > 1
        invariant
            lo < hi <= SIGNIFICAND_LIMIT,
            lo * lo <= w < hi * hi,
        decreases hi - lo,
    {
        let mid = lo + (hi - lo) / 2;
        assert(mid * mid < 0x400_0000_0000_0000_0000_0000_0000) by (nonlinear_arith)
            requires
                mid < 0x20_0000_0000_0000,
        ;
        if (mid as u128) * (mid as u128) <= w {
            lo = mid;
        } else {
            hi = mid;
        }
    }
    lo
}

impl Scalar {
    /// The square root of the number, rounded to nearest.
    pub fn sqrt(self) -> (r: Scalar)
        ensures
            r@ == self@.root(),
            r == Scalar::of(r@),
    {
        if self.is_nan() {
            return Scalar::nan();
        }
        if self.is_zero() {
            proof {
                lemma_canonical(self);
            }
            return self;
        }
        if self.is_sign_negative() {
            return Scalar::nan();
        }
        if self.is_infinite() {
            return Scalar::infinity(false);
        }
        let (sig, exp) = self.parts();
        proof {
            if sig == 0 {
                assert(scaled(0, exp as nat) == 0);
            }
        }
        let (a, places) = normalised(sig);
        // The magnitude times 2^1074 is `a * 2^all`.
        let all = exp + 1074 - places;
        let lead: u64 = if all % 2 == 0 {
            52
        } else {
            53
        };
        let k = (all - lead) / 2;
        proof {
            lemma2_to64();
            lemma2_to64_rest();
            lemma_pow2_adds(52, 52);
            lemma_pow2_adds(53, 53);
            assert(a * pow2(lead as nat) < 0x400_0000_0000_0000_0000_0000_0000)
                by (nonlinear_arith)
                requires
                    a < 0x20_0000_0000_0000,
                    pow2(lead as nat) <= 0x20_0000_0000_0000,
            ;
        }
        let w: u128 = (a as u128) * pow2_u128(lead);
        let m = floor_root_u128(w);
        let up = w > (m as u128) * (m as u128) + (m as u128);
        proof {
            assert(w >= 0x10_0000_0000_0000 * 0x10_0000_0000_0000) by (nonlinear_arith)
                requires
                    w == a * pow2(lead as nat),
                    a >= 0x10_0000_0000_0000,
                    pow2(lead as nat) >= 0x10_0000_0000_0000,
            ;
            assert(m >= HIDDEN_BIT) by (nonlinear_arith)
                requires
                    w < (m + 1) * (m + 1),
                    w >= 0x10_0000_0000_0000 * 0x10_0000_0000_0000,
                    HIDDEN_BIT == 0x10_0000_0000_0000,
            ;
            lemma_round_even_root_eval(w as nat, k as nat, m as nat);
            // self@.units() * 2^1074 == w * (2^k * 2^k)
            lemma_pow2_adds(k as nat, k as nat);
            lemma_scaled_twice(sig as nat, exp as nat, 1074);
            lemma_scaled_twice(sig as nat, places as nat, lead as nat);
            lemma_scaled_twice(sig as nat, (places + lead) as nat, (2 * k) as nat);
            assert(self@.units() * pow2(1074) == w * (pow2(k as nat) * pow2(k as nat)));
            // The root is never out of range.
            lemma_finite_range(m as nat, k as nat);
            if up && m + 1 == SIGNIFICAND_LIMIT {
                lemma_scaled_twice(HIDDEN_BIT as nat, 1, k as nat);
                assert(scaled(HIDDEN_BIT as nat, 1) == SIGNIFICAND_LIMIT);
                lemma_finite_range(HIDDEN_BIT as nat, (k + 1) as nat);
            } else if up {
                lemma_finite_range((m + 1) as nat, k as nat);
            }
        }
        round_pack(false, m, up, k)
    }
}

} // verus!
