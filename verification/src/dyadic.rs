//! Rounding of a magnitude `c * 2^e` to a binary64 number.

use crate::rounding::{
    lemma_round_even_eval, rounded_at, rounds_up, scaled, HIDDEN_BIT, SIGNIFICAND_LIMIT,
};
use crate::scalar::{Scalar, MAX_EXPONENT};
use crate::value::Value;
use vstd::arithmetic::div_mod::*;
use vstd::arithmetic::mul::*;
use vstd::arithmetic::power2::*;
use vstd::prelude::*;
use vstd::std_specs::bits::u64_leading_zeros;

verus! {

/// Scaling by `2^a` and then by `2^b` scales by `2^(a + b)`.
pub proof fn lemma_scaled_twice(c: nat, a: nat, b: nat)
    ensures
        scaled(scaled(c, a), b) == scaled(c, a + b),
{
    lemma_pow2_adds(a, b);
    lemma_mul_is_associative(c as int, pow2(a) as int, pow2(b) as int);
}

/// Scaling keeps the order of magnitudes.
pub proof fn lemma_scaled_ordered(c1: nat, c2: nat, k: nat)
    ensures
        c1 <= c2 ==> scaled(c1, k) <= scaled(c2, k),
        c1 < c2 ==> scaled(c1, k) < scaled(c2, k),
{
    lemma_pow2_pos(k);
    let p = pow2(k);
    assert(c1 <= c2 ==> c1 * p <= c2 * p) by (nonlinear_arith)
        requires
            p > 0,
    ;
    assert(c1 < c2 ==> c1 * p < c2 * p) by (nonlinear_arith)
        requires
            p > 0,
    ;
}

/// The whole part of `c / d` lies between any bounds that `c` lies between
/// after they are multiplied by `d`.
pub proof fn lemma_div_between(c: nat, d: nat, lo: nat, hi: nat)
    requires
        d > 0,
        lo * d <= c < hi * d,
    ensures
        lo <= c / d < hi,
{
    lemma_fundamental_div_mod(c as int, d as int);
    let q = c / d;
    let r = c % d;
    assert(lo <= q < hi) by (nonlinear_arith)
        requires
            c == d * q + r,
            0 <= r < d,
            lo * d <= c < hi * d,
    ;
}

/// Powers of two up to `2^127` fit in 128 bits.
pub proof fn lemma_pow2_fits(k: nat)
    requires
        k < 128,
    ensures
        pow2(k) <= 0x8000_0000_0000_0000_0000_0000_0000_0000,
{
    lemma2_to64();
    lemma2_to64_rest();
    lemma_pow2_adds(63, 64);
    if k < 127 {
        lemma_pow2_strictly_increases(k, 127);
    }
}

/// Shifting one to the left by `k` places gives `2^k`.
pub proof fn lemma_shift_is_pow2(k: u64)
    requires
        k < 128,
    ensures
        1u128 << k == pow2(k as nat),
    decreases k,
{
    if k == 0 {
        assert(1u128 << 0u64 == 1u128) by (bit_vector);
        lemma2_to64();
    } else {
        let j = (k - 1) as u64;
        lemma_shift_is_pow2(j);
        lemma_pow2_unfold(k as nat);
        lemma_pow2_fits(k as nat);
        assert(1u128 << k == 2 * (1u128 << j)) by (bit_vector)
            requires
                0 < k < 128,
                j == k - 1,
        ;
    }
}

/// `2^k` for `k` below 128.
pub(crate) fn pow2_u128(k: u64) -> (r: u128)
    requires
        k < 128,
    ensures
        r == pow2(k as nat),
{
    proof {
        lemma_shift_is_pow2(k);
    }
    1u128 << k
}

/// The leading zeros of a nonzero number tell which powers of two it lies
/// between.
pub proof fn lemma_leading_zeros(i: u64)
    requires
        i > 0,
    ensures
        0 <= u64_leading_zeros(i) < 64,
        pow2((63 - u64_leading_zeros(i)) as nat) <= i < pow2((64 - u64_leading_zeros(i)) as nat),
    decreases i,
{
    reveal_with_fuel(u64_leading_zeros, 2);
    lemma2_to64();
    if i > 1 {
        let half = (i / 2) as u64;
        lemma_leading_zeros(half);
        lemma_pow2_unfold((64 - u64_leading_zeros(half)) as nat);
        lemma_pow2_unfold((65 - u64_leading_zeros(half)) as nat);
    }
}

/// The number of binary digits of `c`: zero for zero, and otherwise the
/// `len` with `2^(len - 1) <= c < 2^len`.
pub(crate) fn bit_length(c: u128) -> (len: u64)
    ensures
        len <= 128,
        c == 0 ==> len == 0,
        c > 0 ==> len > 0 && pow2((len - 1) as nat) <= c < pow2(len as nat),
{
    let high = (c / 0x1_0000_0000_0000_0000) as u64;
    let low = (c % 0x1_0000_0000_0000_0000) as u64;
    if high != 0 {
        let zeros = high.leading_zeros() as u64;
        proof {
            lemma_leading_zeros(high);
            lemma2_to64();
            lemma_pow2_adds((63 - zeros) as nat, 64);
            lemma_pow2_adds((64 - zeros) as nat, 64);
            let p = pow2(64);
            assert(pow2((63 - zeros) as nat) * p <= high * p && (high + 1) * p <= pow2(
                (64 - zeros) as nat,
            ) * p) by (nonlinear_arith)
                requires
                    pow2((63 - zeros) as nat) <= high < pow2((64 - zeros) as nat),
                    p > 0,
            ;
        }
        128 - zeros
    } else if low != 0 {
        let zeros = low.leading_zeros() as u64;
        proof {
            lemma_leading_zeros(low);
        }
        64 - zeros
    } else {
        0
    }
}

/// Whether a remainder `rem` out of `den` rounds the whole part `floor` up.
pub(crate) fn rounds_up_at(rem: u128, den: u128, floor: u128) -> (up: bool)
    requires
        rem < den,
    ensures
        up == rounds_up(rem as nat, den as nat, floor as nat),
{
    let rest = den - rem;
    rem > rest || (rem == rest && floor % 2 == 1)
}

/// The magnitudes `2^52 * 2^2046` and `2^53 * 2^2045` are both the first
/// magnitude that is too large to be finite.
pub proof fn lemma_overflow_units()
    ensures
        scaled(HIDDEN_BIT as nat, 2046) == Value::overflow_units(),
        scaled(SIGNIFICAND_LIMIT as nat, 2045) == Value::overflow_units(),
        Value::overflow_units() > 0,
{
    lemma2_to64();
    lemma2_to64_rest();
    lemma_pow2_adds(52, 2046);
    lemma_pow2_adds(53, 2045);
    lemma_pow2_pos(2098);
}

/// A significand at a spacing exponent within range is a finite magnitude,
/// and one at a larger exponent is not.
pub proof fn lemma_finite_range(significand: nat, exponent: nat)
    requires
        significand < SIGNIFICAND_LIMIT,
        exponent > 0 ==> significand >= HIDDEN_BIT,
    ensures
        exponent <= MAX_EXPONENT ==> scaled(significand, exponent) < Value::overflow_units(),
        exponent > MAX_EXPONENT ==> scaled(significand, exponent) >= Value::overflow_units(),
{
    lemma_overflow_units();
    if exponent <= MAX_EXPONENT {
        lemma_scaled_ordered(significand, SIGNIFICAND_LIMIT as nat, exponent);
        lemma_scaled_twice(SIGNIFICAND_LIMIT as nat, exponent, (2045 - exponent) as nat);
        lemma_pow2_pos((2045 - exponent) as nat);
        let a = scaled(SIGNIFICAND_LIMIT as nat, exponent);
        let p = pow2((2045 - exponent) as nat);
        assert(a <= a * p) by (nonlinear_arith)
            requires
                p > 0,
                a >= 0,
        ;
    } else {
        lemma_scaled_ordered(HIDDEN_BIT as nat, significand, exponent);
        lemma_scaled_twice(HIDDEN_BIT as nat, 2046, (exponent - 2046) as nat);
        lemma_pow2_pos((exponent - 2046) as nat);
        let a = scaled(HIDDEN_BIT as nat, 2046);
        let p = pow2((exponent - 2046) as nat);
        assert(a <= a * p) by (nonlinear_arith)
            requires
                p > 0,
                a >= 0,
        ;
    }
}

/// The number with the given sign whose magnitude is the significand
/// `floor`, or the next one when `up` is set, at spacing `2^k`; an infinity
/// when that is out of range.
pub(crate) fn round_pack(negative: bool, floor: u64, up: bool, k: u64) -> (r: Scalar)
    requires
        floor < SIGNIFICAND_LIMIT,
        k > 0 ==> floor >= HIDDEN_BIT,
        k < 0x1_0000,
    ensures
        r@ == Value::bounded(negative, rounded_at(floor as nat, up, k as nat)),
        r == Scalar::of(r@),
{
    let mut significand = floor;
    let mut exponent = k;
    if up {
        significand = significand + 1;
        if significand == SIGNIFICAND_LIMIT {
            significand = HIDDEN_BIT;
            exponent = exponent + 1;
            proof {
                lemma_scaled_twice(HIDDEN_BIT as nat, 1, k as nat);
                lemma2_to64();
                assert(scaled(HIDDEN_BIT as nat, 1) == SIGNIFICAND_LIMIT);
            }
        }
    }
    assert(scaled(significand as nat, exponent as nat) == rounded_at(
        floor as nat,
        up,
        k as nat,
    ));
    proof {
        lemma_finite_range(significand as nat, exponent as nat);
    }
    if exponent > MAX_EXPONENT {
        Scalar::infinity(negative)
    } else {
        Scalar::pack(negative, significand, exponent)
    }
}

/// The fraction `c * 2^a / 2^b` equals `num / (den * 2^k)` in each of the
/// ways that `round_dyadic` splits it.
proof fn lemma_dyadic_balance(c: nat, a: nat, b: nat, k: nat, left: nat, right: nat)
    requires
        left + b + k == a + right,
    ensures
        scaled(c, left) * (pow2(b) * pow2(k)) == scaled(c, a) * pow2(right),
{
    lemma_pow2_adds(b, k);
    lemma_scaled_twice(c, left, b + k);
    lemma_scaled_twice(c, a, right);
}

/// The number with the given sign nearest to `c * 2^up_exp / 2^down_exp`
/// units, ties going to the even significand.
pub(crate) fn round_dyadic(negative: bool, c: u128, up_exp: u64, down_exp: u64) -> (r: Scalar)
    requires
        c < 0x100_0000_0000_0000_0000_0000_0000_0000,
        up_exp < 0x2000,
        down_exp < 0x2000,
    ensures
        r@ == Value::rounded(negative, scaled(c as nat, up_exp as nat), pow2(down_exp as nat)),
        r == Scalar::of(r@),
{
    let ghost n = scaled(c as nat, up_exp as nat);
    let ghost d = pow2(down_exp as nat);
    proof {
        lemma_pow2_pos(down_exp as nat);
        lemma2_to64();
    }
    if c == 0 {
        proof {
            assert(n == 0) by (nonlinear_arith)
                requires
                    n == 0 * pow2(up_exp as nat),
            ;
            assert(0nat * (d * pow2(0)) == n * 1);
            lemma_round_even_eval(n, d, 0, 0, 1);
            lemma_overflow_units();
            assert(scaled(0, 0) == 0);
        }
        return Scalar::pack(negative, 0, 0);
    }
    let len = bit_length(c);
    proof {
        lemma_pow2_adds(60, 60);
        lemma2_to64_rest();
        if len > 121 {
            lemma_pow2_strictly_increases(120, (len - 1) as nat);
        }
    }
    assert(len <= 120);
    if len + up_exp <= 53 + down_exp {
        if up_exp >= down_exp {
            let shift = up_exp - down_exp;
            proof {
                lemma_pow2_fits(shift as nat);
                lemma_scaled_ordered(c as nat, pow2(len as nat), shift as nat);
                lemma_pow2_adds(len as nat, shift as nat);
                if len + shift < 53 {
                    lemma_pow2_strictly_increases((len + shift) as nat, 53);
                }
                lemma_dyadic_balance(
                    c as nat,
                    up_exp as nat,
                    down_exp as nat,
                    0,
                    shift as nat,
                    0,
                );
                lemma_round_even_eval(n, d, 0, scaled(c as nat, shift as nat), 1);
            }
            let significand = c * pow2_u128(shift);
            round_pack(negative, significand as u64, false, 0)
        } else {
            let shift = down_exp - up_exp;
            if shift > len + 1 {
                proof {
                    let den = pow2(shift as nat);
                    lemma_pow2_unfold((len + 1) as nat);
                    lemma_pow2_strictly_increases((len + 1) as nat, shift as nat);
                    lemma_small_mod(c as nat, den);
                    lemma_basic_div(c as int, den as int);
                    lemma_dyadic_balance(
                        c as nat,
                        up_exp as nat,
                        down_exp as nat,
                        0,
                        0,
                        shift as nat,
                    );
                    assert(scaled(c as nat, 0) == c);
                    lemma_round_even_eval(n, d, 0, c as nat, den);
                    lemma_overflow_units();
                    assert(scaled(0, 0) == 0);
                }
                Scalar::pack(negative, 0, 0)
            } else {
                proof {
                    lemma_pow2_fits(shift as nat);
                    lemma_pow2_pos(shift as nat);
                }
                let den = pow2_u128(shift);
                let floor = c / den;
                let rem = c % den;
                let up = rounds_up_at(rem, den, floor);
                proof {
                    lemma_dyadic_balance(
                        c as nat,
                        up_exp as nat,
                        down_exp as nat,
                        0,
                        0,
                        shift as nat,
                    );
                    assert(scaled(c as nat, 0) == c);
                    if len >= shift {
                        lemma_pow2_adds((len - shift) as nat, shift as nat);
                        lemma_div_between(c as nat, den as nat, 0, pow2((len - shift) as nat));
                        if len - shift < 53 {
                            lemma_pow2_strictly_increases((len - shift) as nat, 53);
                        }
                    } else {
                        lemma_pow2_unfold((len + 1) as nat);
                        assert(c < den);
                        lemma_basic_div(c as int, den as int);
                    }
                    lemma_round_even_eval(n, d, 0, c as nat, den as nat);
                }
                round_pack(negative, floor as u64, up, 0)
            }
        }
    } else {
        let k = len + up_exp - down_exp - 53;
        if len >= 53 {
            let shift = len - 53;
            proof {
                lemma_pow2_fits(shift as nat);
                lemma_pow2_pos(shift as nat);
            }
            let den = pow2_u128(shift);
            let floor = c / den;
            let rem = c % den;
            let up = rounds_up_at(rem, den, floor);
            proof {
                lemma_dyadic_balance(
                    c as nat,
                    up_exp as nat,
                    down_exp as nat,
                    k as nat,
                    0,
                    shift as nat,
                );
                assert(scaled(c as nat, 0) == c);
                lemma_pow2_adds(52, shift as nat);
                lemma_pow2_adds(53, shift as nat);
                lemma_div_between(c as nat, den as nat, HIDDEN_BIT as nat, SIGNIFICAND_LIMIT as nat);
                lemma_round_even_eval(n, d, k as nat, c as nat, den as nat);
            }
            round_pack(negative, floor as u64, up, k)
        } else {
            let shift = 53 - len;
            proof {
                lemma_pow2_fits(shift as nat);
                lemma_scaled_ordered(c as nat, pow2(len as nat), shift as nat);
                lemma_scaled_ordered(pow2((len - 1) as nat), c as nat, shift as nat);
                lemma_pow2_adds(len as nat, shift as nat);
                lemma_pow2_adds((len - 1) as nat, shift as nat);
                lemma_dyadic_balance(
                    c as nat,
                    up_exp as nat,
                    down_exp as nat,
                    k as nat,
                    shift as nat,
                    0,
                );
                lemma_round_even_eval(n, d, k as nat, scaled(c as nat, shift as nat), 1);
            }
            let significand = c * pow2_u128(shift);
            round_pack(negative, significand as u64, false, k)
        }
    }
}

} // verus!
