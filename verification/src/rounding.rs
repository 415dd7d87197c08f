//! Rounding of exact magnitudes to the nearest representable magnitude.
//!
//! Magnitudes are counted in units of the smallest positive binary64 number,
//! so every finite binary64 magnitude is a natural number of units. A
//! representable magnitude is `m * 2^k` with `m` below `2^53`, and `m` at
//! least `2^52` whenever `k` is positive.

use vstd::arithmetic::div_mod::*;
use vstd::arithmetic::power2::*;
use vstd::prelude::*;

verus! {

/// `2^52`: the smallest significand of a normal number.
pub const HIDDEN_BIT: u64 = 0x10_0000_0000_0000;

/// `2^53`: the bound that every significand stays below.
pub const SIGNIFICAND_LIMIT: u64 = 0x20_0000_0000_0000;

/// The magnitude `m * 2^k`.
pub open spec fn scaled(m: nat, k: nat) -> nat {
    m * pow2(k)
}

/// The magnitude that rounding reaches from a whole part `floor` at spacing
/// `2^k`, given whether it rounds up.
pub open spec fn rounded_at(floor: nat, up: bool, k: nat) -> nat {
    if up {
        scaled(floor + 1, k)
    } else {
        scaled(floor, k)
    }
}

/// The exponent `k` of the spacing `2^k` between neighbouring representable
/// magnitudes around `q` units: zero below `2^53`, and one more each time
/// the magnitude doubles.
pub open spec fn spacing_exp(q: nat) -> nat
    decreases q,
{
    if q < SIGNIFICAND_LIMIT {
        0
    } else {
        1 + spacing_exp(q / 2)
    }
}

/// Whether a magnitude that lies `rem / den` of a spacing above the
/// representable magnitude with significand `floor` is rounded up: above the
/// half-way point always, at the half-way point only to reach an even
/// significand.
pub open spec fn rounds_up(rem: nat, den: nat, floor: nat) -> bool {
    2 * rem > den || (2 * rem == den && floor % 2 == 1)
}

/// The representable magnitude nearest to `n / d` units, ties going to the
/// even significand. The exponent range is not limited here.
pub open spec fn round_even(n: nat, d: nat) -> nat
    recommends
        d > 0,
{
    let k = spacing_exp(n / d);
    let step = d * pow2(k);
    rounded_at(n / step, rounds_up(n % step, step, n / step), k)
}

/// A magnitude whose quotient by `2^k` is a significand fit for spacing
/// `2^k` has spacing exponent `k`.
pub proof fn lemma_spacing_exp(q: nat, k: nat)
    requires
        q / pow2(k) < SIGNIFICAND_LIMIT,
        k > 0 ==> q / pow2(k) >= HIDDEN_BIT,
    ensures
        spacing_exp(q) == k,
    decreases k,
{
    lemma2_to64();
    if k == 0 {
        assert(pow2(0) == 1);
        assert(q / 1 == q);
        assert(spacing_exp(q) == 0);
    } else {
        let p = pow2((k - 1) as nat);
        lemma_pow2_pos((k - 1) as nat);
        lemma_pow2_unfold(k);
        assert(pow2(k) == 2 * p);
        let m = q / pow2(k);
        lemma_fundamental_div_mod(q as int, pow2(k) as int);
        assert(q >= pow2(k) * m);
        assert(pow2(k) * m >= 2 * m) by (nonlinear_arith)
            requires
                pow2(k) >= 2,
                m >= 0,
        ;
        assert(q >= SIGNIFICAND_LIMIT);
        lemma_div_denominator(q as int, 2, p as int);
        assert((q / 2) / p == q / (2 * p));
        lemma_spacing_exp(q / 2, (k - 1) as nat);
        assert(spacing_exp(q) == 1 + spacing_exp(q / 2));
    }
}

/// Two fractions with equal cross products have the same whole part, and
/// remainders in the same proportion.
pub proof fn lemma_same_ratio(n1: nat, d1: nat, n2: nat, d2: nat)
    requires
        d1 > 0,
        d2 > 0,
        n1 * d2 == n2 * d1,
    ensures
        n1 / d1 == n2 / d2,
        (n1 % d1) * d2 == (n2 % d2) * d1,
{
    let q = (n1 / d1) as int;
    let r = (n1 % d1) as int;
    lemma_fundamental_div_mod(n1 as int, d1 as int);
    let r2 = n2 - q * d2;
    assert(r2 * d1 == r * d2) by (nonlinear_arith)
        requires
            n1 == d1 * q + r,
            n1 * d2 == n2 * d1,
            r2 == n2 - q * d2,
    ;
    assert(0 <= r2 < d2) by (nonlinear_arith)
        requires
            r2 * d1 == r * d2,
            0 <= r < d1,
            d1 > 0,
            d2 > 0,
    ;
    lemma_fundamental_div_mod_converse(n2 as int, d2 as int, q, r2);
}

/// Rounding depends on the fraction only, not on how it is written.
pub proof fn lemma_same_rounding(n1: nat, d1: nat, n2: nat, d2: nat)
    requires
        d1 > 0,
        d2 > 0,
        n1 * d2 == n2 * d1,
    ensures
        round_even(n1, d1) == round_even(n2, d2),
{
    lemma_same_ratio(n1, d1, n2, d2);
    let s = pow2(spacing_exp(n1 / d1));
    lemma_pow2_pos(spacing_exp(n1 / d1));
    assert(n1 * (d2 * s) == n2 * (d1 * s)) by (nonlinear_arith)
        requires
            n1 * d2 == n2 * d1,
    ;
    assert(d1 * s > 0 && d2 * s > 0) by (nonlinear_arith)
        requires
            d1 > 0,
            d2 > 0,
            s > 0,
    ;
    lemma_same_ratio(n1, d1 * s, n2, d2 * s);
    let r1 = n1 % (d1 * s);
    let r2 = n2 % (d2 * s);
    let e1 = d1 * s;
    let e2 = d2 * s;
    assert((2 * r1 > e1) == (2 * r2 > e2) && (2 * r1 == e1) == (2 * r2 == e2))
        by (nonlinear_arith)
        requires
            r1 * e2 == r2 * e1,
            e1 > 0,
            e2 > 0,
    ;
}

/// Rounding `n / d` can be carried out on any fraction `num / den` that
/// equals `n / (d * 2^k)`, once its whole part is a significand fit for
/// spacing `2^k`.
pub proof fn lemma_round_even_eval(n: nat, d: nat, k: nat, num: nat, den: nat)
    requires
        d > 0,
        den > 0,
        num * (d * pow2(k)) == n * den,
        num / den < SIGNIFICAND_LIMIT,
        k > 0 ==> num / den >= HIDDEN_BIT,
    ensures
        round_even(n, d) == rounded_at(num / den, rounds_up(num % den, den, num / den), k),
{
    let s = pow2(k);
    lemma_pow2_pos(k);
    let ds = d * s;
    assert(ds > 0) by (nonlinear_arith)
        requires
            ds == d * s,
            d > 0,
            s > 0,
    ;
    lemma_same_ratio(num, den, n, ds);
    lemma_div_denominator(n as int, d as int, s as int);
    assert((n / d) / s == n / ds);
    lemma_spacing_exp(n / d, k);
    let r1 = num % den;
    let r2 = n % ds;
    assert(r1 * ds == r2 * den);
    assert((2 * r1 > den) == (2 * r2 > ds) && (2 * r1 == den) == (2 * r2 == ds))
        by (nonlinear_arith)
        requires
            r1 * ds == r2 * den,
            ds > 0,
            den > 0,
    ;
}

/// Whether `r` is the whole part of the square root of `n`.
pub open spec fn is_floor_root(n: nat, r: nat) -> bool {
    r * r <= n < (r + 1) * (r + 1)
}

/// The whole part of the square root of `n`.
pub open spec fn floor_root(n: nat) -> nat {
    choose|r: nat| is_floor_root(n, r)
}

/// The representable magnitude nearest to the square root of `u`, where the
/// root is counted in units and `u` in squares of units.
pub open spec fn round_even_root(u: nat) -> nat {
    let k = spacing_exp(floor_root(u));
    let s = pow2(k);
    let m = floor_root(u / (s * s));
    // The root lies above the half-way point `(m + 1/2) * s` exactly when
    // `4 * u` lies above `(2 * m + 1)^2 * s^2`.
    let mid = (2 * m + 1) * (2 * m + 1) * (s * s);
    rounded_at(m, 4 * u > mid || (4 * u == mid && m % 2 == 1), k)
}

/// Every number has a whole root.
pub proof fn lemma_floor_root_exists(n: nat)
    ensures
        is_floor_root(n, floor_root(n)),
    decreases n,
{
    if n == 0 {
        let r = 0nat;
        assert(r * r == 0 && (r + 1) * (r + 1) == 1) by (nonlinear_arith)
            requires
                r == 0,
        ;
        assert(is_floor_root(n, r));
    } else {
        let before = (n - 1) as nat;
        lemma_floor_root_exists(before);
        let r = floor_root(before);
        if n < (r + 1) * (r + 1) {
            assert(is_floor_root(n, r));
        } else {
            let t = r + 1;
            assert(t * t <= n < (t + 1) * (t + 1)) by (nonlinear_arith)
                requires
                    n == t * t,
            ;
            assert(is_floor_root(n, t));
        }
    }
}

/// The whole root is the only number whose square is at most `n` while the
/// square of the next number is not.
pub proof fn lemma_floor_root(n: nat, r: nat)
    requires
        is_floor_root(n, r),
    ensures
        floor_root(n) == r,
{
    let f = floor_root(n);
    assert(is_floor_root(n, f));
    assert(f == r) by (nonlinear_arith)
        requires
            f * f <= n < (f + 1) * (f + 1),
            r * r <= n < (r + 1) * (r + 1),
    ;
}

/// Rounding the root of `w * 4^k` can be carried out on `w`, once the whole
/// root of `w` is a significand fit for spacing `2^k`.
pub proof fn lemma_round_even_root_eval(w: nat, k: nat, m: nat)
    requires
        is_floor_root(w, m),
        HIDDEN_BIT <= m < SIGNIFICAND_LIMIT,
    ensures
        round_even_root(w * (pow2(k) * pow2(k))) == rounded_at(m, w > m * m + m, k),
{
    let s = pow2(k);
    lemma_pow2_pos(k);
    let u = w * (s * s);
    // The whole root of `u` lies between `m * s` and `(m + 1) * s`.
    lemma_floor_root_exists(u);
    let big = floor_root(u);
    assert(m * s <= big < (m + 1) * s) by (nonlinear_arith)
        requires
            big * big <= u < (big + 1) * (big + 1),
            u == w * (s * s),
            m * m <= w < (m + 1) * (m + 1),
            s > 0,
    {
        assert((m * s) * (m * s) == (m * m) * (s * s));
        assert(((m + 1) * s) * ((m + 1) * s) == ((m + 1) * (m + 1)) * (s * s));
        assert((m * m) * (s * s) <= w * (s * s));
        assert(((m + 1) * (m + 1)) * (s * s) > w * (s * s));
        if m * s > big {
            assert((m * s) * (m * s) >= (big + 1) * (big + 1));
        }
        if big >= (m + 1) * s {
            assert(big * big >= ((m + 1) * s) * ((m + 1) * s));
        }
    }
    lemma_fundamental_div_mod(big as int, s as int);
    let q = big / s;
    let r = big % s;
    assert(q == m) by (nonlinear_arith)
        requires
            big == s * q + r,
            0 <= r < s,
            m * s <= big < (m + 1) * s,
    ;
    lemma_spacing_exp(big, k);
    assert(s * s > 0) by (nonlinear_arith)
        requires
            s > 0,
    ;
    lemma_div_by_multiple(w as int, (s * s) as int);
    lemma_floor_root(w, m);
    let mid = (2 * m + 1) * (2 * m + 1) * (s * s);
    let ss = s * s;
    assert((4 * u > mid) == (w > m * m + m) && 4 * u != mid) by (nonlinear_arith)
        requires
            u == w * ss,
            mid == (2 * m + 1) * (2 * m + 1) * ss,
            ss > 0,
    {
        assert(4 * u == (4 * w) * ss);
        assert((2 * m + 1) * (2 * m + 1) == 4 * (m * m + m) + 1);
        if w > m * m + m {
            assert(4 * w >= (2 * m + 1) * (2 * m + 1) + 3);
            assert((4 * w) * ss >= ((2 * m + 1) * (2 * m + 1) + 3) * ss);
            assert(((2 * m + 1) * (2 * m + 1) + 3) * ss == mid + 3 * ss);
        } else {
            assert(4 * w <= (2 * m + 1) * (2 * m + 1) - 1);
            assert((4 * w) * ss <= ((2 * m + 1) * (2 * m + 1) - 1) * ss);
            assert(((2 * m + 1) * (2 * m + 1) - 1) * ss == mid - ss);
        }
    }
}

} // verus!
