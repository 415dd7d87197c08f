//! How far rounding can move a magnitude.

use crate::approx::lemma_epsilon;
use crate::dyadic::{
    lemma_div_between, lemma_finite_range, lemma_scaled_ordered, lemma_scaled_twice,
};
use crate::rounding::{
    lemma_round_even_eval, lemma_spacing_exp, round_even, rounds_up, scaled, spacing_exp,
    HIDDEN_BIT, SIGNIFICAND_LIMIT,
};
use crate::value::Value;
use vstd::arithmetic::div_mod::*;
use vstd::arithmetic::power2::*;
use vstd::prelude::*;

verus! {

/// At its own spacing a magnitude has a significand below `2^53`, and one
/// of at least `2^52` unless the spacing is a single unit.
pub proof fn lemma_spacing_exp_range(n: nat)
    ensures
        n / pow2(spacing_exp(n)) < SIGNIFICAND_LIMIT,
        spacing_exp(n) > 0 ==> n / pow2(spacing_exp(n)) >= HIDDEN_BIT,
        spacing_exp(n) > 0 ==> n >= scaled(HIDDEN_BIT as nat, spacing_exp(n)),
    decreases n,
{
    lemma2_to64();
    let k = spacing_exp(n);
    if n < SIGNIFICAND_LIMIT {
        assert(k == 0);
        assert(n / 1 == n);
    } else {
        let below = spacing_exp(n / 2);
        assert(k == 1 + below);
        lemma_spacing_exp_range(n / 2);
        lemma_pow2_pos(below);
        lemma_pow2_unfold(k);
        lemma_div_denominator(n as int, 2, pow2(below) as int);
        assert((n / 2) / pow2(below) == n / pow2(k));
        if below == 0 {
            assert((n / 2) / 1 == n / 2);
        }
        let p = pow2(k);
        lemma_pow2_pos(k);
        lemma_fundamental_div_mod(n as int, p as int);
        let m = n / p;
        assert(n >= HIDDEN_BIT * p) by (nonlinear_arith)
            requires
                n == p * m + n % p,
                n % p >= 0,
                m >= HIDDEN_BIT,
                p > 0,
        ;
    }
}

/// A magnitude below `2^53 * 2^j` has a spacing of at most `2^j`.
pub proof fn lemma_spacing_exp_at_most(n: nat, j: nat)
    requires
        n < scaled(SIGNIFICAND_LIMIT as nat, j),
    ensures
        spacing_exp(n) <= j,
    decreases j,
{
    lemma2_to64();
    if n < SIGNIFICAND_LIMIT {
    } else if j == 0 {
        assert(scaled(SIGNIFICAND_LIMIT as nat, 0) == SIGNIFICAND_LIMIT * 1);
    } else {
        lemma_pow2_unfold(j);
        let p = pow2((j - 1) as nat);
        assert(n / 2 < SIGNIFICAND_LIMIT * p) by (nonlinear_arith)
            requires
                n < SIGNIFICAND_LIMIT * (2 * p),
        ;
        lemma_spacing_exp_at_most(n / 2, (j - 1) as nat);
    }
}

/// Rounding moves `n / d` by at most half the spacing around it.
pub proof fn lemma_round_even_error(n: nat, d: nat)
    requires
        d > 0,
    ensures
        2 * (round_even(n, d) * d - n) <= d * pow2(spacing_exp(n / d)),
        2 * (n - round_even(n, d) * d) <= d * pow2(spacing_exp(n / d)),
{
    let k = spacing_exp(n / d);
    let s = pow2(k);
    lemma_pow2_pos(k);
    let ds = d * s;
    assert(ds > 0) by (nonlinear_arith)
        requires
            ds == d * s,
            d > 0,
            s > 0,
    ;
    let m = n / ds;
    let r = n % ds;
    lemma_fundamental_div_mod(n as int, ds as int);
    let rounded = round_even(n, d);
    if rounds_up(r, ds, m) {
        assert(rounded == (m + 1) * s);
        assert(rounded * d - n == ds - r) by (nonlinear_arith)
            requires
                rounded == (m + 1) * s,
                n == ds * m + r,
                ds == d * s,
        ;
    } else {
        assert(rounded == m * s);
        assert(n - rounded * d == r) by (nonlinear_arith)
            requires
                rounded == m * s,
                n == ds * m + r,
                ds == d * s,
        ;
    }
}

/// A magnitude below `2^53` units is kept as it is.
pub proof fn lemma_round_even_small(n: nat)
    requires
        n < SIGNIFICAND_LIMIT,
    ensures
        round_even(n, 1) == n,
{
    lemma2_to64();
    assert(n * (1 * pow2(0)) == n * 1);
    lemma_round_even_eval(n, 1, 0, n, 1);
    assert(scaled(n, 0) == n * 1);
}

/// A power of two is kept as it is.
pub proof fn lemma_round_even_pow2(j: nat)
    ensures
        round_even(pow2(j), 1) == pow2(j),
{
    lemma2_to64();
    lemma2_to64_rest();
    let n = pow2(j);
    if j < 53 {
        lemma_pow2_strictly_increases(j, 53);
        lemma_round_even_small(n);
    } else {
        let e = (j - 52) as nat;
        lemma_pow2_adds(52, e);
        assert((HIDDEN_BIT as nat) * (1 * pow2(e)) == n * 1);
        lemma_round_even_eval(n, 1, e, HIDDEN_BIT as nat, 1);
    }
}

/// Rounding does not carry a magnitude past a power of two.
pub proof fn lemma_round_even_at_most_pow2(n: nat, j: nat)
    requires
        n <= pow2(j),
    ensures
        round_even(n, 1) <= pow2(j),
{
    lemma2_to64();
    lemma2_to64_rest();
    if n == pow2(j) {
        lemma_round_even_pow2(j);
    } else if n < SIGNIFICAND_LIMIT {
        lemma_round_even_small(n);
    } else {
        // 2^53 <= n < 2^j
        if j < 53 {
            lemma_pow2_strictly_increases(j, 53);
        }
        let k = spacing_exp(n);
        let s = pow2(k);
        lemma_pow2_pos(k);
        lemma_spacing_exp_range(n);
        let m = n / s;
        assert(1 * s == s);
        // 2^52 * 2^k <= n < 2^j, so k + 53 <= j, and the next representable
        // magnitude is at most 2^j.
        lemma_pow2_adds(52, k);
        if k + 52 >= j {
            if k + 52 > j {
                lemma_pow2_strictly_increases(j, k + 52);
            }
            assert(false);
        }
        lemma_pow2_adds(53, k);
        if k + 53 < j {
            lemma_pow2_strictly_increases(k + 53, j);
        }
        assert((m + 1) * s <= SIGNIFICAND_LIMIT * s) by (nonlinear_arith)
            requires
                m < SIGNIFICAND_LIMIT,
                s > 0,
        ;
        assert(m * s <= (m + 1) * s) by (nonlinear_arith)
            requires
                s > 0,
        ;
    }
}

/// A larger magnitude has at least as large a spacing.
pub proof fn lemma_spacing_exp_monotone(n1: nat, n2: nat)
    requires
        n1 <= n2,
    ensures
        spacing_exp(n1) <= spacing_exp(n2),
    decreases n2,
{
    if n1 >= SIGNIFICAND_LIMIT {
        lemma_spacing_exp_monotone(n1 / 2, n2 / 2);
    }
}

/// A representable magnitude is kept as it is.
pub proof fn lemma_round_even_exact(m: nat, k: nat)
    requires
        m < SIGNIFICAND_LIMIT,
        k > 0 ==> m >= HIDDEN_BIT,
    ensures
        round_even(scaled(m, k), 1) == scaled(m, k),
        spacing_exp(scaled(m, k)) == k,
{
    let x = scaled(m, k);
    lemma_pow2_pos(k);
    assert(m * (1 * pow2(k)) == x * 1);
    lemma_round_even_eval(x, 1, k, m, 1);
    lemma_div_by_multiple(m as int, pow2(k) as int);
    lemma_spacing_exp(x, k);
}

/// Rounding does not carry a magnitude past a representable magnitude
/// above it.
pub proof fn lemma_round_even_at_most(n: nat, m: nat, k: nat)
    requires
        m < SIGNIFICAND_LIMIT,
        k > 0 ==> m >= HIDDEN_BIT,
        n <= scaled(m, k),
    ensures
        round_even(n, 1) <= scaled(m, k),
{
    let x = scaled(m, k);
    lemma_round_even_exact(m, k);
    if n < x {
        let kn = spacing_exp(n);
        lemma_spacing_exp_monotone(n, x);
        let s = pow2(kn);
        lemma_pow2_pos(kn);
        let up = (k - kn) as nat;
        // `x` is a whole number `c` of spacings of `n`.
        let c = scaled(m, up);
        lemma_scaled_twice(m, up, kn);
        assert(x == c * s);
        let mn = n / s;
        lemma_fundamental_div_mod(n as int, s as int);
        assert(1 * s == s);
        assert((mn + 1) * s <= c * s) by (nonlinear_arith)
            requires
                n == s * mn + n % s,
                n % s >= 0,
                n < c * s,
                s > 0,
        ;
        assert(mn * s <= (mn + 1) * s) by (nonlinear_arith)
            requires
                s > 0,
        ;
    }
}

/// Rounding does not carry a magnitude below a representable magnitude
/// beneath it.
pub proof fn lemma_round_even_at_least(n: nat, m: nat, k: nat)
    requires
        m < SIGNIFICAND_LIMIT,
        k > 0 ==> m >= HIDDEN_BIT,
        n >= scaled(m, k),
    ensures
        round_even(n, 1) >= scaled(m, k),
{
    let x = scaled(m, k);
    lemma_round_even_exact(m, k);
    if n > x {
        let kn = spacing_exp(n);
        lemma_spacing_exp_monotone(x, n);
        lemma_spacing_exp_range(n);
        let s = pow2(kn);
        lemma_pow2_pos(kn);
        let mn = n / s;
        lemma_fundamental_div_mod(n as int, s as int);
        assert(1 * s == s);
        assert(mn * s <= (mn + 1) * s) by (nonlinear_arith)
            requires
                s > 0,
        ;
        if kn == k {
            assert(mn >= m) by (nonlinear_arith)
                requires
                    n == s * mn + n % s,
                    n % s < s,
                    n >= m * s,
                    s > 0,
            ;
            assert(mn * s >= m * s) by (nonlinear_arith)
                requires
                    mn >= m,
                    s > 0,
            ;
        } else {
            // One spacing up, even the smallest significand is larger.
            lemma2_to64();
            let between = (kn - k - 1) as nat;
            lemma_scaled_twice(HIDDEN_BIT as nat, 1, k);
            assert(scaled(HIDDEN_BIT as nat, 1) == SIGNIFICAND_LIMIT);
            lemma_scaled_twice(HIDDEN_BIT as nat, 1 + k, between);
            lemma_scaled_ordered(m, SIGNIFICAND_LIMIT as nat, k);
            lemma_scaled_ordered(HIDDEN_BIT as nat, mn, kn);
            lemma_pow2_pos(between);
            let y = scaled(HIDDEN_BIT as nat, 1 + k);
            assert(y <= y * pow2(between)) by (nonlinear_arith)
                requires
                    pow2(between) > 0,
                    y >= 0,
            ;
        }
    }
}

/// Two finite numbers are approximately equal exactly when their exact
/// difference is at most the tolerance less half of the spacing below it.
pub proof fn lemma_approx_eq_exact(a: Value, b: Value)
    requires
        a is Finite,
        b is Finite,
    ensures
        a.approx_eq(b) <==> a.close_to(b),
{
    let exact = a.signed_units() - b.signed_units();
    let m: nat = 0x14_F8B5_88E3_68F1;
    let reach = Value::tolerance_reach();
    let tolerance = scaled(m, 1005);
    let below = scaled((m - 1) as nat, 1005);
    let half = pow2(1004);
    let step = pow2(1005);
    lemma_epsilon();
    lemma2_to64();
    lemma2_to64_rest();
    lemma_pow2_pos(1004);
    lemma_pow2_unfold(1005);
    // tolerance == below + 2 * half, and reach == below + half.
    assert(tolerance == below + step && reach == below + half) by (nonlinear_arith)
        requires
            tolerance == m * step,
            below == (m - 1) * step,
            reach == (2 * m - 1) * half,
            step == 2 * half,
    ;
    lemma_finite_range(m, 1005);
    if exact != 0 {
        let n = (if exact < 0 {
            -exact
        } else {
            exact
        }) as nat;
        let rounded = round_even(n, 1);
        if n <= below {
            lemma_round_even_at_most(n, (m - 1) as nat, 1005);
        } else if n >= tolerance {
            lemma_round_even_at_least(n, m, 1005);
        } else {
            // Between the two, `n` rounds to the nearer one, and from the
            // middle to the one below, whose significand is even.
            lemma_fundamental_div_mod_converse(
                n as int,
                step as int,
                (m - 1) as int,
                n - below,
            );
            assert(n * (1 * pow2(1005)) == n * step);
            lemma_round_even_eval(n, 1, 1005, n, step);
        }
        assert(rounded < tolerance <==> n <= reach);
    }
}

/// The sum of two finite numbers whose exact sum is at most `2^53 * 2^j`
/// units in magnitude is finite and within half of `2^j` units of the exact
/// sum.
pub proof fn lemma_sum_error(a: Value, b: Value, j: nat)
    requires
        a is Finite,
        b is Finite,
        j <= 2000,
        -scaled(SIGNIFICAND_LIMIT as nat, j) <= a.signed_units() + b.signed_units() <= scaled(
            SIGNIFICAND_LIMIT as nat,
            j,
        ),
    ensures
        a.sum(b) is Finite,
        2 * (a.sum(b).signed_units() - (a.signed_units() + b.signed_units())) <= pow2(j),
        2 * ((a.signed_units() + b.signed_units()) - a.sum(b).signed_units()) <= pow2(j),
{
    let exact = a.signed_units() + b.signed_units();
    lemma_pow2_pos(j);
    if exact != 0 {
        let n = (if exact < 0 {
            -exact
        } else {
            exact
        }) as nat;
        lemma2_to64();
        lemma2_to64_rest();
        lemma_pow2_adds(53, j);
        if n == pow2(53 + j) {
            lemma_round_even_pow2(53 + j);
        } else {
            let k = spacing_exp(n);
            lemma_round_even_error(n, 1);
            assert(n / 1 == n);
            lemma_spacing_exp_at_most(n, j);
            if k < j {
                lemma_pow2_strictly_increases(k, j);
            }
            assert(round_even(n, 1) * 1 == round_even(n, 1));
            assert(1 * pow2(k) == pow2(k));
        }
        // The rounded magnitude is in range.
        lemma_round_even_at_most_pow2(n, 53 + j);
        lemma_pow2_strictly_increases(53 + j, 2098);
    }
}

/// The sum of two finite numbers whose exact sum is at most `2^i` units in
/// magnitude is finite and at most `2^i` units in magnitude.
pub proof fn lemma_sum_at_most_pow2(a: Value, b: Value, i: nat)
    requires
        a is Finite,
        b is Finite,
        i < 2098,
        -pow2(i) <= a.signed_units() + b.signed_units() <= pow2(i),
    ensures
        a.sum(b) is Finite,
        a.sum(b).units() <= pow2(i),
{
    let exact = a.signed_units() + b.signed_units();
    lemma_pow2_pos(i);
    if exact != 0 {
        let n = (if exact < 0 {
            -exact
        } else {
            exact
        }) as nat;
        lemma_round_even_at_most_pow2(n, i);
        lemma_pow2_strictly_increases(i, 2098);
    }
}

/// A finite number of at most `2^1057` units is below the tolerance in
/// magnitude.
pub proof fn lemma_below_epsilon(f: Value)
    requires
        f is Finite,
        f.units() <= pow2(1057),
    ensures
        f.absolute().less_than(Value::epsilon()),
{
    lemma_epsilon();
    lemma2_to64();
    lemma2_to64_rest();
    lemma_pow2_adds(52, 1005);
    let p = pow2(1005);
    lemma_pow2_pos(1005);
    assert(0x14_F8B5_88E3_68F1 * p > 0x10_0000_0000_0000 * p) by (nonlinear_arith)
        requires
            p > 0,
    ;
}

/// Adding a number and taking it away again, or the other way round, comes
/// back approximately to where it began, for finite numbers of magnitude
/// at most `2^35`.
pub proof fn lemma_sum_then_difference(a: Value, b: Value)
    requires
        a.within_pow2(35),
        b.within_pow2(35),
    ensures
        a.sum(b).difference(b).approx_eq(a),
        a.difference(b).sum(b).approx_eq(a),
{
    lemma_there_and_back(a, b);
    lemma_there_and_back(a, b.negated());
    assert(b.negated().negated() == b);
}

/// `(a + b) - b` is approximately `a`, for finite numbers of magnitude at
/// most `2^35`.
proof fn lemma_there_and_back(a: Value, b: Value)
    requires
        a.within_pow2(35),
        b.within_pow2(35),
    ensures
        a.sum(b).sum(b.negated()).approx_eq(a),
{
    lemma2_to64();
    lemma2_to64_rest();
    lemma_pow2_adds(53, 1057);
    lemma_pow2_unfold(1110);
    lemma_pow2_unfold(1109);
    lemma_pow2_unfold(1057);
    lemma_pow2_pos(1056);
    lemma_pow2_strictly_increases(1056, 1109);
    let s = a.sum(b);
    lemma_sum_error(a, b, 1057);
    let t = s.sum(b.negated());
    lemma_sum_error(s, b.negated(), 1057);
    let f = t.sum(a.negated());
    lemma_sum_at_most_pow2(t, a.negated(), 1057);
    lemma_below_epsilon(f);
}

/// Multiplying by a normal number and dividing by it again comes back
/// approximately to where it began, for a finite number of magnitude at
/// most `2^35` whose product with the factor is finite.
pub proof fn lemma_product_then_quotient(a: Value, s: Value)
    requires
        a.within_pow2(35),
        s.is_normal(),
        a.product(s) is Finite,
    ensures
        a.product(s).quotient(s).approx_eq(a),
{
    lemma2_to64();
    lemma2_to64_rest();
    let a_units = a.units();
    let s_units = s.units();
    let one = pow2(1074);
    lemma_pow2_pos(1074);
    lemma_pow2_pos(52);
    let p = a.product(s);
    let p_units = round_even(a_units * s_units, one);
    assert(p.units() == p_units);
    let q = p.quotient(s);
    let q_units = round_even(p_units * one, s_units);
    let e1056 = pow2(1056);
    let e1057 = pow2(1057);
    let e1109 = pow2(1109);
    lemma_pow2_pos(1056);
    lemma_pow2_unfold(1057);
    lemma_pow2_adds(52, 1022);
    lemma_pow2_adds(52, 1057);
    lemma_pow2_adds(53, 1057);
    lemma_pow2_strictly_increases(1022, 1057);
    lemma_pow2_strictly_increases(1056, 1109);
    lemma_pow2_unfold(1110);
    lemma_pow2_strictly_increases(1110, 2098);
    // The product is within `s * 2^1056` of `a * s`, in units of `2^-2148`.
    let n1 = a_units * s_units;
    let k1 = spacing_exp(n1 / one);
    let w1 = pow2(k1);
    lemma_round_even_error(n1, one);
    assert(one * w1 <= s_units * e1057) by {
        if k1 == 0 {
            assert(one * w1 == pow2(52) * pow2(1022)) by (nonlinear_arith)
                requires
                    w1 == 1,
                    one == pow2(52) * pow2(1022),
            ;
            assert(pow2(52) * pow2(1022) <= s_units * e1057) by (nonlinear_arith)
                requires
                    s_units >= pow2(52),
                    pow2(1022) < e1057,
            ;
        } else {
            lemma_spacing_exp_range(n1 / one);
            lemma_fundamental_div_mod(n1 as int, one as int);
            let floor = n1 / one;
            assert(one * w1 <= s_units * e1057) by (nonlinear_arith)
                requires
                    n1 == one * floor + n1 % one,
                    n1 % one >= 0,
                    floor >= pow2(52) * w1,
                    n1 == a_units * s_units,
                    a_units <= pow2(52) * e1057,
                    pow2(52) > 0,
                    one > 0,
                    w1 >= 0,
                    s_units >= 0,
            {
                assert(one * floor >= one * (pow2(52) * w1));
                assert(a_units * s_units <= (pow2(52) * e1057) * s_units);
                assert(one * (pow2(52) * w1) == pow2(52) * (one * w1));
                assert((pow2(52) * e1057) * s_units == pow2(52) * (s_units * e1057));
                assert(pow2(52) * (one * w1) <= pow2(52) * (s_units * e1057));
            }
        }
    }
    // The quotient is within `s * 2^1056` of the product, in the same units.
    let n2 = p_units * one;
    let k2 = spacing_exp(n2 / s_units);
    lemma_round_even_error(n2, s_units);
    assert(n2 < pow2(1110) * s_units) by (nonlinear_arith)
        requires
            n2 == p_units * one,
            2 * (p_units * one - n1) <= one * w1,
            one * w1 <= s_units * e1057,
            n1 == a_units * s_units,
            a_units <= e1109,
            e1057 == 2 * e1056,
            0 < e1056 < e1109,
            pow2(1110) == 2 * e1109,
            s_units > 0,
    {
        assert(a_units * s_units <= e1109 * s_units);
        assert(s_units * e1057 == 2 * (s_units * e1056));
        assert(s_units * e1056 < s_units * e1109);
    }
    lemma_div_between(n2, s_units, 0, pow2(1110));
    lemma_spacing_exp_at_most(n2 / s_units, 1057);
    if k2 < 1057 {
        lemma_pow2_strictly_increases(k2, 1057);
    }
    let w2 = pow2(k2);
    assert(s_units * w2 <= s_units * e1057) by (nonlinear_arith)
        requires
            w2 <= e1057,
            s_units >= 0,
    ;
    // Together: the quotient is within `2^1057` units of `a`.
    assert(-e1057 <= q_units - a_units <= e1057) by (nonlinear_arith)
        requires
            2 * (q_units * s_units - n2) <= s_units * w2,
            2 * (n2 - q_units * s_units) <= s_units * w2,
            2 * (n2 - n1) <= one * w1,
            2 * (n1 - n2) <= one * w1,
            n1 == a_units * s_units,
            one * w1 <= s_units * e1057,
            s_units * w2 <= s_units * e1057,
            s_units > 0,
    {
        assert(q_units * s_units - a_units * s_units <= s_units * e1057);
        assert(a_units * s_units - q_units * s_units <= s_units * e1057);
        assert(q_units * s_units - a_units * s_units == (q_units - a_units) * s_units);
        assert(a_units * s_units - q_units * s_units == (a_units - q_units) * s_units);
        if q_units - a_units > e1057 {
            assert((q_units - a_units) * s_units >= (e1057 + 1) * s_units);
        }
        if a_units - q_units > e1057 {
            assert((a_units - q_units) * s_units >= (e1057 + 1) * s_units);
        }
    }
    assert(q_units < Value::overflow_units());
    assert(q == Value::Finite { negative: a.is_negative(), units: q_units });
    lemma_sum_at_most_pow2(q, a.negated(), 1057);
    lemma_below_epsilon(q.sum(a.negated()));
}

} // verus!
