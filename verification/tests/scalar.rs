use ray_tracer::scalar::Scalar;

fn s(x: f64) -> Scalar {
    Scalar::from_bits(x.to_bits())
}

fn f(x: Scalar) -> f64 {
    f64::from_bits(x.to_bits())
}

fn samples() -> Vec<f64> {
    let mut out = vec![
        0.0,
        -0.0,
        1.0,
        -1.0,
        2.0,
        3.0,
        4.0,
        14.0,
        0.1,
        0.2,
        0.3,
        1e-5,
        1e300,
        -1e300,
        1e-300,
        1e-160,
        1e160,
        1.7976931348623157e308,
        -1.7976931348623157e308,
        5e-324,
        -5e-324,
        1e-323,
        1.5e-323,
        2.2250738585072014e-308,
        2.225073858507201e-308,
        4.450147717014403e-308,
        f64::INFINITY,
        f64::NEG_INFINITY,
        f64::NAN,
        4503599627370496.0,
        4503599627370497.0,
        9007199254740991.0,
        9007199254740992.0,
        9007199254740994.0,
        0.5,
        1.5,
        0.9999999999999999,
        1.0000000000000002,
        3.141592653589793,
        -2.718281828459045,
        1e-310,
        123456789.125,
        1.3407807929942597e154,
        1.4916681462400413e-154,
    ];
    let mut state: u64 = 0x9E37_79B9_7F4A_7C15;
    for i in 0..150 {
        state ^= state << 13;
        state ^= state >> 7;
        state ^= state << 17;
        out.push(f64::from_bits(state));
        out.push(f64::from_bits((state >> 12) | 0x3FF0_0000_0000_0000) - 1.5);
        out.push(f64::from_bits((state >> 12) | ((i % 8) << 52)));
    }
    out
}

fn same(a: f64, b: f64) -> bool {
    (a.is_nan() && b.is_nan()) || a.to_bits() == b.to_bits()
}

#[test]
fn sum_agrees_with_hardware() {
    let xs = samples();
    for &a in &xs {
        for &b in &xs {
            let got = f(s(a) + s(b));
            assert!(same(got, a + b), "{a:e} + {b:e}: got {got:e}, want {:e}", a + b);
        }
    }
}

#[test]
fn difference_agrees_with_hardware() {
    let xs = samples();
    for &a in &xs {
        for &b in &xs {
            let got = f(s(a) - s(b));
            assert!(same(got, a - b), "{a:e} - {b:e}: got {got:e}, want {:e}", a - b);
        }
    }
}

#[test]
fn product_agrees_with_hardware() {
    let xs = samples();
    for &a in &xs {
        for &b in &xs {
            let got = f(s(a) * s(b));
            assert!(same(got, a * b), "{a:e} * {b:e}: got {got:e}, want {:e}", a * b);
        }
    }
}

#[test]
fn quotient_agrees_with_hardware() {
    let xs = samples();
    for &a in &xs {
        for &b in &xs {
            let got = f(s(a) / s(b));
            assert!(same(got, a / b), "{a:e} / {b:e}: got {got:e}, want {:e}", a / b);
        }
    }
}

#[test]
fn root_agrees_with_hardware() {
    for &a in &samples() {
        let got = f(s(a).sqrt());
        assert!(same(got, a.sqrt()), "sqrt {a:e}: got {got:e}, want {:e}", a.sqrt());
        let got = f(s(a).abs().sqrt());
        assert!(same(got, a.abs().sqrt()), "sqrt |{a:e}|: got {got:e}");
    }
}

#[test]
fn comparisons_agree_with_hardware() {
    let xs = samples();
    for &a in &xs {
        for &b in &xs {
            assert_eq!(s(a).less_than(s(b)), a < b, "{a:e} < {b:e}");
            assert_eq!(s(a).at_most(s(b)), a <= b, "{a:e} <= {b:e}");
            assert_eq!(s(a) == s(b), a == b, "{a:e} == {b:e}");
        }
    }
}

/// Numbers with the given exponent bits and a handful of fractions.
fn with_exponent(exponent: u64) -> Vec<f64> {
    let fractions: [u64; 7] = [
        0,
        1,
        0x8_0000_0000_0000,
        0x8_0000_0000_0001,
        0xF_FFFF_FFFF_FFFF,
        0x5_5555_5555_5555,
        0x4_F8B5_88E3_68F1,
    ];
    fractions.iter().map(|&fraction| f64::from_bits((exponent << 52) | fraction)).collect()
}

#[test]
fn sums_agree_with_hardware_at_every_exponent_gap() {
    for high in [1u64, 2, 53, 54, 80, 1023, 2046] {
        for gap in 0..=70u64 {
            if gap > high {
                continue;
            }
            for &a in &with_exponent(high) {
                for &b in &with_exponent(high - gap) {
                    for (x, y) in [(a, b), (a, -b), (-a, b), (b, a), (b, -a)] {
                        let got = f(s(x) + s(y));
                        assert!(same(got, x + y), "{x:e} + {y:e}: got {got:e}");
                        let got = f(s(x) - s(y));
                        assert!(same(got, x - y), "{x:e} - {y:e}: got {got:e}");
                    }
                }
            }
        }
    }
}

#[test]
fn products_agree_with_hardware_where_they_leave_the_normal_range() {
    for left in [0u64, 1, 2, 500, 1000, 1023] {
        for right in 0..=140u64 {
            let mut others = with_exponent(right);
            others.extend(with_exponent(2046 - right));
            for &a in &with_exponent(left) {
                for &b in &others {
                    let got = f(s(a) * s(b));
                    assert!(same(got, a * b), "{a:e} * {b:e}: got {got:e}");
                    let got = f(s(-b) * s(a));
                    assert!(same(got, -b * a), "{b:e} * {a:e}: got {got:e}");
                }
            }
        }
    }
}

#[test]
fn quotients_agree_with_hardware_where_they_leave_the_normal_range() {
    for top in [0u64, 1, 2, 60, 1023, 1100, 2046] {
        for shift in 0..=140u64 {
            let mut bottoms = Vec::new();
            for exponent in [top + 1022 + shift, (top + shift).saturating_sub(1022), shift] {
                if exponent <= 2046 {
                    bottoms.extend(with_exponent(exponent));
                }
            }
            if top + 1024 >= shift {
                bottoms.extend(with_exponent((top + 1024 - shift).min(2046)));
            }
            for &a in &with_exponent(top) {
                for &b in &bottoms {
                    let got = f(s(a) / s(b));
                    assert!(same(got, a / b), "{a:e} / {b:e}: got {got:e}");
                    let got = f(s(b) / s(-a));
                    assert!(same(got, b / -a), "{b:e} / -{a:e}: got {got:e}");
                }
            }
        }
    }
}

#[test]
fn roots_agree_with_hardware_at_every_exponent() {
    for exponent in 0..=2046u64 {
        for &a in &with_exponent(exponent) {
            let got = f(s(a).sqrt());
            assert!(same(got, a.sqrt()), "sqrt {a:e}: got {got:e}");
        }
    }
    // Squares, and their neighbours on either side.
    for root in [1.0f64, 3.0, 1.5, 94906265.0, 94906267.0, 1e-160, 4503599627370497.0] {
        let square = root * root;
        for a in [square, f64::from_bits(square.to_bits() + 1), f64::from_bits(square.to_bits() - 1)] {
            let got = f(s(a).sqrt());
            assert!(same(got, a.sqrt()), "sqrt {a:e}: got {got:e}");
        }
    }
}

/// A stream of pairs of bit patterns: any two, two with exponents close to
/// each other, and two with exponents that meet near the ends of the range.
struct Pairs(u64);

impl Pairs {
    fn bits(&mut self) -> u64 {
        self.0 ^= self.0 << 13;
        self.0 ^= self.0 >> 7;
        self.0 ^= self.0 << 17;
        self.0
    }

    fn pair(&mut self) -> (f64, f64) {
        let a = self.bits();
        let b = self.bits();
        let exponent = (a >> 52) & 0x7FF;
        let other = match self.bits() % 4 {
            0 => (b >> 52) & 0x7FF,
            1 => exponent.saturating_sub(self.bits() % 64),
            2 => (2110 - exponent.min(2046)).saturating_sub(self.bits() % 128).min(2046),
            _ => (exponent + 64).saturating_sub(self.bits() % 128).min(2046),
        };
        (f64::from_bits(a), f64::from_bits((b & 0x800F_FFFF_FFFF_FFFF) | (other << 52)))
    }
}

#[test]
fn arithmetic_agrees_with_hardware_on_many_pairs() {
    let mut pairs = Pairs(0x1234_5678_9ABC_DEF1);
    for _ in 0..40_000 {
        let (a, b) = pairs.pair();
        assert!(same(f(s(a) + s(b)), a + b), "{a:e} + {b:e}");
        assert!(same(f(s(a) - s(b)), a - b), "{a:e} - {b:e}");
        assert!(same(f(s(a) * s(b)), a * b), "{a:e} * {b:e}");
        assert!(same(f(s(a) / s(b)), a / b), "{a:e} / {b:e}");
        assert!(same(f(s(a).sqrt()), a.sqrt()), "sqrt {a:e}");
        assert!(same(f(s(b).abs().sqrt()), b.abs().sqrt()), "sqrt |{b:e}|");
        assert_eq!(s(a).less_than(s(b)), a < b, "{a:e} < {b:e}");
        assert_eq!(s(a) == s(b), a == b, "{a:e} == {b:e}");
    }
}

#[test]
fn negation_flips_the_sign() {
    assert_eq!(f(-s(1.5)), -1.5);
    assert_eq!((-s(0.0)).to_bits(), (-0.0f64).to_bits());
    assert_eq!((-s(f64::INFINITY)).to_bits(), f64::NEG_INFINITY.to_bits());
    assert!(f(-s(f64::NAN)).is_nan());
}

#[test]
fn absolute_value_drops_the_sign() {
    for &a in &samples() {
        assert!(same(f(s(a).abs()), a.abs()));
    }
}

#[test]
fn classification_agrees_with_hardware() {
    for &a in &samples() {
        assert_eq!(s(a).is_nan(), a.is_nan());
        assert_eq!(s(a).is_infinite(), a.is_infinite());
        assert_eq!(s(a).is_finite(), a.is_finite());
        assert_eq!(s(a).is_zero(), a == 0.0);
        assert_eq!(s(a).is_sign_negative(), a.is_sign_negative());
    }
}

#[test]
fn ties_go_to_the_even_significand() {
    // 2^53 + 1 lies half-way between 2^53 and 2^53 + 2.
    assert_eq!(f(s(9007199254740992.0) + s(1.0)), 9007199254740992.0);
    // 2^53 + 3 lies half-way between 2^53 + 2 and 2^53 + 4.
    assert_eq!(f(s(9007199254740994.0) + s(1.0)), 9007199254740996.0);
}

#[test]
fn results_out_of_range_are_infinite() {
    let max = 1.7976931348623157e308;
    assert_eq!(f(s(max) + s(max)), f64::INFINITY);
    assert_eq!(f(s(-max) * s(2.0)), f64::NEG_INFINITY);
    assert_eq!(f(s(max) / s(0.5)), f64::INFINITY);
}

#[test]
fn division_by_zero_is_infinite_or_not_a_number() {
    assert_eq!(f(s(1.0) / s(0.0)), f64::INFINITY);
    assert_eq!(f(s(1.0) / s(-0.0)), f64::NEG_INFINITY);
    assert_eq!(f(s(-1.0) / s(0.0)), f64::NEG_INFINITY);
    assert!(f(s(0.0) / s(0.0)).is_nan());
}

#[test]
fn bit_patterns_round_trip() {
    for &a in &samples() {
        assert_eq!(Scalar::from_bits(a.to_bits()).to_bits(), a.to_bits());
    }
}
