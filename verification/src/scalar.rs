//! Binary64 numbers held as bit patterns.

use crate::rounding::{
    lemma_spacing_exp, scaled, spacing_exp, HIDDEN_BIT, SIGNIFICAND_LIMIT,
};
use crate::value::Value;
use vstd::arithmetic::div_mod::*;
use vstd::arithmetic::mul::*;
use vstd::arithmetic::power2::*;
use vstd::prelude::*;

verus! {

/// The bit that holds the sign.
pub const SIGN_BIT: u64 = 0x8000_0000_0000_0000;

/// The pattern of positive infinity: every exponent bit set, no fraction.
pub const INFINITY_BITS: u64 = 0x7FF0_0000_0000_0000;

/// The pattern that arithmetic returns for a result that is not a number.
pub const NAN_BITS: u64 = 0x7FF8_0000_0000_0000;

/// The largest exponent of a finite magnitude, counted in units.
pub const MAX_EXPONENT: u64 = 2045;

/// A binary64 number: one sign bit, eleven exponent bits and fifty-two
/// fraction bits.
#[derive(Clone, Copy, Debug)]
pub struct Scalar {
    pub bits: u64,
}

impl View for Scalar {
    type V = Value;

    /// The number that the bit pattern stands for.
    open spec fn view(&self) -> Value {
        let negative = self.sign_bit();
        let field = self.magnitude_field();
        let exponent = self.exponent_field();
        let fraction = self.fraction_field();
        if field > INFINITY_BITS {
            Value::Nan
        } else if field == INFINITY_BITS {
            Value::Infinite { negative }
        } else if exponent == 0 {
            Value::Finite { negative, units: fraction as nat }
        } else {
            Value::Finite {
                negative,
                units: ((HIDDEN_BIT + fraction) * pow2((exponent - 1) as nat)) as nat,
            }
        }
    }
}

/// The sign bit as a summand of a bit pattern.
pub open spec fn sign_field(negative: bool) -> nat {
    if negative {
        SIGN_BIT as nat
    } else {
        0
    }
}

impl Scalar {
    /// Whether the sign bit is set.
    pub open spec fn sign_bit(self) -> bool {
        self.bits >= SIGN_BIT
    }

    /// The bits below the sign bit.
    pub open spec fn magnitude_field(self) -> u64 {
        self.bits % SIGN_BIT
    }

    /// The eleven exponent bits.
    pub open spec fn exponent_field(self) -> u64 {
        self.magnitude_field() / HIDDEN_BIT
    }

    /// The fifty-two fraction bits.
    pub open spec fn fraction_field(self) -> u64 {
        self.magnitude_field() % HIDDEN_BIT
    }

    /// The significand of a finite number: the fraction, with the hidden bit
    /// on top unless the exponent bits are all zero.
    pub open spec fn significand(self) -> nat {
        if self.exponent_field() == 0 {
            self.fraction_field() as nat
        } else {
            (HIDDEN_BIT + self.fraction_field()) as nat
        }
    }

    /// The exponent of a finite number, counted in units: its magnitude is
    /// `significand * 2^exponent` units.
    pub open spec fn exponent(self) -> nat {
        if self.exponent_field() == 0 {
            0
        } else {
            (self.exponent_field() - 1) as nat
        }
    }

    /// The bit pattern that stands for a number; for `Nan`, the one pattern
    /// that arithmetic returns.
    pub open spec fn of(v: Value) -> Scalar {
        match v {
            Value::Nan => Scalar { bits: NAN_BITS },
            Value::Infinite { negative } => Scalar {
                bits: (sign_field(negative) + INFINITY_BITS) as u64,
            },
            Value::Finite { negative, units } => {
                let k = spacing_exp(units);
                Scalar { bits: (sign_field(negative) + k * HIDDEN_BIT + units / pow2(k)) as u64 }
            },
        }
    }

    /// The number with the given bit pattern.
    pub fn from_bits(bits: u64) -> (r: Scalar)
        ensures
            r.bits == bits,
    {
        Scalar { bits }
    }

    /// The bit pattern of the number.
    pub fn to_bits(self) -> (r: u64)
        ensures
            r == self.bits,
    {
        self.bits
    }

    /// Whether the sign bit is set.
    pub fn is_sign_negative(self) -> (r: bool)
        ensures
            r == self.sign_bit(),
            !(self@ is Nan) ==> r == self@.is_negative(),
    {
        self.bits >= SIGN_BIT
    }

    /// Whether this is not a number.
    pub fn is_nan(self) -> (r: bool)
        ensures
            r == (self@ is Nan),
    {
        self.bits % SIGN_BIT > INFINITY_BITS
    }

    /// Whether this is an infinity.
    pub fn is_infinite(self) -> (r: bool)
        ensures
            r == (self@ is Infinite),
    {
        self.bits % SIGN_BIT == INFINITY_BITS
    }

    /// Whether this is a finite number.
    pub fn is_finite(self) -> (r: bool)
        ensures
            r == (self@ is Finite),
    {
        self.bits % SIGN_BIT < INFINITY_BITS
    }

    /// Whether this is a zero of either sign.
    pub fn is_zero(self) -> (r: bool)
        ensures
            r == self@.is_zero(),
    {
        proof {
            lemma2_to64();
            if self@ is Finite && self.exponent_field() != 0 {
                let e = (self.exponent_field() - 1) as nat;
                lemma_pow2_pos(e);
                lemma_mul_strictly_positive(
                    HIDDEN_BIT + self.fraction_field(),
                    pow2(e) as int,
                );
            }
        }
        self.bits % SIGN_BIT == 0
    }

    /// The exponent bits as a number.
    pub(crate) fn exponent_bits(self) -> (r: u64)
        ensures
            r == self.exponent_field(),
    {
        (self.bits % SIGN_BIT) / HIDDEN_BIT
    }

    /// The canonical pattern that is not a number.
    pub(crate) fn nan() -> (r: Scalar)
        ensures
            r@ is Nan,
            r == Scalar::of(Value::Nan),
    {
        Scalar { bits: NAN_BITS }
    }

    /// The infinity of the given sign.
    pub(crate) fn infinity(negative: bool) -> (r: Scalar)
        ensures
            r@ == (Value::Infinite { negative }),
            r == Scalar::of(r@),
    {
        if negative {
            Scalar { bits: SIGN_BIT + INFINITY_BITS }
        } else {
            Scalar { bits: INFINITY_BITS }
        }
    }

    /// The significand and exponent of a finite number: its magnitude is
    /// `significand * 2^exponent` units.
    pub(crate) fn parts(self) -> (r: (u64, u64))
        requires
            self@ is Finite,
        ensures
            r.0 < SIGNIFICAND_LIMIT,
            r.1 <= MAX_EXPONENT,
            r.1 > 0 ==> r.0 >= HIDDEN_BIT,
            self@.units() == scaled(r.0 as nat, r.1 as nat),
            r.0 == self.significand(),
            r.1 == self.exponent(),
    {
        let field = self.bits % SIGN_BIT;
        let exponent = field / HIDDEN_BIT;
        let fraction = field % HIDDEN_BIT;
        proof {
            lemma_parts(self);
        }
        if exponent == 0 {
            (fraction, 0)
        } else {
            (HIDDEN_BIT + fraction, exponent - 1)
        }
    }

    /// The finite number with the given sign, significand and exponent.
    pub(crate) fn pack(negative: bool, significand: u64, exponent: u64) -> (r: Scalar)
        requires
            significand < SIGNIFICAND_LIMIT,
            exponent <= MAX_EXPONENT,
            exponent > 0 ==> significand >= HIDDEN_BIT,
        ensures
            r@ == (Value::Finite { negative, units: scaled(significand as nat, exponent as nat) }),
            r == Scalar::of(r@),
    {
        let field = exponent * HIDDEN_BIT + significand;
        proof {
            lemma_pack(negative, significand, exponent);
        }
        if negative {
            Scalar { bits: SIGN_BIT + field }
        } else {
            Scalar { bits: field }
        }
    }
}

/// The pattern put together from a sign, a significand and an exponent
/// stands for that magnitude, and is the pattern chosen for it.
pub proof fn lemma_pack(negative: bool, significand: u64, exponent: u64)
    requires
        significand < SIGNIFICAND_LIMIT,
        exponent <= MAX_EXPONENT,
        exponent > 0 ==> significand >= HIDDEN_BIT,
    ensures
        sign_field(negative) + exponent * HIDDEN_BIT + significand <= u64::MAX,
        exponent * HIDDEN_BIT + significand < INFINITY_BITS,
        ({
            let r = Scalar {
                bits: (sign_field(negative) + exponent * HIDDEN_BIT + significand) as u64,
            };
            let v = Value::Finite { negative, units: scaled(significand as nat, exponent as nat) };
            r@ == v && r == Scalar::of(v)
        }),
{
    let units = significand * pow2(exponent as nat);
    let field = exponent * HIDDEN_BIT + significand;
    let r = Scalar { bits: (sign_field(negative) + field) as u64 };
    lemma2_to64();
    lemma_pow2_pos(exponent as nat);
    assert(r.bits % SIGN_BIT == field);
    assert((r.bits >= SIGN_BIT) == negative);
    let f = r.bits % SIGN_BIT;
    if significand < HIDDEN_BIT {
        assert(f / HIDDEN_BIT == 0);
        assert(f % HIDDEN_BIT == significand);
        assert(pow2(exponent as nat) == 1);
        assert(units == significand * 1);
    } else {
        assert(f / HIDDEN_BIT == exponent + 1);
        assert(f % HIDDEN_BIT == significand - HIDDEN_BIT);
    }
    assert(r@ == Value::Finite { negative, units: units as nat });
    lemma_div_by_multiple(significand as int, pow2(exponent as nat) as int);
    lemma_spacing_exp(units as nat, exponent as nat);
}

/// A finite number is its significand scaled by its exponent, and its
/// magnitude field holds the two side by side.
pub proof fn lemma_parts(s: Scalar)
    requires
        s@ is Finite,
    ensures
        s@.units() == scaled(s.significand(), s.exponent()),
        s.significand() < SIGNIFICAND_LIMIT,
        s.exponent() <= MAX_EXPONENT,
        s.exponent() > 0 ==> s.significand() >= HIDDEN_BIT,
        s.magnitude_field() == s.exponent() * HIDDEN_BIT + s.significand(),
{
    lemma2_to64();
    if s.exponent_field() == 0 {
        assert(pow2(0) == 1);
        assert(scaled(s.significand(), 0) == s.significand() * 1);
    }
}

/// Every pattern that stands for a number is the pattern chosen for that
/// number.
pub proof fn lemma_canonical(s: Scalar)
    requires
        !(s@ is Nan),
    ensures
        Scalar::of(s@) == s,
{
    if s@ is Finite {
        lemma_parts(s);
        lemma_pack(s.sign_bit(), s.significand() as u64, s.exponent() as u64);
    }
}

} // verus!
