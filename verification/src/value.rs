//! The numbers that binary64 bit patterns stand for, and exact statements of
//! the arithmetic on them.
//!
//! A finite number is a sign and a magnitude counted in units of `2^-1074`,
//! the smallest positive binary64 number; the number one is `2^1074` units.

use crate::rounding::{round_even, round_even_root, scaled};
use vstd::arithmetic::power2::*;
use vstd::prelude::*;

verus! {

/// What a binary64 bit pattern stands for.
pub enum Value {
    /// Not a number.
    Nan,
    /// An infinity.
    Infinite { negative: bool },
    /// A signed number of units of `2^-1074`; zero keeps its sign.
    Finite { negative: bool, units: nat },
}

impl Value {
    /// Positive zero.
    pub open spec fn zero() -> Value {
        Value::Finite { negative: false, units: 0 }
    }

    /// The number one.
    pub open spec fn one() -> Value {
        Value::Finite { negative: false, units: pow2(1074) }
    }

    /// The tolerance of approximate equality: the binary64 number nearest
    /// to `0.00001`, which is `0x14F8B588E368F1 * 2^-69`.
    pub open spec fn epsilon() -> Value {
        Value::Finite { negative: false, units: scaled(0x14_F8B5_88E3_68F1, 1005) }
    }

    /// The largest magnitude whose rounding is below the tolerance: the
    /// tolerance less half of the spacing below it.
    pub open spec fn tolerance_reach() -> nat {
        scaled(0x29_F16B_11C6_D1E1, 1004)
    }

    /// The smallest magnitude that is too large to be finite: `2^1024`.
    pub open spec fn overflow_units() -> nat {
        pow2(2098)
    }

    /// The number with the given sign and magnitude, or the infinity of that
    /// sign when the magnitude is out of range.
    pub open spec fn bounded(negative: bool, units: nat) -> Value {
        if units >= Self::overflow_units() {
            Value::Infinite { negative }
        } else {
            Value::Finite { negative, units }
        }
    }

    /// The number nearest to `n / d` units with the given sign, ties going
    /// to the even significand.
    pub open spec fn rounded(negative: bool, n: nat, d: nat) -> Value {
        Self::bounded(negative, round_even(n, d))
    }

    /// Whether this is a finite number of magnitude at most `2^e`.
    pub open spec fn within_pow2(self, e: nat) -> bool {
        self matches Value::Finite { units, .. } && units <= pow2(1074 + e)
    }

    /// Whether this is a normal number: finite, and at least `2^-1022` in
    /// magnitude.
    pub open spec fn is_normal(self) -> bool {
        self matches Value::Finite { units, .. } && units >= pow2(52)
    }

    /// Whether the sign is negative; `Nan` counts as unsigned.
    pub open spec fn is_negative(self) -> bool {
        match self {
            Value::Nan => false,
            Value::Infinite { negative } => negative,
            Value::Finite { negative, .. } => negative,
        }
    }

    /// Whether this is a zero of either sign.
    pub open spec fn is_zero(self) -> bool {
        self matches Value::Finite { units, .. } && units == 0
    }

    /// The magnitude of a finite number, in units.
    pub open spec fn units(self) -> nat
        recommends
            self is Finite,
    {
        match self {
            Value::Finite { units, .. } => units,
            _ => 0,
        }
    }

    /// A finite number as a signed count of units.
    pub open spec fn signed_units(self) -> int
        recommends
            self is Finite,
    {
        match self {
            Value::Finite { negative, units } => if negative {
                -(units as int)
            } else {
                units as int
            },
            _ => 0,
        }
    }

    /// The number with the opposite sign.
    pub open spec fn negated(self) -> Value {
        match self {
            Value::Nan => Value::Nan,
            Value::Infinite { negative } => Value::Infinite { negative: !negative },
            Value::Finite { negative, units } => Value::Finite { negative: !negative, units },
        }
    }

    /// The number without its sign.
    pub open spec fn absolute(self) -> Value {
        match self {
            Value::Nan => Value::Nan,
            Value::Infinite { .. } => Value::Infinite { negative: false },
            Value::Finite { units, .. } => Value::Finite { negative: false, units },
        }
    }

    /// The sum, rounded to nearest. Infinities of opposite sign have no sum;
    /// an exact zero is negative only when both terms are negative zeros.
    pub open spec fn sum(self, other: Value) -> Value {
        match (self, other) {
            (Value::Nan, _) => Value::Nan,
            (_, Value::Nan) => Value::Nan,
            (Value::Infinite { negative: a }, Value::Infinite { negative: b }) => if a == b {
                self
            } else {
                Value::Nan
            },
            (Value::Infinite { .. }, _) => self,
            (_, Value::Infinite { .. }) => other,
            (Value::Finite { negative: a, .. }, Value::Finite { negative: b, .. }) => {
                let exact = self.signed_units() + other.signed_units();
                if exact == 0 {
                    Value::Finite { negative: a && b, units: 0 }
                } else if exact < 0 {
                    Self::rounded(true, (-exact) as nat, 1)
                } else {
                    Self::rounded(false, exact as nat, 1)
                }
            },
        }
    }

    /// The difference: the sum with the negated subtrahend.
    pub open spec fn difference(self, other: Value) -> Value {
        self.sum(other.negated())
    }

    /// The product, rounded to nearest. Zero times an infinity is not a
    /// number; otherwise the sign is negative when exactly one factor is.
    pub open spec fn product(self, other: Value) -> Value {
        let negative = self.is_negative() != other.is_negative();
        match (self, other) {
            (Value::Nan, _) => Value::Nan,
            (_, Value::Nan) => Value::Nan,
            (Value::Infinite { .. }, _) => if other.is_zero() {
                Value::Nan
            } else {
                Value::Infinite { negative }
            },
            (_, Value::Infinite { .. }) => if self.is_zero() {
                Value::Nan
            } else {
                Value::Infinite { negative }
            },
            (Value::Finite { units: a, .. }, Value::Finite { units: b, .. }) => Self::rounded(
                negative,
                a * b,
                pow2(1074),
            ),
        }
    }

    /// The quotient, rounded to nearest. Zero by zero and infinity by
    /// infinity are not numbers; any other division by zero is an infinity.
    pub open spec fn quotient(self, other: Value) -> Value {
        let negative = self.is_negative() != other.is_negative();
        match (self, other) {
            (Value::Nan, _) => Value::Nan,
            (_, Value::Nan) => Value::Nan,
            (Value::Infinite { .. }, Value::Infinite { .. }) => Value::Nan,
            (Value::Infinite { .. }, _) => Value::Infinite { negative },
            (_, Value::Infinite { .. }) => Value::Finite { negative, units: 0 },
            (Value::Finite { units: a, .. }, Value::Finite { units: b, .. }) => if b == 0 {
                if a == 0 {
                    Value::Nan
                } else {
                    Value::Infinite { negative }
                }
            } else {
                Self::rounded(negative, a * pow2(1074), b)
            },
        }
    }

    /// The square root, rounded to nearest. Negative numbers have none,
    /// except negative zero, which is its own root.
    pub open spec fn root(self) -> Value {
        match self {
            Value::Nan => Value::Nan,
            Value::Infinite { negative } => if negative {
                Value::Nan
            } else {
                self
            },
            Value::Finite { negative, units } => if units == 0 {
                self
            } else if negative {
                Value::Nan
            } else {
                Value::Finite { negative: false, units: round_even_root(units * pow2(1074)) }
            },
        }
    }

    /// Whether this number is strictly below the other. Nothing is below or
    /// above `Nan`, and the two zeros are equal.
    pub open spec fn less_than(self, other: Value) -> bool {
        match (self, other) {
            (Value::Nan, _) => false,
            (_, Value::Nan) => false,
            (Value::Infinite { negative: a }, Value::Infinite { negative: b }) => a && !b,
            (Value::Infinite { negative: a }, _) => a,
            (_, Value::Infinite { negative: b }) => !b,
            (Value::Finite { .. }, Value::Finite { .. }) => self.signed_units()
                < other.signed_units(),
        }
    }

    /// Whether the exact difference of two finite numbers is at most
    /// `tolerance_reach` in magnitude.
    pub open spec fn close_to(self, other: Value) -> bool
        recommends
            self is Finite,
            other is Finite,
    {
        -Self::tolerance_reach() <= self.signed_units() - other.signed_units()
            <= Self::tolerance_reach()
    }

    /// Whether the two numbers are approximately equal: the magnitude of
    /// their rounded difference is below the tolerance.
    pub open spec fn approx_eq(self, other: Value) -> bool {
        self.difference(other).absolute().less_than(Self::epsilon())
    }

    /// Whether the two are the same, or zeros that differ in sign only.
    pub open spec fn same_up_to_zero_sign(self, other: Value) -> bool {
        self == other || (self.is_zero() && other.is_zero())
    }

    /// Whether the two numbers are equal as numbers. `Nan` equals nothing,
    /// and the two zeros are equal.
    pub open spec fn same_number(self, other: Value) -> bool {
        match (self, other) {
            (Value::Nan, _) => false,
            (_, Value::Nan) => false,
            (Value::Infinite { negative: a }, Value::Infinite { negative: b }) => a == b,
            (Value::Finite { .. }, Value::Finite { .. }) => self.signed_units()
                == other.signed_units(),
            _ => false,
        }
    }
}

} // verus!
