//! Real numbers as IEEE-754 binary64 bit patterns.
//!
//! The interpreter never computes with floating point itself. A number is the
//! 64-bit encoding of a double; what can be read off the encoding (sign, zero,
//! NaN, order) is decided here on integers, and the arithmetic proper is asked
//! of the host (see [`crate::host`]).

use vstd::prelude::*;

verus! {

/// The encoding's sign bit, which is also the number of distinct magnitudes.
pub const SIGN_BIT: u64 = 0x8000_0000_0000_0000;

/// The magnitude of positive infinity; every larger magnitude is a NaN.
pub const INFINITY_MAGNITUDE: u64 = 0x7FF0_0000_0000_0000;

/// The encoding of `1.0`.
pub const ONE_BITS: u64 = 0x3FF0_0000_0000_0000;

/// The encoding of `-1.0`.
pub const MINUS_ONE_BITS: u64 = 0xBFF0_0000_0000_0000;

/// The encoding of `1e20`, the largest number that an unset variable reads
/// as.
pub const DRAW_HIGH_BITS: u64 = 0x4415_AF1D_78B5_8C40;

/// The encoding of `-1e20`, the smallest number that an unset variable
/// reads as.
pub const DRAW_LOW_BITS: u64 = 0xC415_AF1D_78B5_8C40;

/// A real number, held as the 64 bits of its IEEE-754 binary64 encoding.
#[derive(Clone, Copy, Debug, PartialEq, Eq, Structural)]
pub struct Number {
    pub bits: u64,
}

impl Number {
    /// The encoding with its sign bit cleared.
    pub open spec fn magnitude(self) -> int {
        if self.bits >= SIGN_BIT {
            self.bits - SIGN_BIT
        } else {
            self.bits as int
        }
    }

    /// Whether the sign bit is set.
    pub open spec fn negative(self) -> bool {
        self.bits >= SIGN_BIT
    }

    /// Whether the encoding is a NaN.
    pub open spec fn nan(self) -> bool {
        self.magnitude() > INFINITY_MAGNITUDE
    }

    /// Whether the number is `0.0` or `-0.0`.
    pub open spec fn zero(self) -> bool {
        self.magnitude() == 0
    }

    /// The number's truth value: everything but the two zeros is true, NaN
    /// included.
    pub open spec fn truth(self) -> bool {
        !self.zero()
    }

    /// The place of a number that is not a NaN in the order of the reals: two
    /// such numbers compare as their ranks do. Both zeros have rank 0.
    pub open spec fn rank(self) -> int {
        if self.negative() {
            -self.magnitude()
        } else {
            self.magnitude()
        }
    }

    /// IEEE equality: no NaN equals anything, and `0.0` equals `-0.0`.
    pub open spec fn same(self, other: Number) -> bool {
        !self.nan() && !other.nan() && self.rank() == other.rank()
    }

    /// IEEE `<`: false whenever a NaN is involved.
    pub open spec fn below(self, other: Number) -> bool {
        !self.nan() && !other.nan() && self.rank() < other.rank()
    }

    /// IEEE `<=`: false whenever a NaN is involved.
    pub open spec fn at_most(self, other: Number) -> bool {
        !self.nan() && !other.nan() && self.rank() <= other.rank()
    }

    /// Whether the number is one that an unset variable may read as: it is
    /// no NaN and lies between `-1e20` and `1e20`, the ends included.
    pub open spec fn drawable(self) -> bool {
        (Number { bits: DRAW_LOW_BITS }).at_most(self) && self.at_most(
            Number { bits: DRAW_HIGH_BITS },
        )
    }

    /// The number a truth value stands for: `1.0` for true, `0.0` for false.
    pub open spec fn truth_value(b: bool) -> Number {
        if b {
            Number { bits: ONE_BITS }
        } else {
            Number { bits: 0 }
        }
    }

    pub fn from_bits(bits: u64) -> (n: Number)
        ensures
            n.bits == bits,
    {
        Number { bits }
    }

    pub fn to_bits(self) -> (bits: u64)
        ensures
            bits == self.bits,
    {
        self.bits
    }

    /// `1.0`
    pub fn one() -> (n: Number)
        ensures
            n == (Number { bits: ONE_BITS }),
    {
        Number { bits: ONE_BITS }
    }

    /// `-1.0`
    pub fn minus_one() -> (n: Number)
        ensures
            n == (Number { bits: MINUS_ONE_BITS }),
    {
        Number { bits: MINUS_ONE_BITS }
    }

    /// `1.0` for true and `0.0` for false.
    pub fn from_bool(b: bool) -> (n: Number)
        ensures
            n == Number::truth_value(b),
    {
        if b {
            Number { bits: ONE_BITS }
        } else {
            Number { bits: 0 }
        }
    }

    fn magnitude_bits(self) -> (m: u64)
        ensures
            m == self.magnitude(),
    {
        if self.bits >= SIGN_BIT {
            self.bits - SIGN_BIT
        } else {
            self.bits
        }
    }

    pub fn is_nan(self) -> (r: bool)
        ensures
            r == self.nan(),
    {
        self.magnitude_bits() > INFINITY_MAGNITUDE
    }

    pub fn is_zero(self) -> (r: bool)
        ensures
            r == self.zero(),
    {
        self.magnitude_bits() == 0
    }

    /// Whether the number is no NaN and lies between `-1e20` and `1e20`.
    pub fn is_drawable(self) -> (r: bool)
        ensures
            r == self.drawable(),
            r ==> !self.nan(),
    {
        self.magnitude_bits() <= DRAW_HIGH_BITS
    }

    /// Whether the number counts as true in a condition.
    pub fn is_true(self) -> (r: bool)
        ensures
            r == self.truth(),
    {
        self.magnitude_bits() != 0
    }

    /// Whether `self < other` among numbers that are not NaN.
    fn rank_below(self, other: Number) -> (r: bool)
        ensures
            r == (self.rank() < other.rank()),
    {
        let a: u64 = self.magnitude_bits();
        let b: u64 = other.magnitude_bits();
        if self.bits >= SIGN_BIT {
            if other.bits >= SIGN_BIT {
                b < a
            } else {
                a > 0 || b > 0
            }
        } else {
            if other.bits >= SIGN_BIT {
                false
            } else {
                a < b
            }
        }
    }

    /// IEEE `==`.
    pub fn equals(self, other: Number) -> (r: bool)
        ensures
            r == self.same(other),
    {
        !self.is_nan() && !other.is_nan() && !self.rank_below(other) && !other.rank_below(self)
    }

    /// IEEE `<`.
    pub fn less(self, other: Number) -> (r: bool)
        ensures
            r == self.below(other),
    {
        !self.is_nan() && !other.is_nan() && self.rank_below(other)
    }

    /// IEEE `<=`.
    pub fn less_equal(self, other: Number) -> (r: bool)
        ensures
            r == self.at_most(other),
    {
        !self.is_nan() && !other.is_nan() && !other.rank_below(self)
    }
}

} // verus!
