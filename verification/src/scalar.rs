//! IEEE-754 binary64 numbers, held by their bit patterns.
//!
//! A [`Scalar`] is the 64 bits of a double.  Everything the library decides
//! about a number it decides by comparing: the comparisons here are those of
//! IEEE-754, stated over the sign and the magnitude of the pattern.

use vstd::prelude::*;

verus! {

/// The sign bit of a pattern.
pub const SIGN_BIT: u64 = 0x8000_0000_0000_0000;

/// Everything but the sign bit: biased exponent and fraction.
pub const MAGNITUDE_MASK: u64 = 0x7fff_ffff_ffff_ffff;

/// The magnitude of an infinity; a larger magnitude is not a number.
pub const INFINITY_BITS: u64 = 0x7ff0_0000_0000_0000;

/// A binary64 number, by its bits.
///
/// `==` on two scalars compares the bits, so it tells `-0.0` from `0.0` and
/// finds a NaN equal to itself.  The numeric relations are [`Scalar::lt`],
/// [`Scalar::le`] and [`Scalar::same`].
#[derive(Clone, Copy, Debug, PartialEq, Eq, Structural)]
pub struct Scalar {
    pub bits: u64,
}

impl Scalar {
    /// Exponent and fraction, read as an integer.
    pub open spec fn magnitude(self) -> int {
        (self.bits & MAGNITUDE_MASK) as int
    }

    /// The sign bit is set.
    pub open spec fn negative(self) -> bool {
        self.bits & SIGN_BIT != 0
    }

    /// Not a number: all exponent bits set and a fraction that is not zero.
    pub open spec fn nan(self) -> bool {
        self.magnitude() > INFINITY_BITS
    }

    /// The place of a number in the order of the extended reals.
    ///
    /// For two patterns that are numbers, the one with the smaller key is the
    /// smaller number, and equal keys are equal numbers (both zeros have key
    /// 0).
    pub open spec fn key(self) -> int {
        if self.negative() {
            -self.magnitude()
        } else {
            self.magnitude()
        }
    }

    /// `self < other`, as IEEE-754 has it: false when either is a NaN.
    pub open spec fn spec_lt(self, other: Scalar) -> bool {
        !self.nan() && !other.nan() && self.key() < other.key()
    }

    /// `self <= other`, as IEEE-754 has it: false when either is a NaN.
    pub open spec fn spec_le(self, other: Scalar) -> bool {
        !self.nan() && !other.nan() && self.key() <= other.key()
    }

    /// `self == other` as numbers: false when either is a NaN, true of the
    /// two zeros.
    pub open spec fn spec_same(self, other: Scalar) -> bool {
        !self.nan() && !other.nan() && self.key() == other.key()
    }

    /// The number with the sign bit flipped.
    pub open spec fn spec_neg(self) -> Scalar {
        Scalar { bits: self.bits ^ SIGN_BIT }
    }

    /// The number with the sign bit cleared.
    pub open spec fn spec_abs(self) -> Scalar {
        Scalar { bits: self.bits & MAGNITUDE_MASK }
    }

    /// Positive zero.
    pub open spec fn spec_zero() -> Scalar {
        Scalar { bits: 0 }
    }

    /// One.
    pub open spec fn spec_one() -> Scalar {
        Scalar { bits: 0x3ff0_0000_0000_0000 }
    }

    pub fn from_bits(bits: u64) -> (r: Scalar)
        ensures
            r.bits == bits,
    {
        Scalar { bits }
    }

    pub fn to_bits(self) -> (r: u64)
        ensures
            r == self.bits,
    {
        self.bits
    }

    #[verifier::when_used_as_spec(spec_zero)]
    pub fn zero() -> (r: Scalar)
        ensures
            r == Scalar::spec_zero(),
    {
        Scalar { bits: 0 }
    }

    #[verifier::when_used_as_spec(spec_one)]
    pub fn one() -> (r: Scalar)
        ensures
            r == Scalar::spec_one(),
    {
        Scalar { bits: 0x3ff0_0000_0000_0000 }
    }

    pub fn is_nan(self) -> (r: bool)
        ensures
            r == self.nan(),
    {
        (self.bits & MAGNITUDE_MASK) > INFINITY_BITS
    }

    /// The key as a machine integer.
    fn order_key(self) -> (k: i64)
        ensures
            k == self.key(),
    {
        let bits = self.bits;
        let mag = bits & MAGNITUDE_MASK;
        assert(mag <= 0x7fff_ffff_ffff_ffff) by (bit_vector)
            requires
                mag == bits & 0x7fff_ffff_ffff_ffff,
        ;
        if bits & SIGN_BIT == 0 {
            mag as i64
        } else {
            -(mag as i64)
        }
    }

    #[verifier::when_used_as_spec(spec_lt)]
    pub fn lt(self, other: Scalar) -> (r: bool)
        ensures
            r == self.spec_lt(other),
    {
        !self.is_nan() && !other.is_nan() && self.order_key() < other.order_key()
    }

    #[verifier::when_used_as_spec(spec_le)]
    pub fn le(self, other: Scalar) -> (r: bool)
        ensures
            r == self.spec_le(other),
    {
        !self.is_nan() && !other.is_nan() && self.order_key() <= other.order_key()
    }

    /// `self > other`: `other < self`.
    pub fn gt(self, other: Scalar) -> (r: bool)
        ensures
            r == other.spec_lt(self),
    {
        other.lt(self)
    }

    /// `self >= other`: `other <= self`.
    pub fn ge(self, other: Scalar) -> (r: bool)
        ensures
            r == other.spec_le(self),
    {
        other.le(self)
    }

    #[verifier::when_used_as_spec(spec_same)]
    pub fn same(self, other: Scalar) -> (r: bool)
        ensures
            r == self.spec_same(other),
    {
        !self.is_nan() && !other.is_nan() && self.order_key() == other.order_key()
    }

    #[verifier::when_used_as_spec(spec_neg)]
    pub fn neg(self) -> (r: Scalar)
        ensures
            r == self.spec_neg(),
    {
        Scalar { bits: self.bits ^ SIGN_BIT }
    }

    #[verifier::when_used_as_spec(spec_abs)]
    pub fn abs(self) -> (r: Scalar)
        ensures
            r == self.spec_abs(),
    {
        Scalar { bits: self.bits & MAGNITUDE_MASK }
    }

    /// Negation keeps the magnitude and turns the key round.
    pub proof fn lemma_neg(self)
        ensures
            self.spec_neg().magnitude() == self.magnitude(),
            self.spec_neg().nan() == self.nan(),
            self.spec_neg().key() == -self.key(),
            self.spec_neg().spec_neg() == self,
    {
        let b = self.bits;
        assert((b ^ 0x8000_0000_0000_0000) & 0x7fff_ffff_ffff_ffff == b & 0x7fff_ffff_ffff_ffff)
            by (bit_vector);
        assert(((b ^ 0x8000_0000_0000_0000) & 0x8000_0000_0000_0000 != 0) == (b
            & 0x8000_0000_0000_0000 == 0)) by (bit_vector);
        assert((b ^ 0x8000_0000_0000_0000) ^ 0x8000_0000_0000_0000 == b) by (bit_vector);
    }

    /// The absolute value keeps the magnitude and has a key that is not
    /// negative.
    pub proof fn lemma_abs(self)
        ensures
            self.spec_abs().magnitude() == self.magnitude(),
            self.spec_abs().nan() == self.nan(),
            !self.spec_abs().negative(),
            self.spec_abs().key() == self.magnitude(),
            self.spec_abs().key() == (if self.key() < 0 {
                -self.key()
            } else {
                self.key()
            }),
    {
        let b = self.bits;
        assert((b & 0x7fff_ffff_ffff_ffff) & 0x7fff_ffff_ffff_ffff == b & 0x7fff_ffff_ffff_ffff)
            by (bit_vector);
        assert((b & 0x7fff_ffff_ffff_ffff) & 0x8000_0000_0000_0000 == 0) by (bit_vector);
    }
}

/// The smaller of two numbers; `b` when they do not compare.
pub open spec fn spec_fmin(a: Scalar, b: Scalar) -> Scalar {
    if a.spec_le(b) {
        a
    } else {
        b
    }
}

/// The larger of two numbers; `b` when they do not compare.
pub open spec fn spec_fmax(a: Scalar, b: Scalar) -> Scalar {
    if b.spec_le(a) {
        a
    } else {
        b
    }
}

/// `t` lies in `[tmin, tmax)`; without a `tmax` the interval has no end.
///
/// Only a number lies in an interval: a NaN lies in none, and no number
/// lies in an interval with a NaN for a bound.
pub open spec fn spec_is_in_range(t: Scalar, tmin: Scalar, tmax: Option<Scalar>) -> bool {
    tmin.spec_le(t) && (tmax matches Some(end) ==> t.spec_lt(end))
}

#[verifier::when_used_as_spec(spec_fmin)]
pub fn fmin(a: Scalar, b: Scalar) -> (r: Scalar)
    ensures
        r == spec_fmin(a, b),
{
    if a.le(b) {
        a
    } else {
        b
    }
}

#[verifier::when_used_as_spec(spec_fmax)]
pub fn fmax(a: Scalar, b: Scalar) -> (r: Scalar)
    ensures
        r == spec_fmax(a, b),
{
    if a.ge(b) {
        a
    } else {
        b
    }
}

#[verifier::when_used_as_spec(spec_is_in_range)]
pub fn is_in_range(t: Scalar, tmin: Scalar, tmax: Option<Scalar>) -> (r: bool)
    ensures
        r == spec_is_in_range(t, tmin, tmax),
        r ==> !t.nan(),
{
    if !tmin.le(t) {
        return false;
    }
    if let Some(end) = tmax {
        t.lt(end)
    } else {
        true
    }
}

/// Below this magnitude a denominator counts as zero: the distance from 1
/// to the next single-precision number, 2 to the power of -23.
pub open spec fn spec_epsilon() -> Scalar {
    Scalar { bits: 0x3e80_0000_0000_0000 }
}

#[verifier::when_used_as_spec(spec_epsilon)]
pub fn epsilon() -> (r: Scalar)
    ensures
        r == spec_epsilon(),
{
    Scalar { bits: 0x3e80_0000_0000_0000 }
}

} // verus!
