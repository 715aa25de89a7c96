//! Single-precision numbers as places in their total order: compared,
//! classified and selected from, never computed with.

use vstd::prelude::*;

verus! {

/// Magnitude of an infinity: the eight exponent bits set, the fraction clear.
pub const INFINITY_MAGNITUDE: i32 = 0x7f80_0000;

/// Bit pattern of the number one.
pub const ONE_BITS: u32 = 0x3f80_0000;

/// Bit pattern of the largest finite number.
pub const MAX_BITS: u32 = 0x7f7f_ffff;

/// The sign bit of a binary32 pattern.
pub const SIGN_BIT: u32 = 0x8000_0000;

/// A single-precision (binary32) number, held as its place in the
/// IEEE 754 total order.
///
/// A pattern with a clear sign bit has its own value as `key`; a pattern with
/// the sign bit set and magnitude `m` has `key == -1 - m`. Every `i32` is the
/// key of exactly one pattern, and a smaller key is an earlier place in the
/// total order: negative NaNs, negative infinity, the negative finite numbers,
/// negative zero, positive zero, the positive finite numbers, positive
/// infinity, positive NaNs.
///
/// The type can be compared, classified and selected from; it cannot be
/// computed with. Arithmetic is done on the bit patterns by whoever owns the
/// numeric unit, and handed back through [`Scalar::from_bits`].
#[derive(Clone, Copy, Debug, PartialEq, Eq, Structural)]
pub struct Scalar {
    pub key: i32,
}

/// The key that stands for a bit pattern.
pub open spec fn key_of_bits(bits: u32) -> int {
    if bits < SIGN_BIT {
        bits as int
    } else {
        -1 - (bits - SIGN_BIT)
    }
}

/// The bit pattern that a key stands for.
pub open spec fn bits_of_key(key: int) -> int {
    if key >= 0 {
        key
    } else {
        (-1 - key) + SIGN_BIT
    }
}

impl Scalar {
    /// Positive zero.
    pub open spec fn spec_zero() -> Scalar {
        Scalar { key: 0 }
    }

    /// The number one.
    pub open spec fn spec_one() -> Scalar {
        Scalar { key: ONE_BITS as i32 }
    }

    /// Positive infinity.
    pub open spec fn spec_infinity() -> Scalar {
        Scalar { key: INFINITY_MAGNITUDE }
    }

    /// Negative infinity.
    pub open spec fn spec_neg_infinity() -> Scalar {
        Scalar { key: (-1 - INFINITY_MAGNITUDE) as i32 }
    }

    /// The largest finite number.
    pub open spec fn spec_max_value() -> Scalar {
        Scalar { key: MAX_BITS as i32 }
    }

    /// The pattern without its sign bit.
    pub open spec fn magnitude(self) -> int {
        if self.key >= 0 {
            self.key as int
        } else {
            -1 - self.key
        }
    }

    /// The signed magnitude: both zeros have rank 0, and among numbers that
    /// are not NaN a smaller rank is a smaller number.
    pub open spec fn rank(self) -> int {
        if self.key >= 0 {
            self.key as int
        } else {
            self.key + 1
        }
    }

    /// Not a number: the magnitude lies beyond that of the infinities.
    pub open spec fn spec_is_nan(self) -> bool {
        self.magnitude() > INFINITY_MAGNITUDE
    }

    /// One of the two infinities.
    pub open spec fn spec_is_infinite(self) -> bool {
        self.magnitude() == INFINITY_MAGNITUDE
    }

    /// A number that is neither infinite nor NaN.
    pub open spec fn spec_is_finite(self) -> bool {
        self.magnitude() < INFINITY_MAGNITUDE
    }

    /// One of the two zeros.
    pub open spec fn spec_is_zero(self) -> bool {
        self.magnitude() == 0
    }

    /// The sign bit is set; this is so of negative zero and of half the NaNs.
    pub open spec fn spec_is_sign_negative(self) -> bool {
        self.key < 0
    }

    /// Numeric `<`: false when either side is NaN, and the two zeros are equal.
    pub open spec fn spec_lt(self, other: Scalar) -> bool {
        !self.spec_is_nan() && !other.spec_is_nan() && self.rank() < other.rank()
    }

    /// Numeric `<=`: false when either side is NaN.
    pub open spec fn spec_le(self, other: Scalar) -> bool {
        !self.spec_is_nan() && !other.spec_is_nan() && self.rank() <= other.rank()
    }

    /// Numeric `==`: false when either side is NaN, true of the two zeros.
    pub open spec fn spec_same(self, other: Scalar) -> bool {
        !self.spec_is_nan() && !other.spec_is_nan() && self.rank() == other.rank()
    }

    /// The smaller of two numbers. A NaN on one side gives the other side; of
    /// two numerically equal operands the earlier in the total order is taken.
    pub open spec fn spec_min(self, other: Scalar) -> Scalar {
        if self.spec_is_nan() {
            other
        } else if other.spec_is_nan() {
            self
        } else if self.key <= other.key {
            self
        } else {
            other
        }
    }

    /// The larger of two numbers. A NaN on one side gives the other side; of
    /// two numerically equal operands the later in the total order is taken.
    pub open spec fn spec_max(self, other: Scalar) -> Scalar {
        if self.spec_is_nan() {
            other
        } else if other.spec_is_nan() {
            self
        } else if self.key >= other.key {
            self
        } else {
            other
        }
    }

    /// The number with the opposite sign: the same magnitude on the other
    /// side of the total order.
    pub open spec fn spec_neg(self) -> Scalar {
        Scalar { key: (-1 - self.key) as i32 }
    }

    /// The number without its sign.
    pub open spec fn spec_abs(self) -> Scalar {
        if self.key >= 0 {
            self
        } else {
            self.spec_neg()
        }
    }

    /// The number with the given bit pattern.
    pub fn from_bits(bits: u32) -> (s: Scalar)
        ensures
            s.key == key_of_bits(bits),
            bits_of_key(s.key as int) == bits,
    {
        if bits < SIGN_BIT {
            Scalar { key: bits as i32 }
        } else {
            let magnitude: u32 = bits - SIGN_BIT;
            Scalar { key: -1 - (magnitude as i32) }
        }
    }

    /// The bit pattern of this number.
    pub fn to_bits(self) -> (bits: u32)
        ensures
            bits == bits_of_key(self.key as int),
            key_of_bits(bits) == self.key,
    {
        if self.key >= 0 {
            self.key as u32
        } else {
            let magnitude: i32 = -1 - self.key;
            (magnitude as u32) + SIGN_BIT
        }
    }

    /// Positive zero.
    #[verifier::when_used_as_spec(spec_zero)]
    pub fn zero() -> (s: Scalar)
        ensures
            s == Scalar::spec_zero(),
    {
        Scalar { key: 0 }
    }

    /// The number one.
    #[verifier::when_used_as_spec(spec_one)]
    pub fn one() -> (s: Scalar)
        ensures
            s == Scalar::spec_one(),
    {
        Scalar::from_bits(ONE_BITS)
    }

    /// Positive infinity.
    #[verifier::when_used_as_spec(spec_infinity)]
    pub fn infinity() -> (s: Scalar)
        ensures
            s == Scalar::spec_infinity(),
    {
        Scalar { key: INFINITY_MAGNITUDE }
    }

    /// Negative infinity.
    #[verifier::when_used_as_spec(spec_neg_infinity)]
    pub fn neg_infinity() -> (s: Scalar)
        ensures
            s == Scalar::spec_neg_infinity(),
    {
        Scalar { key: -1 - INFINITY_MAGNITUDE }
    }

    /// The largest finite number.
    #[verifier::when_used_as_spec(spec_max_value)]
    pub fn max_value() -> (s: Scalar)
        ensures
            s == Scalar::spec_max_value(),
    {
        Scalar::from_bits(MAX_BITS)
    }

    /// Whether this is not a number.
    #[verifier::when_used_as_spec(spec_is_nan)]
    pub fn is_nan(self) -> (r: bool)
        ensures
            r == self.spec_is_nan(),
    {
        self.key > INFINITY_MAGNITUDE || self.key < -1 - INFINITY_MAGNITUDE
    }

    /// Whether this is one of the two infinities.
    #[verifier::when_used_as_spec(spec_is_infinite)]
    pub fn is_infinite(self) -> (r: bool)
        ensures
            r == self.spec_is_infinite(),
    {
        self.key == INFINITY_MAGNITUDE || self.key == -1 - INFINITY_MAGNITUDE
    }

    /// Whether this is a number and not infinite.
    #[verifier::when_used_as_spec(spec_is_finite)]
    pub fn is_finite(self) -> (r: bool)
        ensures
            r == self.spec_is_finite(),
    {
        -1 - INFINITY_MAGNITUDE < self.key && self.key < INFINITY_MAGNITUDE
    }

    /// Whether this is one of the two zeros.
    #[verifier::when_used_as_spec(spec_is_zero)]
    pub fn is_zero(self) -> (r: bool)
        ensures
            r == self.spec_is_zero(),
    {
        self.key == 0 || self.key == -1
    }

    /// Whether the sign bit is set.
    #[verifier::when_used_as_spec(spec_is_sign_negative)]
    pub fn is_sign_negative(self) -> (r: bool)
        ensures
            r == self.spec_is_sign_negative(),
    {
        self.key < 0
    }

    fn signed_magnitude(self) -> (r: i32)
        ensures
            r == self.rank(),
    {
        if self.key >= 0 {
            self.key
        } else {
            self.key + 1
        }
    }

    /// Numeric `<`.
    #[verifier::when_used_as_spec(spec_lt)]
    pub fn lt(self, other: Scalar) -> (r: bool)
        ensures
            r == self.spec_lt(other),
    {
        !self.is_nan() && !other.is_nan() && self.signed_magnitude() < other.signed_magnitude()
    }

    /// Numeric `<=`.
    #[verifier::when_used_as_spec(spec_le)]
    pub fn le(self, other: Scalar) -> (r: bool)
        ensures
            r == self.spec_le(other),
    {
        !self.is_nan() && !other.is_nan() && self.signed_magnitude() <= other.signed_magnitude()
    }

    /// Numeric equality, as `==` on the numbers themselves decides it.
    #[verifier::when_used_as_spec(spec_same)]
    pub fn same(self, other: Scalar) -> (r: bool)
        ensures
            r == self.spec_same(other),
    {
        !self.is_nan() && !other.is_nan() && self.signed_magnitude() == other.signed_magnitude()
    }

    /// Flips the sign. This is exact for every pattern, NaN included.
    #[verifier::when_used_as_spec(spec_neg)]
    pub fn neg(self) -> (r: Scalar)
        ensures
            r == self.spec_neg(),
            r.magnitude() == self.magnitude(),
            r.is_sign_negative() != self.is_sign_negative(),
    {
        Scalar { key: -1 - self.key }
    }

    /// Clears the sign. This is exact for every pattern, NaN included.
    #[verifier::when_used_as_spec(spec_abs)]
    pub fn abs(self) -> (r: Scalar)
        ensures
            r == self.spec_abs(),
            r.magnitude() == self.magnitude(),
            !r.is_sign_negative(),
    {
        if self.key >= 0 {
            self
        } else {
            self.neg()
        }
    }

    /// The smaller of two numbers, a NaN giving way to a number.
    #[verifier::when_used_as_spec(spec_min)]
    pub fn min(self, other: Scalar) -> (r: Scalar)
        ensures
            r == self.spec_min(other),
    {
        if self.is_nan() {
            other
        } else if other.is_nan() {
            self
        } else if self.key <= other.key {
            self
        } else {
            other
        }
    }

    /// The larger of two numbers, a NaN giving way to a number.
    #[verifier::when_used_as_spec(spec_max)]
    pub fn max(self, other: Scalar) -> (r: Scalar)
        ensures
            r == self.spec_max(other),
    {
        if self.is_nan() {
            other
        } else if other.is_nan() {
            self
        } else if self.key >= other.key {
            self
        } else {
            other
        }
    }
}

/// Every bit pattern is found again from its key.
pub proof fn lemma_bits_round_trip(bits: u32)
    ensures
        i32::MIN <= key_of_bits(bits) <= i32::MAX,
        bits_of_key(key_of_bits(bits)) == bits,
{
}

/// Every key is found again from its bit pattern.
pub proof fn lemma_key_round_trip(key: i32)
    ensures
        0 <= bits_of_key(key as int) <= u32::MAX,
        key_of_bits(bits_of_key(key as int) as u32) == key,
{
}

/// Among numbers that are not NaN, the total order refines the numeric
/// order: a strictly smaller number has a strictly smaller key, and a smaller
/// key is never a larger number.
pub proof fn lemma_order_refines(a: Scalar, b: Scalar)
    requires
        !a.is_nan(),
        !b.is_nan(),
    ensures
        a.lt(b) ==> a.key < b.key,
        a.key <= b.key ==> a.le(b),
        a.le(b) <==> !b.lt(a),
{
}

/// Flipping the sign twice gives the number back, and turns the numeric
/// order around.
pub proof fn lemma_neg(a: Scalar, b: Scalar)
    ensures
        a.neg().neg() == a,
        a.lt(b) <==> b.neg().lt(a.neg()),
        a.le(b) <==> b.neg().le(a.neg()),
        a.neg().is_nan() == a.is_nan(),
{
}

/// `min` and `max` return one of their operands, and on numbers bound the
/// pair from below and above.
pub proof fn lemma_min_max_bound(a: Scalar, b: Scalar)
    requires
        !a.is_nan(),
        !b.is_nan(),
    ensures
        a.min(b) == a || a.min(b) == b,
        a.max(b) == a || a.max(b) == b,
        a.min(b).le(a) && a.min(b).le(b),
        a.le(a.max(b)) && b.le(a.max(b)),
        !a.min(b).is_nan() && !a.max(b).is_nan(),
{
}

} // verus!
