//! Real numbers as IEEE-754 single-precision bit patterns, and their order.
use vstd::prelude::*;

verus! {

/// Mask of the 31 magnitude bits (exponent and fraction).
pub const MAGNITUDE_MASK: u32 = 0x7fff_ffff;

/// Magnitude of the infinities; every larger magnitude is a NaN.
pub const INFINITY_MAGNITUDE: u32 = 0x7f80_0000;

/// The sign bit.
pub const SIGN_BIT: u32 = 0x8000_0000;

/// A real number, held as the bit pattern of an IEEE-754 binary32 value.
#[derive(Clone, Copy, Debug, PartialEq, Eq, Structural)]
pub struct Scalar {
    pub bits: u32,
}

/// A point or direction in the plane.
#[derive(Clone, Copy, Debug, PartialEq, Eq, Structural)]
pub struct Vec2 {
    pub x: Scalar,
    pub y: Scalar,
}

/// A display colour: premultiplied red, green, blue and alpha.  The solver
/// carries it along and never reads it.
#[derive(Clone, Copy, Debug, PartialEq, Eq, Structural)]
pub struct Color {
    pub r: u8,
    pub g: u8,
    pub b: u8,
    pub a: u8,
}

impl Scalar {
    /// The 31 magnitude bits as a number.
    pub open spec fn magnitude(self) -> int {
        (self.bits & MAGNITUDE_MASK) as int
    }

    /// The sign bit is set.
    pub open spec fn negative(self) -> bool {
        self.bits >= SIGN_BIT
    }

    /// The pattern encodes no number.
    pub open spec fn is_nan_spec(self) -> bool {
        self.magnitude() > INFINITY_MAGNITUDE
    }

    /// Position of the encoded number on the real line, up to a monotone
    /// map: binary32 magnitudes grow with their bit patterns, so the signed
    /// magnitude orders all numbers and both infinities, and gives the two
    /// zeros the same place.
    pub open spec fn rank(self) -> int {
        if self.negative() {
            -self.magnitude()
        } else {
            self.magnitude()
        }
    }

    /// IEEE-754 `<`: false whenever either side is a NaN.
    pub open spec fn lt_spec(self, other: Scalar) -> bool {
        !self.is_nan_spec() && !other.is_nan_spec() && self.rank() < other.rank()
    }

    /// IEEE-754 `<=`: false whenever either side is a NaN.
    pub open spec fn le_spec(self, other: Scalar) -> bool {
        !self.is_nan_spec() && !other.is_nan_spec() && self.rank() <= other.rank()
    }

    /// IEEE-754 `>`.
    pub open spec fn gt_spec(self, other: Scalar) -> bool {
        other.lt_spec(self)
    }

    /// IEEE-754 `>=`.
    pub open spec fn ge_spec(self, other: Scalar) -> bool {
        other.le_spec(self)
    }

    /// Positive zero.
    pub open spec fn zero_spec() -> Scalar {
        Scalar { bits: 0 }
    }

    /// The number one.
    pub open spec fn one_spec() -> Scalar {
        Scalar { bits: 0x3f80_0000 }
    }

    /// Wraps a bit pattern.
    pub fn from_bits(bits: u32) -> (r: Scalar)
        ensures
            r.bits == bits,
    {
        Scalar { bits }
    }

    /// The bit pattern.
    pub fn to_bits(self) -> (r: u32)
        ensures
            r == self.bits,
    {
        self.bits
    }

    /// Positive zero.
    pub fn zero() -> (r: Scalar)
        ensures
            r == Scalar::zero_spec(),
    {
        Scalar { bits: 0 }
    }

    /// The number one.
    pub fn one() -> (r: Scalar)
        ensures
            r == Scalar::one_spec(),
    {
        Scalar { bits: 0x3f80_0000 }
    }

    /// Whether the pattern encodes no number.
    pub fn is_nan(self) -> (r: bool)
        ensures
            r == self.is_nan_spec(),
    {
        (self.bits & MAGNITUDE_MASK) > INFINITY_MAGNITUDE
    }

    /// The signed magnitude by which numbers are ordered.
    fn signed_magnitude(self) -> (r: i64)
        ensures
            r == self.rank(),
    {
        let bits: u32 = self.bits;
        let mag: u32 = bits & MAGNITUDE_MASK;
        assert(mag <= MAGNITUDE_MASK) by (bit_vector)
            requires
                mag == bits & MAGNITUDE_MASK,
        ;
        let wide: i64 = mag as i64;
        if self.bits >= SIGN_BIT {
            -wide
        } else {
            wide
        }
    }

    /// `self < other` as IEEE-754 orders the two numbers.
    pub fn lt(self, other: Scalar) -> (r: bool)
        ensures
            r == self.lt_spec(other),
    {
        !self.is_nan() && !other.is_nan() && self.signed_magnitude() < other.signed_magnitude()
    }

    /// `self <= other` as IEEE-754 orders the two numbers.
    pub fn le(self, other: Scalar) -> (r: bool)
        ensures
            r == self.le_spec(other),
    {
        !self.is_nan() && !other.is_nan() && self.signed_magnitude() <= other.signed_magnitude()
    }

    /// `self > other` as IEEE-754 orders the two numbers.
    pub fn gt(self, other: Scalar) -> (r: bool)
        ensures
            r == self.gt_spec(other),
    {
        other.lt(self)
    }

    /// `self >= other` as IEEE-754 orders the two numbers.
    pub fn ge(self, other: Scalar) -> (r: bool)
        ensures
            r == self.ge_spec(other),
    {
        other.le(self)
    }
}

impl Vec2 {
    /// The origin.
    pub open spec fn zero_spec() -> Vec2 {
        Vec2 { x: Scalar::zero_spec(), y: Scalar::zero_spec() }
    }

    /// A vector from its two components.
    pub fn new(x: Scalar, y: Scalar) -> (r: Vec2)
        ensures
            r.x == x,
            r.y == y,
    {
        Vec2 { x, y }
    }

    /// The origin.
    pub fn zero() -> (r: Vec2)
        ensures
            r == Vec2::zero_spec(),
    {
        Vec2 { x: Scalar::zero(), y: Scalar::zero() }
    }
}

/// Two numbers are never both `>` and `<=` one another, so a test of the
/// form "now beyond, before within" cannot hold of a value that was already
/// beyond.
pub proof fn lemma_gt_excludes_le(a: Scalar, b: Scalar)
    ensures
        !(a.gt_spec(b) && a.le_spec(b)),
        !(a.lt_spec(b) && a.ge_spec(b)),
{
}

/// Among numbers (no NaN on either side) exactly one of `<=` and `>` holds.
pub proof fn lemma_le_or_gt(a: Scalar, b: Scalar)
    requires
        !a.is_nan_spec(),
        !b.is_nan_spec(),
    ensures
        a.le_spec(b) != a.gt_spec(b),
        a.lt_spec(b) != a.ge_spec(b),
{
}

} // verus!
