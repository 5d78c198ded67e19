//! IEEE-754 binary32 data carried as bit patterns.
//!
//! A [`Scalar`] is never computed with here: it is classified, compared and
//! selected. Its order is the order of the real numbers it encodes.

use vstd::arithmetic::power2::{
    lemma2_to64, lemma_pow2_adds, lemma_pow2_pos, lemma_pow2_strictly_increases, pow2,
};
use vstd::prelude::*;

verus! {

/// The sign bit of a binary32 pattern.
pub const SIGN_MASK: u32 = 0x8000_0000;

/// Everything but the sign bit: biased exponent and fraction.
pub const MAGNITUDE_MASK: u32 = 0x7FFF_FFFF;

/// The 23 fraction bits.
pub const FRACTION_MASK: u32 = 0x007F_FFFF;

/// Pattern of positive infinity; every larger magnitude is a NaN.
pub const INFINITY_BITS: u32 = 0x7F80_0000;

/// Pattern of negative infinity.
pub const NEG_INFINITY_BITS: u32 = 0xFF80_0000;

/// Pattern of `1.0`.
pub const ONE_BITS: u32 = 0x3F80_0000;

/// Pattern of `-1.0`.
pub const NEG_ONE_BITS: u32 = 0xBF80_0000;

/// A binary32 value, held as the 32 bits that encode it.
#[derive(Clone, Copy, Debug, PartialEq, Eq, Structural)]
pub struct Scalar {
    pub bits: u32,
}

impl Scalar {
    /// The pattern without its sign bit.
    pub open spec fn magnitude_bits(self) -> u32 {
        self.bits & MAGNITUDE_MASK
    }

    /// Whether the sign bit is set.
    pub open spec fn sign(self) -> bool {
        self.bits & SIGN_MASK != 0
    }

    /// The biased exponent, `0..=255`.
    pub open spec fn exponent(self) -> u32 {
        (self.bits >> 23) & 0xFF
    }

    /// The fraction field, `0..2^23`.
    pub open spec fn fraction(self) -> u32 {
        self.bits & FRACTION_MASK
    }

    /// Not a number: exponent all ones and a fraction that is not zero.
    pub open spec fn nan(self) -> bool {
        self.magnitude_bits() > INFINITY_BITS
    }

    /// Neither a NaN nor an infinity.
    pub open spec fn finite(self) -> bool {
        self.magnitude_bits() < INFINITY_BITS
    }

    /// The integer that the fraction field stands for: the fraction itself in
    /// a subnormal, the fraction behind a leading one otherwise.
    pub open spec fn significand(self) -> nat {
        if self.exponent() == 0 {
            self.fraction() as nat
        } else {
            (0x80_0000 + self.fraction()) as nat
        }
    }

    /// The power of two that the significand is multiplied by, counted from
    /// the smallest subnormal.
    pub open spec fn scale(self) -> nat {
        if self.exponent() == 0 {
            0
        } else {
            (self.exponent() - 1) as nat
        }
    }

    /// The absolute value of a finite number, in units of 2^-149 (the smallest
    /// subnormal), where every finite binary32 number is an integer. The
    /// patterns of infinity and of the NaNs get what the same formula gives: more
    /// than every finite number has.
    pub open spec fn magnitude(self) -> nat {
        self.significand() * pow2(self.scale())
    }

    /// The finite number itself, in units of 2^-149.
    pub open spec fn value(self) -> int {
        if self.sign() {
            -(self.magnitude() as int)
        } else {
            self.magnitude() as int
        }
    }

    /// The scalar without its sign.
    pub open spec fn spec_abs(self) -> Scalar {
        Scalar { bits: self.bits & MAGNITUDE_MASK }
    }

    /// The scalar held between `lo` and `hi`: `lo` below `lo`, `hi` above
    /// `hi`, itself otherwise. A NaN stays what it is.
    pub open spec fn spec_clamp(self, lo: Scalar, hi: Scalar) -> Scalar {
        if self.less(lo) {
            lo
        } else if hi.less(self) {
            hi
        } else {
            self
        }
    }

    /// Position of a number on the extended real line, as an integer that
    /// grows with the encoded value. Both zeros share position 0.
    pub open spec fn rank(self) -> int {
        if self.sign() {
            -(self.magnitude_bits() as int)
        } else {
            self.magnitude_bits() as int
        }
    }

    /// IEEE `<`: false as soon as either side is a NaN.
    pub open spec fn less(self, other: Scalar) -> bool {
        !self.nan() && !other.nan() && self.rank() < other.rank()
    }

    /// IEEE `<=`.
    pub open spec fn at_most(self, other: Scalar) -> bool {
        !self.nan() && !other.nan() && self.rank() <= other.rank()
    }

    /// IEEE `==`: NaN equals nothing, the two zeros equal each other.
    pub open spec fn same(self, other: Scalar) -> bool {
        !self.nan() && !other.nan() && self.rank() == other.rank()
    }

    pub open spec fn spec_zero() -> Scalar {
        Scalar { bits: 0 }
    }

    pub open spec fn spec_one() -> Scalar {
        Scalar { bits: ONE_BITS }
    }

    pub open spec fn spec_neg_one() -> Scalar {
        Scalar { bits: NEG_ONE_BITS }
    }

    pub open spec fn spec_infinity() -> Scalar {
        Scalar { bits: INFINITY_BITS }
    }

    pub open spec fn spec_neg_infinity() -> Scalar {
        Scalar { bits: NEG_INFINITY_BITS }
    }

    /// `+0.0`.
    #[verifier::when_used_as_spec(spec_zero)]
    pub fn zero() -> (s: Scalar)
        ensures
            s == Scalar::spec_zero(),
    {
        Scalar { bits: 0 }
    }

    /// `1.0`.
    #[verifier::when_used_as_spec(spec_one)]
    pub fn one() -> (s: Scalar)
        ensures
            s == Scalar::spec_one(),
    {
        Scalar { bits: ONE_BITS }
    }

    /// `-1.0`.
    #[verifier::when_used_as_spec(spec_neg_one)]
    pub fn neg_one() -> (s: Scalar)
        ensures
            s == Scalar::spec_neg_one(),
    {
        Scalar { bits: NEG_ONE_BITS }
    }

    /// Positive infinity.
    #[verifier::when_used_as_spec(spec_infinity)]
    pub fn infinity() -> (s: Scalar)
        ensures
            s == Scalar::spec_infinity(),
    {
        Scalar { bits: INFINITY_BITS }
    }

    /// Negative infinity.
    #[verifier::when_used_as_spec(spec_neg_infinity)]
    pub fn neg_infinity() -> (s: Scalar)
        ensures
            s == Scalar::spec_neg_infinity(),
    {
        Scalar { bits: NEG_INFINITY_BITS }
    }

    pub fn from_bits(bits: u32) -> (s: Scalar)
        ensures
            s.bits == bits,
    {
        Scalar { bits }
    }

    pub fn to_bits(self) -> (bits: u32)
        ensures
            bits == self.bits,
    {
        self.bits
    }

    pub fn is_nan(self) -> (r: bool)
        ensures
            r == self.nan(),
    {
        (self.bits & MAGNITUDE_MASK) > INFINITY_BITS
    }

    /// The rank as a machine integer.
    fn key(self) -> (k: i64)
        ensures
            k == self.rank(),
    {
        let m: u32 = self.bits & MAGNITUDE_MASK;
        if self.bits & SIGN_MASK != 0 {
            -(m as i64)
        } else {
            m as i64
        }
    }

    /// `self < other` as binary32 numbers.
    pub fn lt(self, other: Scalar) -> (r: bool)
        ensures
            r == self.less(other),
    {
        !self.is_nan() && !other.is_nan() && self.key() < other.key()
    }

    /// `self <= other` as binary32 numbers.
    pub fn le(self, other: Scalar) -> (r: bool)
        ensures
            r == self.at_most(other),
    {
        !self.is_nan() && !other.is_nan() && self.key() <= other.key()
    }

    /// `self > other` as binary32 numbers.
    pub fn gt(self, other: Scalar) -> (r: bool)
        ensures
            r == other.less(self),
    {
        other.lt(self)
    }
    /// `self == other` as binary32 numbers.
    pub fn equals(self, other: Scalar) -> (r: bool)
        ensures
            r == self.same(other),
    {
        !self.is_nan() && !other.is_nan() && self.key() == other.key()
    }

    /// The absolute value: the sign bit is cleared, of a NaN too.
    #[verifier::when_used_as_spec(spec_abs)]
    pub fn abs(self) -> (r: Scalar)
        ensures
            r == self.spec_abs(),
            !r.sign(),
            r.magnitude() == self.magnitude(),
            r.nan() == self.nan(),
    {
        let bits: u32 = self.bits;
        let cleared: u32 = bits & MAGNITUDE_MASK;
        assert(cleared & 0x8000_0000u32 == 0 && cleared & 0x7FFF_FFFFu32 == bits & 0x7FFF_FFFFu32
            && (cleared >> 23) & 0xFF == (bits >> 23) & 0xFF && cleared & 0x007F_FFFFu32 == bits
            & 0x007F_FFFFu32) by (bit_vector)
            requires
                cleared == bits & 0x7FFF_FFFFu32,
        ;
        Scalar { bits: cleared }
    }

    /// The scalar held between `lo` and `hi`.
    #[verifier::when_used_as_spec(spec_clamp)]
    pub fn clamp(self, lo: Scalar, hi: Scalar) -> (r: Scalar)
        requires
            lo.at_most(hi),
        ensures
            r == self.spec_clamp(lo, hi),
            !self.nan() ==> lo.at_most(r) && r.at_most(hi),
            self.nan() ==> r == self,
    {
        if self.lt(lo) {
            lo
        } else if self.gt(hi) {
            hi
        } else {
            self
        }
    }

}

/// How a pattern splits into its fields.
pub proof fn lemma_fields(bits: u32)
    ensures
        bits & MAGNITUDE_MASK == ((bits >> 23) & 0xFF) * 0x80_0000 + (bits & FRACTION_MASK),
        (bits >> 23) & 0xFF <= 255,
        bits & FRACTION_MASK < 0x80_0000,
        bits & MAGNITUDE_MASK <= 0x7FFF_FFFF,
{
    assert(bits & 0x7FFF_FFFFu32 == ((bits >> 23) & 0xFF) * 0x80_0000 + (bits & 0x007F_FFFFu32))
        by (bit_vector);
    assert((bits >> 23) & 0xFF <= 255) by (bit_vector);
    assert(bits & 0x007F_FFFFu32 < 0x80_0000) by (bit_vector);
    assert(bits & 0x7FFF_FFFFu32 <= 0x7FFF_FFFF) by (bit_vector);
}

/// The classes by their fields: a NaN has exponent 255 and a fraction that is
/// not zero, an infinity exponent 255 and fraction zero, and every other
/// pattern is a finite number.
pub proof fn lemma_classes(s: Scalar)
    ensures
        s.nan() <==> s.exponent() == 255 && s.fraction() != 0,
        s.finite() <==> s.exponent() < 255,
        !s.nan() && !s.finite() <==> s.exponent() == 255 && s.fraction() == 0,
{
    lemma_fields(s.bits);
}

/// Where the named constants stand.
pub proof fn lemma_constants()
    ensures
        !Scalar::zero().sign() && Scalar::zero().rank() == 0 && Scalar::zero().finite(),
        !Scalar::one().sign() && Scalar::one().rank() == ONE_BITS && Scalar::one().finite(),
        Scalar::neg_one().sign() && Scalar::neg_one().rank() == -ONE_BITS
            && Scalar::neg_one().finite(),
        Scalar::zero().value() == 0,
        Scalar::one().value() == 0x80_0000 * pow2(126),
        !Scalar::infinity().nan() && Scalar::infinity().rank() == INFINITY_BITS,
        !Scalar::neg_infinity().nan() && Scalar::neg_infinity().rank() == -INFINITY_BITS,
{
    assert(0u32 & 0x7FFF_FFFFu32 == 0 && 0u32 & 0x8000_0000u32 == 0 && (0u32 >> 23) & 0xFF == 0
        && 0u32 & 0x007F_FFFFu32 == 0) by (bit_vector);
    assert(0x3F80_0000u32 & 0x7FFF_FFFFu32 == 0x3F80_0000 && 0x3F80_0000u32 & 0x8000_0000u32 == 0
        && (0x3F80_0000u32 >> 23) & 0xFF == 127 && 0x3F80_0000u32 & 0x007F_FFFFu32 == 0)
        by (bit_vector);
    assert(0xBF80_0000u32 & 0x7FFF_FFFFu32 == 0x3F80_0000 && 0xBF80_0000u32 & 0x8000_0000u32
        != 0) by (bit_vector);
    assert(0x7F80_0000u32 & 0x7FFF_FFFFu32 == 0x7F80_0000 && 0x7F80_0000u32 & 0x8000_0000u32 == 0)
        by (bit_vector);
    assert(0xFF80_0000u32 & 0x7FFF_FFFFu32 == 0x7F80_0000 && 0xFF80_0000u32 & 0x8000_0000u32
        != 0) by (bit_vector);
    lemma_zero_magnitude(Scalar::zero());
}

/// A larger exponent-and-fraction pattern encodes a larger absolute value.
proof fn lemma_magnitude_grows(a: Scalar, b: Scalar)
    requires
        a.magnitude_bits() < b.magnitude_bits(),
    ensures
        a.magnitude() < b.magnitude(),
{
    lemma_fields(a.bits);
    lemma_fields(b.bits);
    let ea = a.exponent();
    let eb = b.exponent();
    let sa = a.significand() as int;
    let sb = b.significand() as int;
    let pa = pow2(a.scale()) as int;
    let pb = pow2(b.scale()) as int;
    lemma_pow2_pos(a.scale());
    lemma_pow2_pos(b.scale());
    lemma2_to64();
    if ea == eb {
        assert(sa * pa < sb * pa) by (nonlinear_arith)
            requires
                sa < sb,
                pa > 0,
        ;
    } else {
        assert(ea < eb);
        assert(sb >= 0x80_0000);
        if ea == 0 {
            assert(sa * pa < sb * pb) by (nonlinear_arith)
                requires
                    0 <= sa < 0x80_0000,
                    pa == 1,
                    sb >= 0x80_0000,
                    pb >= 1,
            ;
        } else {
            assert(a.scale() + 1 <= b.scale());
            assert(pow2(a.scale() + 1) <= pb) by {
                if a.scale() + 1 < b.scale() {
                    lemma_pow2_strictly_increases(a.scale() + 1, b.scale());
                }
            }
            assert(pow2(a.scale() + 1) == 2 * pa) by {
                lemma_pow2_adds(a.scale(), 1);
            }
            assert(sa * pa < sb * pb) by (nonlinear_arith)
                requires
                    0 <= sa < 0x100_0000,
                    sb >= 0x80_0000,
                    pa > 0,
                    2 * pa <= pb,
            ;
        }
    }
}

/// The pattern of a zero encodes zero.
proof fn lemma_zero_magnitude(a: Scalar)
    ensures
        a.magnitude_bits() == 0 ==> a.magnitude() == 0,
{
    lemma_fields(a.bits);
    if a.magnitude_bits() == 0 {
        assert(a.significand() * pow2(a.scale()) == 0) by (nonlinear_arith)
            requires
                a.significand() == 0,
        ;
    }
}

/// The order of the patterns' ranks is the order of the numbers they encode:
/// comparing two finite scalars compares their values, and two scalars of one
/// value differ at most in the sign of zero.
pub proof fn lemma_rank_orders_values(a: Scalar, b: Scalar)
    ensures
        a.rank() < b.rank() <==> a.value() < b.value(),
        a.rank() == b.rank() <==> a.value() == b.value(),
        a.rank() == 0 <==> a.value() == 0,
{
    lemma_fields(a.bits);
    lemma_fields(b.bits);
    let zero = Scalar::zero();
    lemma_constants();
    lemma_zero_magnitude(a);
    lemma_zero_magnitude(b);
    if a.magnitude_bits() < b.magnitude_bits() {
        lemma_magnitude_grows(a, b);
    }
    if b.magnitude_bits() < a.magnitude_bits() {
        lemma_magnitude_grows(b, a);
    }
    if 0 < a.magnitude_bits() {
        lemma_magnitude_grows(zero, a);
    }
    if 0 < b.magnitude_bits() {
        lemma_magnitude_grows(zero, b);
    }
}

/// Binary32 order is a strict order in which any two numbers compare: of
/// `a < b`, `a == b` and `b < a` exactly one holds unless a NaN is among them,
/// and then none does.
pub proof fn lemma_order_laws(a: Scalar, b: Scalar, c: Scalar)
    ensures
        !a.less(a),
        a.less(b) && b.less(c) ==> a.less(c),
        a.at_most(b) <==> a.less(b) || a.same(b),
        !a.nan() && !b.nan() ==> (a.less(b) || a.same(b) || b.less(a)),
        !(a.less(b) && b.less(a)) && !(a.less(b) && a.same(b)),
        a.nan() || b.nan() ==> !a.less(b) && !a.same(b) && !a.at_most(b),
{
}

/// Two scalars of one sign and one value are one pattern.
pub proof fn lemma_value_names_pattern(a: Scalar, b: Scalar)
    requires
        a.sign() == b.sign(),
        a.value() == b.value(),
    ensures
        a == b,
{
    lemma_rank_orders_values(a, b);
    let x = a.bits;
    let y = b.bits;
    assert(x == y) by (bit_vector)
        requires
            x & 0x7FFF_FFFFu32 == y & 0x7FFF_FFFFu32,
            (x & 0x8000_0000u32 != 0) == (y & 0x8000_0000u32 != 0),
    ;
}

} // verus!
