//! From scalars to integers: the nearest whole number and the whole part,
//! as the saturating casts of binary32 give them.

use crate::scalar::{lemma_fields, Scalar, FRACTION_MASK, SIGN_MASK};
use vstd::arithmetic::div_mod::{
    lemma_basic_div, lemma_div_is_ordered, lemma_div_multiples_vanish_quotient,
    lemma_fundamental_div_mod_converse,
};
use vstd::arithmetic::power2::{
    lemma2_to64, lemma_pow2_adds, lemma_pow2_pos, lemma_pow2_strictly_increases, pow2,
};
use vstd::bits::{lemma_u32_shl_is_mul, lemma_u32_shr_is_div};
use vstd::prelude::*;

verus! {

impl Scalar {
    /// The integer nearest to the absolute value, a half counting up.
    pub open spec fn nearest(self) -> nat {
        (self.magnitude() + pow2(148)) / pow2(149)
    }

    /// What rounding to the nearest integer, halves away from zero, and then
    /// casting to `u32` makes of a scalar. The cast saturates: everything
    /// negative and every NaN gives 0, everything from 2^32 on gives `u32::MAX`.
    pub open spec fn spec_round_to_u32(self) -> u32 {
        if self.nan() || self.sign() {
            0
        } else if self.nearest() > u32::MAX {
            u32::MAX
        } else {
            self.nearest() as u32
        }
    }

    /// The whole part of the absolute value.
    pub open spec fn whole(self) -> nat {
        self.magnitude() / pow2(149)
    }

    /// What casting to `u8` makes of a scalar: the fraction is dropped, and
    /// the cast saturates, so that everything negative and every NaN gives 0 and
    /// everything from 256 on gives 255.
    pub open spec fn spec_truncate_to_u8(self) -> u8 {
        if self.nan() || self.sign() {
            0
        } else if self.whole() > u8::MAX {
            u8::MAX
        } else {
            self.whole() as u8
        }
    }

    /// The biased exponent of a scalar without sign, and its fraction behind
    /// a leading one: the significand of everything but a subnormal.
    fn unpack(self) -> (em: (u32, u32))
        requires
            !self.sign(),
        ensures
            em.0 == self.exponent(),
            em.0 >= 1 ==> em.1 == self.significand(),
            0x80_0000 <= em.1 < 0x100_0000,
    {
        let bits: u32 = self.bits;
        let e: u32 = bits >> 23;
        let m: u32 = (bits & FRACTION_MASK) | 0x80_0000;
        proof {
            lemma_fields(bits);
            assert(e == (bits >> 23) & 0xFF && m == 0x80_0000 + (bits & 0x007F_FFFFu32))
                by (bit_vector)
                requires
                    bits & 0x8000_0000u32 == 0,
                    e == bits >> 23,
                    m == (bits & 0x007F_FFFFu32) | 0x80_0000,
            ;
        }
        (e, m)
    }

    /// The whole part as a `u8`, saturating.
    pub fn truncate_to_u8(self) -> (r: u8)
        ensures
            r == self.spec_truncate_to_u8(),
    {
        if self.is_nan() || self.bits & SIGN_MASK != 0 {
            return 0;
        }
        let (e, m) = self.unpack();
        proof {
            lemma2_to64();
        }
        if e < 127 {
            proof {
                lemma_below_one(self);
            }
            0
        } else if e >= 135 {
            proof {
                lemma_beyond_u8(self);
            }
            u8::MAX
        } else {
            let down: u32 = 150 - e;
            let whole: u32 = m >> down;
            proof {
                lemma_whole_part(self);
                assert(whole < 256) by (bit_vector)
                    requires
                        whole == m >> down,
                        16 <= down <= 23,
                        m < 0x100_0000,
                ;
                lemma_u32_shr_is_div(m, down);
            }
            whole as u8
        }
    }

    /// The nearest integer as a `u32`, saturating.
    pub fn round_to_u32(self) -> (r: u32)
        ensures
            r == self.spec_round_to_u32(),
    {
        if self.is_nan() || self.bits & SIGN_MASK != 0 {
            return 0;
        }
        let (e, m) = self.unpack();
        proof {
            lemma2_to64();
        }
        if e < 126 {
            proof {
                lemma_below_half(self);
            }
            0
        } else if e >= 159 {
            proof {
                lemma_beyond_u32(self);
            }
            u32::MAX
        } else if e >= 150 {
            let up: u32 = e - 150;
            proof {
                lemma_whole(self);
                lemma_pow2_pos(up as nat);
                if up < 8 {
                    lemma_pow2_strictly_increases(up as nat, 8);
                }
                assert(m * pow2(up as nat) <= u32::MAX) by (nonlinear_arith)
                    requires
                        0 <= m < 0x100_0000,
                        0 < pow2(up as nat) <= 256,
                ;
                lemma_u32_shl_is_mul(m, up);
            }
            m << up
        } else {
            let down: u32 = 150 - e;
            let whole: u32 = m >> down;
            let half: u32 = (m >> (down - 1)) & 1;
            proof {
                lemma_fractional(self);
                let low: u32 = (down - 1) as u32;
                let bump: u32 = 1u32 << low;
                assert(bump <= 0x80_0000) by (bit_vector)
                    requires
                        bump == 1u32 << low,
                        low <= 23,
                ;
                let sum: u32 = (m + bump) as u32;
                assert(whole + half == sum >> down) by (bit_vector)
                    requires
                        whole == m >> down,
                        half == (m >> low) & 1,
                        bump == 1u32 << low,
                        sum == m + bump,
                        low + 1 == down,
                        1 <= down <= 24,
                        0x80_0000 <= m < 0x100_0000,
                ;
                lemma_pow2_pos(low as nat);
                if low < 23 {
                    lemma_pow2_strictly_increases(low as nat, 23);
                }
                assert(1 * pow2(low as nat) == pow2(low as nat)) by (nonlinear_arith);
                lemma_u32_shl_is_mul(1u32, low);
                lemma_u32_shr_is_div(sum, down);
            }
            whole + half
        }
    }
}

/// Under exponent 126 a scalar is below one half.
proof fn lemma_below_half(s: Scalar)
    requires
        s.exponent() < 126,
    ensures
        s.nearest() == 0,
{
    lemma_fields(s.bits);
    lemma2_to64();
    let sig = s.significand() as int;
    let p = pow2(s.scale()) as int;
    lemma_pow2_pos(s.scale());
    if s.scale() < 124 {
        lemma_pow2_strictly_increases(s.scale(), 124);
    }
    lemma_pow2_adds(24, 124);
    lemma_pow2_adds(1, 148);
    assert(sig * p < 0x100_0000 * pow2(124)) by (nonlinear_arith)
        requires
            0 <= sig < 0x100_0000,
            0 < p <= pow2(124),
    ;
    lemma_basic_div((s.magnitude() + pow2(148)) as int, pow2(149) as int);
}

/// From exponent 159 on a scalar is at least 2^32.
proof fn lemma_beyond_u32(s: Scalar)
    requires
        s.exponent() >= 159,
    ensures
        s.nearest() > u32::MAX,
{
    lemma_fields(s.bits);
    lemma2_to64();
    let sig = s.significand() as int;
    let p = pow2(s.scale()) as int;
    if 158 < s.scale() {
        lemma_pow2_strictly_increases(158, s.scale());
    }
    lemma_pow2_adds(23, 158);
    lemma_pow2_adds(32, 149);
    lemma_pow2_pos(149);
    lemma_pow2_pos(148);
    assert(sig * p >= 0x80_0000 * pow2(158)) by (nonlinear_arith)
        requires
            sig >= 0x80_0000,
            p >= pow2(158),
            pow2(158) > 0,
    ;
    let d = pow2(149) as int;
    assert(pow2(32) * d == d * pow2(32)) by (nonlinear_arith);
    lemma_fundamental_div_mod_converse(pow2(32) * d, d, pow2(32) as int, 0);
    lemma_div_is_ordered(pow2(32) * d, (s.magnitude() + pow2(148)) as int, d);
}

/// From exponent 150 on a scalar is a whole number: its significand times a
/// power of two.
proof fn lemma_whole(s: Scalar)
    requires
        150 <= s.exponent(),
    ensures
        s.nearest() == s.significand() * pow2((s.exponent() - 150) as nat),
{
    lemma_fields(s.bits);
    let sig = s.significand() as int;
    let up = (s.exponent() - 150) as nat;
    let d = pow2(149) as int;
    lemma_pow2_adds(up, 149);
    lemma_pow2_adds(1, 148);
    lemma2_to64();
    lemma_pow2_pos(148);
    lemma_pow2_pos(up);
    assert(s.scale() == up + 149);
    assert(sig * (pow2(up) * d) == (sig * pow2(up)) * d) by (nonlinear_arith);
    assert(sig * pow2(up) >= 0) by (nonlinear_arith)
        requires
            sig >= 0,
            pow2(up) > 0,
    ;
    lemma_fundamental_div_mod_converse(
        (s.magnitude() + pow2(148)) as int,
        d,
        sig * pow2(up),
        pow2(148) as int,
    );
}

/// Between exponents 126 and 149 the nearest integer is read off the
/// significand: add half of the last whole bit's weight, drop the bits below it.
proof fn lemma_fractional(s: Scalar)
    requires
        126 <= s.exponent() <= 149,
    ensures
        s.nearest() == (s.significand() + pow2((149 - s.exponent()) as nat)) / pow2(
            (150 - s.exponent()) as nat,
        ),
{
    lemma_fields(s.bits);
    let sig = s.significand() as int;
    let down = (150 - s.exponent()) as nat;
    let unit = pow2(s.scale()) as int;
    lemma_pow2_adds((down - 1) as nat, s.scale());
    lemma_pow2_adds(down, s.scale());
    lemma_pow2_pos(s.scale());
    lemma_pow2_pos(down);
    lemma_pow2_pos((down - 1) as nat);
    assert((down - 1) as nat + s.scale() == 148);
    assert(down + s.scale() == 149);
    let half = pow2((down - 1) as nat) as int;
    let whole = pow2(down) as int;
    assert(sig * unit + half * unit == unit * (sig + half)) by (nonlinear_arith);
    assert(whole * unit == unit * whole) by (nonlinear_arith);
    lemma_div_multiples_vanish_quotient(unit, sig + half, whole);
}

/// Under exponent 127 a scalar is below one.
proof fn lemma_below_one(s: Scalar)
    requires
        s.exponent() < 127,
    ensures
        s.whole() == 0,
{
    lemma_fields(s.bits);
    lemma2_to64();
    let sig = s.significand() as int;
    let p = pow2(s.scale()) as int;
    lemma_pow2_pos(s.scale());
    if s.scale() < 125 {
        lemma_pow2_strictly_increases(s.scale(), 125);
    }
    lemma_pow2_adds(24, 125);
    assert(sig * p < 0x100_0000 * pow2(125)) by (nonlinear_arith)
        requires
            0 <= sig < 0x100_0000,
            0 < p <= pow2(125),
    ;
    lemma_basic_div(s.magnitude() as int, pow2(149) as int);
}

/// From exponent 135 on a scalar is at least 256.
proof fn lemma_beyond_u8(s: Scalar)
    requires
        s.exponent() >= 135,
    ensures
        s.whole() > u8::MAX,
{
    lemma_fields(s.bits);
    lemma2_to64();
    let sig = s.significand() as int;
    let p = pow2(s.scale()) as int;
    if 134 < s.scale() {
        lemma_pow2_strictly_increases(134, s.scale());
    }
    lemma_pow2_adds(23, 134);
    lemma_pow2_adds(8, 149);
    lemma_pow2_pos(149);
    assert(sig * p >= 0x80_0000 * pow2(134)) by (nonlinear_arith)
        requires
            sig >= 0x80_0000,
            p >= pow2(134),
            pow2(134) > 0,
    ;
    let d = pow2(149) as int;
    assert(pow2(8) * d == d * pow2(8)) by (nonlinear_arith);
    lemma_fundamental_div_mod_converse(pow2(8) * d, d, pow2(8) as int, 0);
    lemma_div_is_ordered(pow2(8) * d, s.magnitude() as int, d);
}

/// Between exponents 127 and 149 the whole part is read off the significand:
/// the bits below the last whole bit are dropped.
proof fn lemma_whole_part(s: Scalar)
    requires
        127 <= s.exponent() <= 149,
    ensures
        s.whole() == s.significand() / pow2((150 - s.exponent()) as nat),
{
    lemma_fields(s.bits);
    let sig = s.significand() as int;
    let down = (150 - s.exponent()) as nat;
    let unit = pow2(s.scale()) as int;
    lemma_pow2_adds(down, s.scale());
    lemma_pow2_pos(s.scale());
    lemma_pow2_pos(down);
    assert(down + s.scale() == 149);
    let span = pow2(down) as int;
    assert(sig * unit == unit * sig) by (nonlinear_arith);
    assert(span * unit == unit * span) by (nonlinear_arith);
    lemma_div_multiples_vanish_quotient(unit, sig, span);
}

} // verus!
