//! The stateless pseudo-random source: an integer hash of the seed's bits.

use crate::scalar::{lemma_constants, lemma_value_names_pattern, Scalar};
use crate::vector::{UVec2, Vec2, Vec3};
use vstd::arithmetic::power2::{
    lemma2_to64, lemma_pow2_adds, lemma_pow2_pos, lemma_pow2_strictly_increases, pow2,
};
use vstd::prelude::*;

verus! {

/// Mask of the 23 fraction bits of a binary32 pattern.
pub const IEEE_MANTISSA: u32 = 0x007F_FFFF;

/// Pattern of `1.0`.
pub const IEEE_ONE: u32 = 0x3F80_0000;

/// Reduction of an integer to 32 bits.
pub open spec fn wrap32(v: int) -> u32 {
    (v % 0x1_0000_0000) as u32
}

/// The avalanche of [`hash`]: three multiplications modulo 2^32 (by
/// 2^10 + 1, 2^3 + 1 and 2^15 + 1) with two xor-shifts between them.
pub open spec fn hash_spec(x: u32) -> u32 {
    let a = wrap32(x * 1025);
    let b = a ^ (a >> 6);
    let c = wrap32(b * 9);
    let d = c ^ (c >> 11);
    wrap32(d * 32769)
}

/// Scrambles 32 bits. Sums wrap; nothing overflows.
pub fn hash(x: u32) -> (r: u32)
    ensures
        r == hash_spec(x),
{
    let a: u32 = x.wrapping_add(x << 10);
    assert(a == (x * 1025) % 0x1_0000_0000) by (bit_vector)
        requires
            a == vstd::wrapping::u32_specs::wrapping_add(x, x << 10),
    ;
    let b: u32 = a ^ (a >> 6);
    let c: u32 = b.wrapping_add(b << 3);
    assert(c == (b * 9) % 0x1_0000_0000) by (bit_vector)
        requires
            c == vstd::wrapping::u32_specs::wrapping_add(b, b << 3),
    ;
    let d: u32 = c ^ (c >> 11);
    let e: u32 = d.wrapping_add(d << 15);
    assert(e == (d * 32769) % 0x1_0000_0000) by (bit_vector)
        requires
            e == vstd::wrapping::u32_specs::wrapping_add(d, d << 15),
    ;
    e
}

/// The word that [`hash`] scrambles into `y`: the three multiplications
/// undone by the inverses of their factors modulo 2^32, the xor-shifts by
/// folding the shifted word back in until nothing is left of it.
pub open spec fn unhash(y: u32) -> u32 {
    let d = wrap32(y * 0x3FFF_8001);
    let c = d ^ (d >> 11) ^ (d >> 22);
    let b = wrap32(c * 0x38E3_8E39);
    let a = b ^ (b >> 6) ^ (b >> 12) ^ (b >> 18) ^ (b >> 24) ^ (b >> 30);
    wrap32(a * 0xC00F_FC01)
}

/// The hash is a permutation of the 32-bit words: it can be undone, and
/// every word is the hash of one.
pub proof fn lemma_hash_permutes(x: u32)
    ensures
        unhash(hash_spec(x)) == x,
        hash_spec(unhash(x)) == x,
{
    assert(forall|v: u32| #[trigger]
        (((v * 1025) % 0x1_0000_0000) * 0xC00F_FC01) % 0x1_0000_0000 == v) by (bit_vector);
    assert(forall|v: u32| #[trigger]
        (((v * 0xC00F_FC01) % 0x1_0000_0000) * 1025) % 0x1_0000_0000 == v) by (bit_vector);
    assert(forall|v: u32| #[trigger]
        (((v * 9) % 0x1_0000_0000) * 0x38E3_8E39) % 0x1_0000_0000 == v) by (bit_vector);
    assert(forall|v: u32| #[trigger]
        (((v * 0x38E3_8E39) % 0x1_0000_0000) * 9) % 0x1_0000_0000 == v) by (bit_vector);
    assert(forall|v: u32| #[trigger]
        (((v * 32769) % 0x1_0000_0000) * 0x3FFF_8001) % 0x1_0000_0000 == v) by (bit_vector);
    assert(forall|v: u32| #[trigger]
        (((v * 0x3FFF_8001) % 0x1_0000_0000) * 32769) % 0x1_0000_0000 == v) by (bit_vector);
    assert(forall|v: u32|
        {
            let w = #[trigger] (v ^ (v >> 6));
            w ^ (w >> 6) ^ (w >> 12) ^ (w >> 18) ^ (w >> 24) ^ (w >> 30) == v
        }) by (bit_vector);
    assert(forall|v: u32|
        {
            let w = #[trigger] (v ^ (v >> 6) ^ (v >> 12) ^ (v >> 18) ^ (v >> 24) ^ (v >> 30));
            w ^ (w >> 6) == v
        }) by (bit_vector);
    assert(forall|v: u32|
        {
            let w = #[trigger] (v ^ (v >> 11));
            w ^ (w >> 11) ^ (w >> 22) == v
        }) by (bit_vector);
    assert(forall|v: u32|
        {
            let w = #[trigger] (v ^ (v >> 11) ^ (v >> 22));
            w ^ (w >> 11) == v
        }) by (bit_vector);
}

/// Every scalar of the grid `k / 2^23` is drawn from some seed, zero and the
/// last scalar below one among them: from the seed whose bits hash into `k`,
/// and from every pair of seed components whose mix does.
pub proof fn lemma_every_fraction_is_drawn(k: u32, y: Scalar)
    requires
        k <= IEEE_MANTISSA,
    ensures
        draw(unhash(k)) == k,
        draw((unhash(k) ^ hash_spec(y.bits)) ^ hash_spec(y.bits)) == k,
{
    lemma_hash_permutes(k);
    let h = hash_spec(y.bits);
    let u = unhash(k);
    assert((u ^ h) ^ h == u) by (bit_vector);
    assert(k & 0x007F_FFFFu32 == k) by (bit_vector)
        requires
            k <= 0x007F_FFFFu32,
    ;
}

/// `r` is the number `k / 2^23`, not negative. (Values count in units of
/// 2^-149, so the quotient reads `k * 2^126`.)
pub open spec fn is_unit_fraction(r: Scalar, k: u32) -> bool {
    !r.sign() && r.finite() && r.value() == k * pow2(126)
}

/// The scalar `k / 2^23`. There is one for every `k` below 2^23, and never
/// two.
pub open spec fn unit_scalar(k: u32) -> Scalar {
    choose|r: Scalar| is_unit_fraction(r, k)
}

/// `0 <= r < 1` in the order of binary32.
pub open spec fn in_unit_interval(r: Scalar) -> bool {
    Scalar::zero().at_most(r) && r.less(Scalar::one())
}

/// The scalar in `[0, 1)` whose numerator over 2^23 is the low 23 bits of
/// `word`: what is left of the number in `[1, 2)` with that fraction field
/// once one is taken from it.
pub fn unit_fraction(word: u32) -> (r: Scalar)
    ensures
        r == unit_scalar(word & IEEE_MANTISSA),
        is_unit_fraction(r, word & IEEE_MANTISSA),
        in_unit_interval(r),
{
    let k: u32 = word & IEEE_MANTISSA;
    assert(k < 0x80_0000) by (bit_vector)
        requires
            k == word & 0x007F_FFFFu32,
    ;
    proof {
        lemma_constants();
        lemma2_to64();
    }
    if k == 0 {
        proof {
            assert(0 * pow2(126) == 0) by (nonlinear_arith);
            assert(is_unit_fraction(Scalar::zero(), k));
            lemma_value_names_pattern(Scalar::zero(), unit_scalar(k));
        }
        return Scalar::zero();
    }
    let mut m: u32 = k;
    let mut e: u32 = 127;
    assert(k == k * pow2(0)) by (nonlinear_arith)
        requires
            pow2(0) == 1,
    ;
    while m < 0x80_0000
        invariant
            0 < k < 0x80_0000,
            1 <= e <= 127,
            m == k * pow2((127 - e) as nat),
            m < 0x100_0000,
            e == 127 ==> m == k,
        decreases 0x100_0000 - m,
    {
        proof {
            let s = (127 - e) as nat;
            lemma_pow2_pos(s);
            lemma2_to64();
            assert(pow2(s) <= m) by (nonlinear_arith)
                requires
                    m == k * pow2(s),
                    k >= 1,
                    pow2(s) > 0,
            ;
            if s >= 23 {
                if s > 23 {
                    lemma_pow2_strictly_increases(23, s);
                }
                assert(false);
            }
            lemma_pow2_adds(s, 1);
            assert((128 - e) as nat == s + 1);
            assert(2 * (k * pow2(s)) == k * (pow2(s) * 2)) by (nonlinear_arith);
        }
        m = m * 2;
        e = e - 1;
    }
    let bits: u32 = (e << 23) | (m & IEEE_MANTISSA);
    let r = Scalar { bits };
    proof {
        assert(bits & 0x8000_0000u32 == 0 && (bits >> 23) & 0xFF == e && bits & 0x007F_FFFFu32 == m
            - 0x80_0000 && bits & 0x7FFF_FFFFu32 < 0x3F80_0000 && bits & 0x7FFF_FFFFu32 == bits)
            by (bit_vector)
            requires
                bits == (e << 23) | (m & 0x007F_FFFFu32),
                1 <= e <= 126,
                0x80_0000 <= m < 0x100_0000,
        ;
        let s = (127 - e) as nat;
        assert(r.significand() == m);
        assert(r.scale() == e - 1);
        lemma_pow2_adds(s, (e - 1) as nat);
        assert(m * pow2((e - 1) as nat) == k * pow2(126)) by (nonlinear_arith)
            requires
                m == k * pow2(s),
                pow2(126) == pow2(s) * pow2((e - 1) as nat),
        ;
        assert(is_unit_fraction(r, k));
        lemma_value_names_pattern(r, unit_scalar(k));
    }
    r
}

/// The numerator over 2^23 of the scalar drawn from seed word `h`.
pub open spec fn draw(h: u32) -> u32 {
    hash_spec(h) & IEEE_MANTISSA
}

/// The bit pattern of a scalar.
pub fn float_to_u32(x: Scalar) -> (bits: u32)
    ensures
        bits == x.bits,
{
    x.bits
}

/// The bit patterns of both components.
pub fn vec2_to_u32(x: Vec2) -> (h: UVec2)
    ensures
        h.x == x.x.bits,
        h.y == x.y.bits,
{
    UVec2::new(float_to_u32(x.x), float_to_u32(x.y))
}

/// A scalar in `[0, 1)` drawn from both components of the seed.
pub fn rand_vec2(x: Vec2) -> (r: Scalar)
    ensures
        r == unit_scalar(draw(x.x.bits ^ hash_spec(x.y.bits))),
        is_unit_fraction(r, draw(x.x.bits ^ hash_spec(x.y.bits))),
        in_unit_interval(r),
{
    let h: UVec2 = vec2_to_u32(x);
    unit_fraction(hash(h.x ^ hash(h.y)))
}

/// A scalar in `[0, 1)` drawn from one seed scalar.
pub fn rand_f32(x: Scalar) -> (r: Scalar)
    ensures
        r == unit_scalar(draw(x.bits)),
        is_unit_fraction(r, draw(x.bits)),
        in_unit_interval(r),
{
    unit_fraction(hash(float_to_u32(x)))
}

/// Three draws, one from each component.
pub fn rand_vec3(x: Vec3) -> (r: Vec3)
    ensures
        r.x == unit_scalar(draw(x.x.bits)),
        r.y == unit_scalar(draw(x.y.bits)),
        r.z == unit_scalar(draw(x.z.bits)),
        in_unit_interval(r.x) && in_unit_interval(r.y) && in_unit_interval(r.z),
{
    Vec3::new(rand_f32(x.x), rand_f32(x.y), rand_f32(x.z))
}

} // verus!
