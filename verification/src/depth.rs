//! Addressing the frame buffer: positions in pixels are rounded to the
//! nearest texel, and texel indices are row-major and wrap at the borders of
//! the image.

use crate::scalar::{lemma_constants, lemma_fields, Scalar};
use crate::vector::{UVec2, Vec2};
use crate::ShaderConstants;
use vstd::arithmetic::div_mod::{
    lemma_fundamental_div_mod_converse, lemma_mod_add_multiples_vanish, lemma_small_mod,
};
use vstd::arithmetic::power2::{lemma_pow2_adds, lemma_pow2_pos, pow2};
use vstd::prelude::*;

verus! {

/// The texel that pixel `v2` names: `y * width + x`, wrapped into the frame.
pub open spec fn texel(sc: ShaderConstants, v2: UVec2) -> nat {
    ((v2.y * sc.width + v2.x) % (sc.pixels() as int)) as nat
}

/// The pixel nearest to a position that is given in pixels.
pub open spec fn spec_nearest_pixel(at: Vec2) -> UVec2 {
    UVec2 { x: at.x.spec_round_to_u32(), y: at.y.spec_round_to_u32() }
}

/// `s` is a number that lies within half a pixel of `n`: from `n - 1/2`
/// up to, but not including, `n + 1/2`. Below pixel 0 the range is open downwards.
pub open spec fn snaps_to(s: Scalar, n: u32) -> bool {
    &&& !s.nan()
    &&& s.value() < n * pow2(149) + pow2(148)
    &&& n == 0 || n * pow2(149) - pow2(148) <= s.value()
}

/// `r` is the quotient `num / den` up to one part in 2^23 of it: what an
/// operation of binary32 arithmetic gives whose exact result is `num / den`,
/// a number that is zero or not below the normal range.
pub open spec fn approximates(r: Scalar, num: int, den: int) -> bool {
    let exact = num * pow2(149);
    let got = r.value() * den;
    &&& r.finite()
    &&& (got - exact) * 0x80_0000 <= exact
    &&& (exact - got) * 0x80_0000 <= exact
}

/// The size of the circle of confusion, between 0 and 1, that a defocus
/// gives: the defocus held to `[-1, 1]`, without its sign.
pub open spec fn spec_circle_of_confusion(defocus: Scalar) -> Scalar {
    defocus.clamp(Scalar::neg_one(), Scalar::one()).abs()
}

/// The blur size that a sample brings to the gather: its own, but where the
/// sample lies behind the centre, no more than `limit`.
pub open spec fn spec_held_back(
    sample_size: Scalar,
    sample_depth: Scalar,
    center_depth: Scalar,
    limit: Scalar,
) -> Scalar {
    if center_depth.less(sample_depth) {
        sample_size.clamp(Scalar::zero(), limit)
    } else {
        sample_size
    }
}

#[verifier::when_used_as_spec(spec_circle_of_confusion)]
pub fn circle_of_confusion(defocus: Scalar) -> (coc: Scalar)
    ensures
        coc == spec_circle_of_confusion(defocus),
        !defocus.nan() ==> Scalar::zero().at_most(coc) && coc.at_most(Scalar::one()),
        defocus.same(Scalar::zero()) ==> coc == Scalar::zero(),
{
    proof {
        lemma_constants();
        lemma_fields(defocus.bits);
    }
    let held = defocus.clamp(Scalar::neg_one(), Scalar::one());
    let coc = held.abs();
    proof {
        let bits = held.bits;
        assert(bits & 0x7FFF_FFFFu32 == 0 ==> (bits & 0x7FFF_FFFFu32) & 0x7FFF_FFFFu32 == 0
            && (bits & 0x7FFF_FFFFu32) & 0x8000_0000u32 == 0) by (bit_vector);
        lemma_fields(coc.bits);
        assert(coc.magnitude_bits() == held.magnitude_bits()) by {
            assert((bits & 0x7FFF_FFFFu32) & 0x7FFF_FFFFu32 == bits & 0x7FFF_FFFFu32)
                by (bit_vector);
        }
    }
    coc
}

/// Keeps a sample that lies behind the centre from bleeding over it.
#[verifier::when_used_as_spec(spec_held_back)]
pub fn held_back(
    sample_size: Scalar,
    sample_depth: Scalar,
    center_depth: Scalar,
    limit: Scalar,
) -> (r: Scalar)
    requires
        center_depth.less(sample_depth) ==> Scalar::zero().at_most(limit),
    ensures
        r == spec_held_back(sample_size, sample_depth, center_depth, limit),
{
    if sample_depth.gt(center_depth) {
        sample_size.clamp(Scalar::zero(), limit)
    } else {
        sample_size
    }
}

/// Brings an index back into the frame: counts on from the first texel where
/// the last was passed.
pub fn wrap_id(sc: &ShaderConstants, id: usize) -> (r: usize)
    requires
        0 < sc.pixels() <= usize::MAX,
    ensures
        r == (id as int) % (sc.pixels() as int),
        r == (id + sc.pixels()) % (sc.pixels() as int),
        r < sc.pixels(),
{
    let total: u64 = frame_len(sc);
    let r: u64 = (id as u64) % total;
    proof {
        lemma_mod_add_multiples_vanish(id as int, total as int);
    }
    r as usize
}

/// `width * height`, which fits in 64 bits whatever the two are.
fn frame_len(sc: &ShaderConstants) -> (total: u64)
    ensures
        total == sc.pixels(),
{
    assert(sc.width * sc.height <= 0xFFFF_FFFF * 0xFFFF_FFFF) by (nonlinear_arith)
        requires
            sc.width <= 0xFFFF_FFFF,
            sc.height <= 0xFFFF_FFFF,
    ;
    (sc.width as u64) * (sc.height as u64)
}

/// The pixel nearest to `at`. Positions left of or above the frame, and
/// positions that are no numbers, go to column or row 0.
pub fn nearest_pixel(at: Vec2) -> (v2: UVec2)
    ensures
        v2 == spec_nearest_pixel(at),
{
    UVec2::new(at.x.round_to_u32(), at.y.round_to_u32())
}

/// The frame-buffer index of pixel `v2`. A pixel beyond the last column or
/// row reads from the opposite edge.
pub fn pixel_to_id(sc: &ShaderConstants, v2: UVec2) -> (r: usize)
    requires
        0 < sc.pixels() <= usize::MAX,
    ensures
        r == texel(*sc, v2),
        r < sc.pixels(),
{
    let total: u64 = frame_len(sc);
    assert(v2.y * sc.width + v2.x <= 0xFFFF_FFFF * 0xFFFF_FFFF + 0xFFFF_FFFF) by (nonlinear_arith)
        requires
            v2.y <= 0xFFFF_FFFF,
            sc.width <= 0xFFFF_FFFF,
            v2.x <= 0xFFFF_FFFF,
    ;
    let flat: u64 = (v2.y as u64) * (sc.width as u64) + (v2.x as u64);
    (flat % total) as usize
}

/// The frame-buffer index of the texel nearest to `at`, a texture
/// coordinate that was scaled to pixels.
pub fn uv_to_id(sc: &ShaderConstants, at: Vec2) -> (r: usize)
    requires
        0 < sc.pixels() <= usize::MAX,
    ensures
        r == texel(*sc, spec_nearest_pixel(at)),
        r < sc.pixels(),
{
    pixel_to_id(sc, nearest_pixel(at))
}

/// A number within half a pixel of `n` rounds to `n`.
pub proof fn lemma_round_snaps(s: Scalar, n: u32)
    requires
        snaps_to(s, n),
    ensures
        s.spec_round_to_u32() == n,
{
    let unit = pow2(149) as int;
    let half = pow2(148) as int;
    lemma_pow2_adds(1, 148);
    vstd::arithmetic::power2::lemma2_to64();
    lemma_pow2_pos(148);
    assert(unit == 2 * half);
    if s.sign() {
        if n >= 1 {
            assert(n * unit >= unit) by (nonlinear_arith)
                requires
                    n >= 1,
                    unit > 0,
            ;
        }
    } else {
        assert(n * unit <= 0xFFFF_FFFF * unit) by (nonlinear_arith)
            requires
                n <= 0xFFFF_FFFF,
                unit > 0,
        ;
        lemma_fundamental_div_mod_converse(
            s.magnitude() + half,
            unit,
            n as int,
            s.magnitude() + half - n * unit,
        );
    }
}

/// Going from a pixel to its texture coordinate and back loses less than half
/// a pixel: where `uv` is `x / size` as binary32 division gives it, and `at` is
/// `uv * size` as binary32 multiplication gives it, `at` lies within half a
/// pixel of `x`. This holds of every coordinate below 2^21.
pub proof fn lemma_scaled_uv_snaps(x: u32, size: u32, uv: Scalar, at: Scalar)
    requires
        x < size,
        x < 0x20_0000,
        approximates(uv, x as int, size as int),
        approximates(at, uv.value() * size, pow2(149) as int),
    ensures
        snaps_to(at, x),
{
    let unit = pow2(149) as int;
    let half = pow2(148) as int;
    lemma_pow2_adds(1, 148);
    vstd::arithmetic::power2::lemma2_to64();
    lemma_pow2_pos(148);
    assert(unit == 2 * half);
    let a = at.value();
    let b = uv.value() * size;
    let c = x * unit;
    assert(0 <= c <= 0x1F_FFFF * unit) by (nonlinear_arith)
        requires
            c == x * unit,
            0 <= x <= 0x1F_FFFF,
            unit > 0,
    ;
    // accuracy of the division
    assert((b - c) * 0x80_0000 <= c && (c - b) * 0x80_0000 <= c);
    // accuracy of the multiplication, freed of the unit on both sides
    assert((a - b) * 0x80_0000 <= b && (b - a) * 0x80_0000 <= b) by (nonlinear_arith)
        requires
            (a * unit - b * unit) * 0x80_0000 <= b * unit,
            (b * unit - a * unit) * 0x80_0000 <= b * unit,
            unit > 0,
    ;
    // both together
    assert((a - c) * 0x4000_0000_0000 <= 0x100_0001 * c && (c - a) * 0x4000_0000_0000
        <= 0x100_0001 * c);
    assert(0x100_0001 * c < 0x4000_0000_0000 * half || c == 0) by (nonlinear_arith)
        requires
            0 <= c <= 0x1F_FFFF * unit,
            unit == 2 * half,
            half > 0,
    ;
}

/// Every pixel of the frame has a texel of its own, from which its column and
/// row are read back: nothing wraps inside the image.
pub proof fn lemma_pixel_has_own_texel(sc: ShaderConstants, v2: UVec2)
    requires
        v2.x < sc.width,
        v2.y < sc.height,
    ensures
        texel(sc, v2) == v2.y * sc.width + v2.x,
        texel(sc, v2) < sc.pixels(),
        texel(sc, v2) % (sc.width as nat) == v2.x,
        texel(sc, v2) / (sc.width as nat) == v2.y,
{
    let w = sc.width as int;
    let h = sc.height as int;
    let x = v2.x as int;
    let y = v2.y as int;
    assert(0 <= y * w + x < w * h) by (nonlinear_arith)
        requires
            0 <= x < w,
            0 <= y < h,
    ;
    lemma_small_mod((y * w + x) as nat, (w * h) as nat);
    lemma_fundamental_div_mod_converse(y * w + x, w, y, x);
}

/// Beyond the frame the texels begin again: the row after the last is the
/// first, and the column after the last is the first of the next row.
pub proof fn lemma_texels_wrap(sc: ShaderConstants, v2: UVec2)
    requires
        0 < sc.pixels(),
    ensures
        v2.y + sc.height <= u32::MAX ==> texel(
            sc,
            UVec2 { x: v2.x, y: (v2.y + sc.height) as u32 },
        ) == texel(sc, v2),
        v2.y < u32::MAX ==> texel(sc, UVec2 { x: sc.width, y: v2.y }) == texel(
            sc,
            UVec2 { x: 0, y: (v2.y + 1) as u32 },
        ),
{
    let w = sc.width as int;
    let h = sc.height as int;
    let flat = v2.y * w + v2.x;
    assert((v2.y + h) * w + v2.x == w * h + flat) by (nonlinear_arith)
        requires
            flat == v2.y * w + v2.x,
    ;
    lemma_mod_add_multiples_vanish(flat, w * h);
    assert(v2.y * w + w == (v2.y + 1) * w + 0) by (nonlinear_arith);
}

/// The texture lookup finds every pixel again: a position within half a pixel
/// of pixel `(x, y)` of the frame is given that pixel's texel, `y * width + x`,
/// from which `x` and `y` are read back. By [`lemma_scaled_uv_snaps`] the
/// texture coordinate of a pixel, scaled back to pixels, is such a position.
pub proof fn lemma_pixel_round_trip(sc: ShaderConstants, at: Vec2, x: u32, y: u32)
    requires
        x < sc.width,
        y < sc.height,
        snaps_to(at.x, x),
        snaps_to(at.y, y),
    ensures
        spec_nearest_pixel(at) == (UVec2 { x, y }),
        texel(sc, spec_nearest_pixel(at)) == y * sc.width + x,
        texel(sc, spec_nearest_pixel(at)) % (sc.width as nat) == x,
        texel(sc, spec_nearest_pixel(at)) / (sc.width as nat) == y,
{
    lemma_round_snaps(at.x, x);
    lemma_round_snaps(at.y, y);
    lemma_pixel_has_own_texel(sc, UVec2 { x, y });
}

/// The inverse mapping of the texture lookup is exact: the texture
/// coordinate `uv` of pixel `(x, y)`, its column over the width and its row
/// over the height, scaled back to pixels by the width and the height, names
/// that pixel's texel again. The quotients and products are those of binary32
/// arithmetic; the frame is less than 2^21 pixels wide and high.
pub proof fn lemma_texture_lookup_finds_pixel(
    sc: ShaderConstants,
    x: u32,
    y: u32,
    uv: Vec2,
    at: Vec2,
)
    requires
        x < sc.width <= 0x20_0000,
        y < sc.height <= 0x20_0000,
        approximates(uv.x, x as int, sc.width as int),
        approximates(uv.y, y as int, sc.height as int),
        approximates(at.x, uv.x.value() * sc.width, pow2(149) as int),
        approximates(at.y, uv.y.value() * sc.height, pow2(149) as int),
    ensures
        spec_nearest_pixel(at) == (UVec2 { x, y }),
        texel(sc, spec_nearest_pixel(at)) == y * sc.width + x,
        texel(sc, spec_nearest_pixel(at)) % (sc.width as nat) == x,
        texel(sc, spec_nearest_pixel(at)) / (sc.width as nat) == y,
{
    lemma_scaled_uv_snaps(x, sc.width, uv.x, at.x);
    lemma_scaled_uv_snaps(y, sc.height, uv.y, at.y);
    lemma_pixel_round_trip(sc, at, x, y);
}

} // verus!
