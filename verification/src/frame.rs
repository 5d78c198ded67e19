//! What the driver of a render needs besides pixels: the order in which a
//! frame's pixels are rendered and stored, and the bytes of an image file.

use crate::depth::{lemma_pixel_has_own_texel, texel};
use crate::vector::{UVec2, Vec3};
use crate::ShaderConstants;
use itertools::Itertools;
use vstd::arithmetic::div_mod::{
    lemma_div_pos_is_pos, lemma_fundamental_div_mod, lemma_mod_pos_bound, lemma_multiply_divide_lt,
};
use vstd::prelude::*;

verus! {

/// Calls `Itertools::cartesian_product` on the ranges `0..rows` and
/// `0..columns` and collects the pairs it yields.
///
/// Not proved, read off the adaptor: it yields every pair once, walks the
/// first range once, and for each of its items the whole second range in
/// order. So there are `rows * columns` pairs, and pair `k` is
/// `(k / columns, k % columns)`. A product too large to be collected is left
/// out.
#[verifier::external_body]
fn cartesian_product(rows: u32, columns: u32) -> (all: Vec<(u32, u32)>)
    requires
        rows * columns * 8 <= isize::MAX,
    ensures
        all@.len() == rows * columns,
        forall|k: int|
            0 <= k < all@.len() ==> #[trigger] all@[k] == (
                (k / (columns as int)) as u32,
                (k % (columns as int)) as u32,
            ),
{
    (0..rows).into_iter().cartesian_product(0..columns).into_iter().collect::<Vec<(u32, u32)>>()
}

/// The pixels of a frame in the order of the frame buffer: row after row,
/// and each row from its first column to its last. The pixel at place `k` is
/// the one whose texel is `k`.
pub fn frame_coordinates(sc: &ShaderConstants) -> (all: Vec<UVec2>)
    requires
        sc.pixels() * 8 <= isize::MAX,
    ensures
        all@.len() == sc.pixels(),
        forall|k: int|
            0 <= k < all@.len() ==> {
                &&& (#[trigger] all@[k]).x == k % (sc.width as int)
                &&& all@[k].y == k / (sc.width as int)
                &&& all@[k].x < sc.width
                &&& all@[k].y < sc.height
                &&& texel(*sc, all@[k]) == k
            },
{
    let pairs: Vec<(u32, u32)> = cartesian_product(sc.height, sc.width);
    assert(sc.height * sc.width == sc.width * sc.height) by (nonlinear_arith);
    let mut all: Vec<UVec2> = Vec::new();
    let mut k: usize = 0;
    while k < pairs.len()
        invariant
            k <= pairs.len(),
            pairs@.len() == sc.pixels(),
            sc.pixels() == sc.width * sc.height,
            forall|j: int|
                0 <= j < pairs@.len() ==> #[trigger] pairs@[j] == (
                    (j / (sc.width as int)) as u32,
                    (j % (sc.width as int)) as u32,
                ),
            all@.len() == k,
            forall|j: int|
                0 <= j < k ==> {
                    &&& (#[trigger] all@[j]).x == j % (sc.width as int)
                    &&& all@[j].y == j / (sc.width as int)
                    &&& all@[j].x < sc.width
                    &&& all@[j].y < sc.height
                    &&& texel(*sc, all@[j]) == j
                },
        decreases pairs.len() - k,
    {
        let (row, column) = pairs[k];
        let pixel = UVec2::new(column, row);
        proof {
            let w = sc.width as int;
            assert(w > 0) by (nonlinear_arith)
                requires
                    0 <= k < w * sc.height,
                    w >= 0,
            ;
            lemma_multiply_divide_lt(k as int, w, sc.height as int);
            lemma_div_pos_is_pos(k as int, w);
            lemma_mod_pos_bound(k as int, w);
            lemma_fundamental_div_mod(k as int, w);
            assert(pairs@[k as int] == ((k as int / w) as u32, (k as int % w) as u32));
            assert(w * (k as int / w) == (k as int / w) * w) by (nonlinear_arith);
            lemma_pixel_has_own_texel(*sc, pixel);
        }
        all.push(pixel);
        k = k + 1;
    }
    all
}

/// The three bytes of a pixel in an 8-bit RGB image, from a colour whose
/// channels were scaled to `[0, 256)`: each channel without its fraction.
pub fn quantise(scaled: Vec3) -> (rgb: [u8; 3])
    ensures
        rgb[0] == scaled.x.spec_truncate_to_u8(),
        rgb[1] == scaled.y.spec_truncate_to_u8(),
        rgb[2] == scaled.z.spec_truncate_to_u8(),
{
    [scaled.x.truncate_to_u8(), scaled.y.truncate_to_u8(), scaled.z.truncate_to_u8()]
}

} // verus!
