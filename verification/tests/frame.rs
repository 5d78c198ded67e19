use itertools::Itertools;
use rayon::prelude::{IntoParallelIterator, ParallelIterator};
use rt_impl::depth::{nearest_pixel, pixel_to_id, uv_to_id, wrap_id};
use rt_impl::frame::{frame_coordinates, quantise};
use rt_impl::scalar::Scalar;
use rt_impl::vector::{UVec2, Vec2, Vec3};
use rt_impl::ShaderConstants;
use spirv_std::glam::uvec2;

fn s(f: f32) -> Scalar {
    Scalar::from_bits(f.to_bits())
}

fn at(x: f32, y: f32) -> Vec2 {
    Vec2::new(s(x), s(y))
}

fn constants(width: u32, height: u32) -> ShaderConstants {
    ShaderConstants {
        width,
        height,
        aa_stages: 150,
        bounce_limit: 100,
        focus_point: Scalar::from_bits(1.0f32.to_bits()),
    }
}

#[test]
fn test_uv_to_id() {
    let h = 400;
    let w = 800;

    let sc = constants(w, h);

    let correct: Vec<(u32, u32)> = (0..w)
        .into_iter()
        .cartesian_product(0..h)
        .into_iter()
        .collect::<Vec<(u32, u32)>>();

    let result: Vec<(u32, u32)> = correct
        .clone()
        .into_par_iter()
        .map(|(j, i)| {
            let uv = uvec2(i, j).as_vec2() / uvec2(sc.width, sc.height).as_vec2();

            let v2 = (uv * uvec2(sc.width, sc.height).as_vec2())
                .round()
                .as_uvec2();

            assert_eq!(v2.x, i);
            assert_eq!(v2.y, j);

            let scaled = uv * uvec2(sc.width, sc.height).as_vec2();
            assert_eq!(nearest_pixel(at(scaled.x, scaled.y)), UVec2::new(i, j));
            assert_eq!(
                uv_to_id(&sc, at(scaled.x, scaled.y)),
                ((j * sc.width + i) % (sc.width * sc.height)) as usize
            );

            (v2.y, v2.x)
        })
        .collect();

    // check if result is the same
    assert_eq!(result, correct);
}

#[test]
fn every_pixel_has_its_own_texel() {
    let sc = constants(800, 400);
    let mut next: usize = 0;
    for y in 0..sc.height {
        for x in 0..sc.width {
            let uv = uvec2(x, y).as_vec2() / uvec2(sc.width, sc.height).as_vec2();
            let scaled = uv * uvec2(sc.width, sc.height).as_vec2();
            let id = uv_to_id(&sc, at(scaled.x, scaled.y));
            assert_eq!(id, next);
            assert_eq!(id % sc.width as usize, x as usize);
            assert_eq!(id / sc.width as usize, y as usize);
            next += 1;
        }
    }
    assert_eq!(next, 320_000);
}

#[test]
fn texels_are_row_major() {
    let sc = constants(4, 3);
    assert_eq!(pixel_to_id(&sc, UVec2::new(0, 0)), 0);
    assert_eq!(pixel_to_id(&sc, UVec2::new(3, 0)), 3);
    assert_eq!(pixel_to_id(&sc, UVec2::new(0, 1)), 4);
    assert_eq!(pixel_to_id(&sc, UVec2::new(2, 1)), 6);
    assert_eq!(pixel_to_id(&sc, UVec2::new(3, 2)), 11);
}

#[test]
fn texels_wrap_at_the_borders() {
    let sc = constants(4, 3);
    assert_eq!(pixel_to_id(&sc, UVec2::new(4, 0)), 4);
    assert_eq!(pixel_to_id(&sc, UVec2::new(0, 3)), 0);
    assert_eq!(pixel_to_id(&sc, UVec2::new(1, 3)), 1);
    assert_eq!(pixel_to_id(&sc, UVec2::new(4, 2)), 0);
    assert_eq!(pixel_to_id(&sc, UVec2::new(7, 5)), 3);
    assert_eq!(
        pixel_to_id(&sc, UVec2::new(u32::MAX, u32::MAX)),
        ((u32::MAX as u64 * 4 + u32::MAX as u64) % 12) as usize
    );
}

#[test]
fn wrap_id_counts_on_from_the_first_texel() {
    let sc = constants(4, 3);
    for id in 0..12 {
        assert_eq!(wrap_id(&sc, id), id);
    }
    assert_eq!(wrap_id(&sc, 12), 0);
    assert_eq!(wrap_id(&sc, 13), 1);
    assert_eq!(wrap_id(&sc, 35), 11);
    assert_eq!(wrap_id(&sc, usize::MAX), usize::MAX % 12);
    let one = constants(1, 1);
    assert_eq!(wrap_id(&one, 0), 0);
    assert_eq!(wrap_id(&one, 99), 0);
}

#[test]
fn a_frame_wider_than_sixteen_bits() {
    let sc = constants(100_000, 50_000);
    assert_eq!(
        pixel_to_id(&sc, UVec2::new(99_999, 49_999)),
        4_999_999_999u64 as usize
    );
    assert_eq!(pixel_to_id(&sc, UVec2::new(0, 50_000)), 0);
    assert_eq!(wrap_id(&sc, 5_000_000_001u64 as usize), 1);
}

#[test]
fn positions_go_to_the_nearest_texel() {
    let sc = constants(4, 3);
    assert_eq!(uv_to_id(&sc, at(0.0, 0.0)), 0);
    assert_eq!(uv_to_id(&sc, at(0.49, 0.49)), 0);
    assert_eq!(uv_to_id(&sc, at(0.5, 0.0)), 1);
    assert_eq!(uv_to_id(&sc, at(2.4, 1.6)), 10);
    assert_eq!(uv_to_id(&sc, at(3.49, 2.49)), 11);
    assert_eq!(uv_to_id(&sc, at(3.5, 2.0)), 0);
    assert_eq!(uv_to_id(&sc, at(1.0, 2.5)), 1);
    assert_eq!(uv_to_id(&sc, at(-0.7, 1.0)), 4);
    assert_eq!(uv_to_id(&sc, at(-5.0, -9.0)), 0);
    assert_eq!(uv_to_id(&sc, at(f32::NAN, 1.0)), 4);
    assert_eq!(uv_to_id(&sc, at(6.0, 1.0)), 10);
}

#[test]
fn rounding_agrees_with_round_and_cast() {
    let mut all: Vec<f32> = vec![
        0.0,
        -0.0,
        0.49999997,
        0.5,
        0.50000006,
        1.0,
        1.4999999,
        1.5,
        2.5,
        3.5,
        8388607.5,
        8388608.0,
        16777215.0,
        16777216.0,
        4294967040.0,
        4294967296.0,
        1.0e20,
        -0.5,
        -1.5,
        -1.0e20,
        1.0e-45,
        1.17549435e-38,
        f32::INFINITY,
        f32::NEG_INFINITY,
        f32::NAN,
        -f32::NAN,
    ];
    let mut word: u32 = 0xC0FF_EE11;
    for _ in 0..300_000 {
        word = word.wrapping_mul(1_664_525).wrapping_add(1_013_904_223);
        all.push(f32::from_bits(word));
        all.push((word >> 8) as f32 / 64.0);
        all.push((word >> 4) as f32 / 2.0);
        all.push(word as f32);
    }
    for x in all {
        assert_eq!(s(x).round_to_u32(), x.round() as u32, "{x}");
    }
}

#[test]
fn rounding_known_values() {
    assert_eq!(s(0.5).round_to_u32(), 1);
    assert_eq!(s(0.49999997).round_to_u32(), 0);
    assert_eq!(s(2.5).round_to_u32(), 3);
    assert_eq!(s(799.4).round_to_u32(), 799);
    assert_eq!(s(799.5).round_to_u32(), 800);
    assert_eq!(s(-3.0).round_to_u32(), 0);
    assert_eq!(s(f32::NAN).round_to_u32(), 0);
    assert_eq!(s(4294967040.0).round_to_u32(), 4_294_967_040);
    assert_eq!(s(4294967296.0).round_to_u32(), u32::MAX);
    assert_eq!(s(f32::INFINITY).round_to_u32(), u32::MAX);
}

#[test]
fn frame_coordinates_go_row_by_row() {
    let sc = constants(3, 2);
    assert_eq!(
        frame_coordinates(&sc),
        vec![
            UVec2::new(0, 0),
            UVec2::new(1, 0),
            UVec2::new(2, 0),
            UVec2::new(0, 1),
            UVec2::new(1, 1),
            UVec2::new(2, 1),
        ]
    );
    assert_eq!(frame_coordinates(&constants(0, 5)), vec![]);
    assert_eq!(frame_coordinates(&constants(5, 0)), vec![]);
    assert_eq!(frame_coordinates(&constants(1, 1)), vec![UVec2::new(0, 0)]);
}

#[test]
fn frame_coordinates_are_the_product_of_rows_and_columns() {
    let sc = constants(7, 5);
    let expected: Vec<UVec2> = (0..sc.height)
        .cartesian_product(0..sc.width)
        .map(|(h, w)| UVec2::new(w, h))
        .collect();
    assert_eq!(frame_coordinates(&sc), expected);
}

#[test]
fn frame_coordinates_stand_at_their_texel() {
    let sc = constants(800, 400);
    let all = frame_coordinates(&sc);
    assert_eq!(all.len(), 320_000);
    for (k, pixel) in all.iter().enumerate() {
        assert_eq!(pixel_to_id(&sc, *pixel), k);
    }
}

#[test]
fn truncation_agrees_with_the_cast() {
    let mut all: Vec<f32> = vec![
        0.0,
        -0.0,
        0.999_999_9,
        1.0,
        1.999_999_9,
        127.5,
        254.999,
        255.0,
        255.998_99,
        255.999,
        256.0,
        1.0e9,
        -1.0,
        -300.0,
        f32::INFINITY,
        f32::NEG_INFINITY,
        f32::NAN,
    ];
    let mut word: u32 = 0xDEAD_BEEF;
    for _ in 0..300_000 {
        word = word.wrapping_mul(1_664_525).wrapping_add(1_013_904_223);
        all.push(f32::from_bits(word));
        all.push((word >> 8) as f32 / 32_768.0);
        all.push(f32::from_bits((word & 0x007F_FFFF) | 0x3F80_0000) - 1.0);
    }
    for x in all {
        assert_eq!(s(x).truncate_to_u8(), x as u8, "{x}");
        assert_eq!(s(x * 255.999).truncate_to_u8(), (x * 255.999) as u8, "{x}");
    }
}

#[test]
fn quantise_gives_the_bytes_of_a_pixel() {
    let colour = [0.0f32, 0.5, 1.0];
    let scaled = Vec3::new(
        s(colour[0] * 255.999),
        s(colour[1] * 255.999),
        s(colour[2] * 255.999),
    );
    assert_eq!(quantise(scaled), [0, 127, 255]);
    assert_eq!(quantise(Vec3::new(s(-4.0), s(f32::NAN), s(300.0))), [0, 0, 255]);
    assert_eq!(quantise(Vec3::new(s(0.999), s(1.0), s(254.999))), [0, 1, 254]);
}

#[test]
fn texture_coordinates_come_back_to_their_pixel() {
    let mut word: u32 = 0x5EED_1234;
    let mut next = |below: u32| {
        word = word.wrapping_mul(1_664_525).wrapping_add(1_013_904_223);
        ((word as u64 * below as u64) >> 32) as u32
    };
    for _ in 0..400_000 {
        let size = next(0x20_0000) + 1;
        let x = next(size);
        let uv = x as f32 / size as f32;
        let back = uv * size as f32;
        assert_eq!(s(back).round_to_u32(), x, "{x} of {size}");
    }
    for size in [1u32, 2, 3, 800, 400, 0x1F_FFFF, 0x20_0000] {
        for x in [0, size / 3, size / 2, size - 1] {
            let back = (x as f32 / size as f32) * size as f32;
            assert_eq!(s(back).round_to_u32(), x, "{x} of {size}");
        }
    }
}
