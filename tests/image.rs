use pixcore::{conversion_plan, ColorSpace, Gamut, Image, ImageError, Pixel, Step, LEVEL_STEP, ONE};

fn px(r: i32, g: i32, b: i32, a: i32) -> Pixel {
    Pixel { r, g, b, a }
}

fn level_bytes(pixels: &[(u8, u8, u8, u8)]) -> Vec<u8> {
    let mut out = Vec::new();
    for &(r, g, b, a) in pixels {
        out.push(r);
        out.push(g);
        out.push(b);
        out.push(a);
    }
    out
}

fn corners_2x2() -> Image {
    let bytes = level_bytes(&[(255, 0, 0, 255), (0, 255, 0, 255), (0, 0, 255, 255), (255, 255, 255, 255)]);
    Image::from_bytes(&bytes, (2, 2), ColorSpace::sRGB).unwrap()
}

#[test]
fn single_red_pixel_decodes_to_unit_values() {
    let img = Image::from_bytes(&[255, 0, 0, 255], (1, 1), ColorSpace::sRGB).unwrap();
    assert_eq!(img.width(), 1);
    assert_eq!(img.height(), 1);
    assert_eq!(img.color(), ColorSpace::sRGB);
    assert_eq!(img.pixels(), &[px(ONE, 0, 0, ONE)]);
    let p = img.pixels()[0];
    assert_eq!(p.r as f64 / ONE as f64, 1.0);
    assert_eq!(p.g as f64 / ONE as f64, 0.0);
}

#[test]
fn short_input_is_invalid_length() {
    let r = Image::from_bytes(&[0u8; 10], (2, 2), ColorSpace::sRGB);
    assert_eq!(r.err(), Some(ImageError::InvalidLength));
}

#[test]
fn long_input_is_invalid_length() {
    let r = Image::from_bytes(&[0u8; 20], (2, 2), ColorSpace::sRGB);
    assert_eq!(r.err(), Some(ImageError::InvalidLength));
}

#[test]
fn zero_side_is_invalid_resolution() {
    let r = Image::from_bytes(&[], (0, 3), ColorSpace::AsIs);
    assert_eq!(r.err(), Some(ImageError::InvalidResolution));
}

#[test]
fn levels_scale_by_step() {
    let img = Image::from_bytes(&[1, 128, 254, 0], (1, 1), ColorSpace::AsIs).unwrap();
    assert_eq!(img.pixels()[0], px(LEVEL_STEP, 128 * LEVEL_STEP, 254 * LEVEL_STEP, 0));
    assert_eq!(ONE, 255 * LEVEL_STEP);
}

#[test]
fn resize_2x2_to_3x3_blends_corners() {
    let mut img = corners_2x2();
    img.scale((3, 3)).unwrap();
    assert_eq!(img.width(), 3);
    assert_eq!(img.height(), 3);
    let p = img.pixels();
    assert_eq!(p.len(), 9);
    let h = ONE / 2;
    // corners
    assert_eq!(p[0], px(ONE, 0, 0, ONE));
    assert_eq!(p[2], px(0, ONE, 0, ONE));
    assert_eq!(p[6], px(0, 0, ONE, ONE));
    assert_eq!(p[8], px(ONE, ONE, ONE, ONE));
    // edge midpoints
    assert_eq!(p[1], px(h, h, 0, ONE));
    assert_eq!(p[3], px(h, 0, h, ONE));
    assert_eq!(p[5], px(h, ONE, h, ONE));
    assert_eq!(p[7], px(h, h, ONE, ONE));
    // center
    assert_eq!(p[4], px(h, h, h, ONE));
}

#[test]
fn resize_to_same_size_is_identity() {
    let mut img = corners_2x2();
    let before = img.pixels().to_vec();
    img.scale((2, 2)).unwrap();
    assert_eq!(img.pixels(), &before[..]);
    assert_eq!((img.width(), img.height()), (2, 2));
}

#[test]
fn resize_shape_has_new_pixel_count() {
    for &(nw, nh) in &[(1u32, 1u32), (1, 5), (7, 1), (4, 3), (5, 9)] {
        let mut img = corners_2x2();
        img.scale((nw, nh)).unwrap();
        assert_eq!(img.pixels().len(), (nw * nh) as usize);
        assert_eq!((img.width(), img.height()), (nw, nh));
    }
}

#[test]
fn resize_keeps_corners() {
    let bytes = level_bytes(&[
        (10, 20, 30, 40),
        (50, 60, 70, 80),
        (90, 100, 110, 120),
        (130, 140, 150, 160),
        (170, 180, 190, 200),
        (210, 220, 230, 240),
    ]);
    let src = Image::from_bytes(&bytes, (3, 2), ColorSpace::sRGBLinear).unwrap();
    let s = src.pixels().to_vec();
    let mut img = Image::from_bytes(&bytes, (3, 2), ColorSpace::sRGBLinear).unwrap();
    img.scale((7, 5)).unwrap();
    let p = img.pixels();
    assert_eq!(p[0], s[0]);
    assert_eq!(p[6], s[2]);
    assert_eq!(p[28], s[3]);
    assert_eq!(p[34], s[5]);
}

#[test]
fn resize_down_to_one_pixel_takes_first() {
    let mut img = corners_2x2();
    img.scale((1, 1)).unwrap();
    assert_eq!(img.pixels(), &[px(ONE, 0, 0, ONE)]);
}

#[test]
fn resize_to_zero_is_invalid_resolution() {
    let mut img = corners_2x2();
    let before = img.pixels().to_vec();
    assert_eq!(img.scale((0, 4)), Err(ImageError::InvalidResolution));
    assert_eq!(img.scale((4, 0)), Err(ImageError::InvalidResolution));
    assert_eq!(img.pixels(), &before[..]);
    assert_eq!((img.width(), img.height()), (2, 2));
}

#[test]
fn resize_interpolates_thirds_with_floor() {
    // one row, 0 and 255 levels, widened to 4: positions 0, 1/3, 2/3, 1
    let img_bytes = level_bytes(&[(0, 0, 0, 0), (255, 255, 255, 255)]);
    let mut img = Image::from_bytes(&img_bytes, (2, 1), ColorSpace::AsIs).unwrap();
    img.scale((4, 1)).unwrap();
    let p = img.pixels();
    assert_eq!(p[0].r, 0);
    assert_eq!(p[1].r, ONE / 3);
    assert_eq!(p[2].r, 2 * ONE / 3);
    assert_eq!(p[3].r, ONE);
}

#[test]
fn same_space_and_as_is_plans_are_empty() {
    let all = [
        ColorSpace::sRGB,
        ColorSpace::sRGBLinear,
        ColorSpace::SimplesRGB,
        ColorSpace::DisplayP3,
        ColorSpace::AsIs,
    ];
    for &c in &all {
        assert!(conversion_plan(c, c).is_empty());
        assert!(conversion_plan(c, ColorSpace::AsIs).is_empty());
        assert!(conversion_plan(ColorSpace::AsIs, c).is_empty());
    }
}

#[test]
fn plans_go_through_linear_reference() {
    assert_eq!(conversion_plan(ColorSpace::sRGB, ColorSpace::sRGBLinear), vec![Step::DecodeSrgb]);
    assert_eq!(
        conversion_plan(ColorSpace::sRGB, ColorSpace::SimplesRGB),
        vec![Step::DecodeSrgb, Step::EncodeGamma]
    );
    assert_eq!(
        conversion_plan(ColorSpace::SimplesRGB, ColorSpace::DisplayP3),
        vec![Step::DecodeGamma, Step::ReferenceToP3, Step::EncodeSrgb]
    );
    assert_eq!(
        conversion_plan(ColorSpace::DisplayP3, ColorSpace::sRGBLinear),
        vec![Step::DecodeSrgb, Step::P3ToReference]
    );
    assert_eq!(conversion_plan(ColorSpace::sRGBLinear, ColorSpace::sRGB), vec![Step::EncodeSrgb]);
}

#[test]
fn set_color_changes_only_the_tag() {
    let mut img = corners_2x2();
    let before = img.pixels().to_vec();
    img.set_color(ColorSpace::AsIs);
    assert_eq!(img.color(), ColorSpace::AsIs);
    img.set_color(ColorSpace::sRGB);
    assert_eq!(img.color(), ColorSpace::sRGB);
    assert_eq!(img.pixels(), &before[..]);
}

#[test]
fn gamut_keeps_white_and_alpha() {
    let mut img = Image::from_bytes(&[255, 255, 255, 77], (1, 1), ColorSpace::DisplayP3).unwrap();
    img.apply_gamut(Gamut::P3ToReference);
    assert_eq!(img.pixels()[0], px(ONE, ONE, ONE, 77 * LEVEL_STEP));
    img.apply_gamut(Gamut::ReferenceToP3);
    assert_eq!(img.pixels()[0], px(ONE, ONE, ONE, 77 * LEVEL_STEP));
}

#[test]
fn gamut_p3_red_leaves_srgb_range() {
    let mut img = Image::from_bytes(&[255, 0, 0, 255], (1, 1), ColorSpace::DisplayP3).unwrap();
    img.apply_gamut(Gamut::P3ToReference);
    let p = img.pixels()[0];
    // 80278 / 65536 of ONE, rounded down; negative values are kept, not clamped
    assert_eq!(p.r, ((ONE as i64 * 80278).div_euclid(65536)) as i32);
    assert_eq!(p.g, ((ONE as i64 * -2756).div_euclid(65536)) as i32);
    assert_eq!(p.b, ((ONE as i64 * -1287).div_euclid(65536)) as i32);
    assert!(p.r > ONE && p.g < 0 && p.b < 0);
    assert_eq!(p.a, ONE);
}

fn count_curve(_step: Step, v: i32) -> i32 {
    v + 1
}

#[test]
fn to_color_runs_each_curve_stage_once_and_keeps_alpha() {
    let mut img = Image::from_bytes(&[10, 20, 30, 40], (1, 1), ColorSpace::sRGB).unwrap();
    img.to_color(ColorSpace::SimplesRGB, &count_curve);
    assert_eq!(img.color(), ColorSpace::SimplesRGB);
    // decode sRGB, then encode gamma: two curve stages
    assert_eq!(img.pixels()[0], px(10 * LEVEL_STEP + 2, 20 * LEVEL_STEP + 2, 30 * LEVEL_STEP + 2, 40 * LEVEL_STEP));
}

#[test]
fn to_color_same_space_or_as_is_changes_nothing() {
    let all = [
        ColorSpace::sRGB,
        ColorSpace::sRGBLinear,
        ColorSpace::SimplesRGB,
        ColorSpace::DisplayP3,
        ColorSpace::AsIs,
    ];
    for &c in &all {
        let mut img = Image::from_bytes(&[10, 20, 30, 40], (1, 1), c).unwrap();
        let before = img.pixels().to_vec();
        img.to_color(c, &count_curve);
        assert_eq!(img.pixels(), &before[..]);
        img.to_color(ColorSpace::AsIs, &count_curve);
        assert_eq!(img.color(), ColorSpace::AsIs);
        img.to_color(c, &count_curve);
        assert_eq!(img.color(), c);
        assert_eq!(img.pixels(), &before[..]);
    }
}

#[test]
fn to_color_p3_to_linear_applies_gamut_after_curve() {
    let mut img = Image::from_bytes(&[255, 255, 255, 255], (1, 1), ColorSpace::DisplayP3).unwrap();
    let mut expected = Image::from_bytes(&[255, 255, 255, 255], (1, 1), ColorSpace::DisplayP3).unwrap();
    img.to_color(ColorSpace::sRGBLinear, &|_s: Step, v: i32| v / 2);
    expected.apply_gamut(Gamut::P3ToReference);
    let h = ONE / 2;
    assert_eq!(img.pixels()[0], px(h, h, h, ONE));
    assert_eq!(expected.pixels()[0], px(ONE, ONE, ONE, ONE));
    assert_eq!(img.color(), ColorSpace::sRGBLinear);
}

#[test]
fn to_color_keeps_alpha_for_every_pair() {
    let all = [
        ColorSpace::sRGB,
        ColorSpace::sRGBLinear,
        ColorSpace::SimplesRGB,
        ColorSpace::DisplayP3,
        ColorSpace::AsIs,
    ];
    for &from in &all {
        for &to in &all {
            let mut img = Image::from_bytes(&[200, 100, 50, 123], (1, 1), from).unwrap();
            img.to_color(to, &|_s: Step, v: i32| v / 3);
            assert_eq!(img.pixels()[0].a, 123 * LEVEL_STEP);
            assert_eq!(img.color(), to);
        }
    }
}
