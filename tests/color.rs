use palette_helper::{
    extrapolate_color, lerp_color, oklab_to_rgb, oklch_to_rgb, rgb_to_oklab, rgb_to_oklch,
    ColorRgba, ColorSpace, ONE,
};

fn close(a: ColorRgba, b: ColorRgba, tol: i32) -> bool {
    (a.r as i32 - b.r as i32).abs() <= tol
        && (a.g as i32 - b.g as i32).abs() <= tol
        && (a.b as i32 - b.b as i32).abs() <= tol
}

#[test]
fn rgb_blend_is_rounded_per_channel() {
    let a = ColorRgba::from_rgba(240, 230, 220, 255);
    let b = ColorRgba::from_rgba(20, 20, 40, 55);
    assert_eq!(lerp_color(a, b, ONE / 2, ColorSpace::Rgb), ColorRgba::from_rgba(130, 125, 130, 155));
    assert_eq!(lerp_color(a, b, 0, ColorSpace::Rgb), a);
    assert_eq!(lerp_color(a, b, ONE, ColorSpace::Rgb), b);
    // out-of-range factors are limited
    assert_eq!(lerp_color(a, b, -5 * ONE, ColorSpace::Rgb), a);
    assert_eq!(lerp_color(a, b, 3 * ONE, ColorSpace::Rgb), b);
    // 0 toward 1 at one half rounds up
    let c = lerp_color(ColorRgba::from_rgb(0, 0, 0), ColorRgba::from_rgb(1, 1, 1), ONE / 2, ColorSpace::Rgb);
    assert_eq!(c, ColorRgba::from_rgb(1, 1, 1));
}

#[test]
fn rgb_shift_toward_black_and_white() {
    let c = ColorRgba::from_rgba(100, 150, 200, 10);
    assert_eq!(extrapolate_color(c, ONE / 2, ColorSpace::Rgb), ColorRgba::from_rgb(178, 203, 228));
    assert_eq!(extrapolate_color(c, -ONE / 2, ColorSpace::Rgb), ColorRgba::from_rgb(50, 75, 100));
    assert_eq!(extrapolate_color(c, 0, ColorSpace::Rgb), ColorRgba::from_rgb(100, 150, 200));
    // beyond one the shift overshoots and is limited to the channel range
    assert_eq!(extrapolate_color(c, 3 * ONE, ColorSpace::Rgb), ColorRgba::white());
    assert_eq!(extrapolate_color(c, -3 * ONE, ColorSpace::Rgb), ColorRgba::black());
    assert_eq!(extrapolate_color(c, i64::MIN, ColorSpace::Rgb), ColorRgba::black());
}

#[test]
fn oklab_of_white_and_black() {
    let (l, a, b) = rgb_to_oklab(ColorRgba::white());
    assert!((l - ONE).abs() <= 100, "{}", l);
    assert!(a.abs() <= 100 && b.abs() <= 100);
    assert_eq!(rgb_to_oklab(ColorRgba::black()), (0, 0, 0));
    assert_eq!(oklab_to_rgb(0, 0, 0), ColorRgba::black());
    assert_eq!(oklab_to_rgb(ONE, 0, 0), ColorRgba::white());
    // components far out of range are limited rather than overflowing
    assert_eq!(oklab_to_rgb(i64::MAX, i64::MIN, i64::MAX).a, 255);
}

#[test]
fn oklab_reference_red() {
    // the reference OkLab values of sRGB red are about (0.6280, 0.2249, 0.1258)
    let (l, a, b) = rgb_to_oklab(ColorRgba::from_rgb(255, 0, 0));
    assert!((l - 627_955).abs() <= 500, "{}", l);
    assert!((a - 224_863).abs() <= 500, "{}", a);
    assert!((b - 125_846).abs() <= 500, "{}", b);
}

#[test]
fn oklab_round_trip_within_one() {
    let mut r = 0u32;
    while r <= 255 {
        let mut g = 0u32;
        while g <= 255 {
            let mut b = 0u32;
            while b <= 255 {
                let c = ColorRgba::from_rgb(r as u8, g as u8, b as u8);
                let (l, la, lb) = rgb_to_oklab(c);
                let back = oklab_to_rgb(l, la, lb);
                assert!(close(back, c, 1), "{:?} came back as {:?}", c, back);
                b += 17;
            }
            g += 17;
        }
        r += 17;
    }
}

#[test]
fn oklab_round_trip_within_one_dense() {
    let mut levels: Vec<u8> = (0..=255u32).step_by(7).map(|v| v as u8).collect();
    levels.push(255);
    for &r in &levels {
        for &g in &levels {
            for &b in &levels {
                let c = ColorRgba::from_rgb(r, g, b);
                let (l, la, lb) = rgb_to_oklab(c);
                let back = oklab_to_rgb(l, la, lb);
                assert!(close(back, c, 1), "{:?} came back as {:?}", c, back);
            }
        }
    }
}

#[test]
fn oklch_round_trip_within_one() {
    for &(r, g, b) in &[(255u8, 0u8, 0u8), (0, 255, 0), (0, 0, 255), (240, 230, 220), (20, 20, 40), (128, 128, 128), (200, 30, 180)] {
        let c = ColorRgba::from_rgb(r, g, b);
        let (l, ch, h) = rgb_to_oklch(c);
        assert!(h >= 0 && h < 360 * ONE);
        let back = oklch_to_rgb(l, ch, h);
        assert!(close(back, c, 1), "{:?} came back as {:?}", c, back);
    }
}

#[test]
fn oklch_round_trip_within_one_grid() {
    let mut levels: Vec<u8> = (0..=255u32).step_by(15).map(|v| v as u8).collect();
    levels.push(255);
    for &r in &levels {
        for &g in &levels {
            for &b in &levels {
                let c = ColorRgba::from_rgb(r, g, b);
                let (l, ch, h) = rgb_to_oklch(c);
                let back = oklch_to_rgb(l, ch, h);
                assert!(close(back, c, 1), "{:?} came back as {:?}", c, back);
            }
        }
    }
}

#[test]
fn oklch_hue_of_red() {
    // the reference hue of sRGB red in OkLCh is about 29.2 degrees
    let (_, ch, h) = rgb_to_oklch(ColorRgba::from_rgb(255, 0, 0));
    assert!((h - 29_234_000).abs() <= 100_000, "{}", h);
    assert!((ch - 257_683).abs() <= 1_000, "{}", ch);
    // a gray has no chroma and hue zero
    let (_, ch, h) = rgb_to_oklch(ColorRgba::from_rgb(0, 0, 0));
    assert_eq!((ch, h), (0, 0));
}

#[test]
fn oklch_blend_takes_the_short_way_round() {
    let l = 600_000;
    let c = 100_000;
    let a = oklch_to_rgb(l, c, 350 * ONE);
    let b = oklch_to_rgb(l, c, 10 * ONE);
    let (_, _, ha) = rgb_to_oklch(a);
    let (_, _, hb) = rgb_to_oklch(b);
    // the colors' hues sit near 350 and 10 degrees
    assert!((ha - 350 * ONE).abs() < 3 * ONE, "{}", ha);
    assert!((hb - 10 * ONE).abs() < 3 * ONE, "{}", hb);
    let mid = lerp_color(a, b, ONE / 2, ColorSpace::OkLCh);
    let (_, _, hm) = rgb_to_oklch(mid);
    let from_zero = hm.min(360 * ONE - hm);
    assert!(from_zero < 5 * ONE, "the blend's hue is {}", hm);
    // the same colors blended in OkLab stay near red too, but in RGB order they differ
    let mid_lab = lerp_color(a, b, ONE / 2, ColorSpace::OkLab);
    assert_eq!(mid_lab.a, 255);
}

#[test]
fn oklch_hue_wraps_modulo_a_turn() {
    let a = oklch_to_rgb(600_000, 100_000, 30 * ONE);
    let b = oklch_to_rgb(600_000, 100_000, 390 * ONE);
    let c = oklch_to_rgb(600_000, 100_000, -330 * ONE);
    assert_eq!(a, b);
    assert_eq!(a, c);
}

#[test]
fn perceptual_shift_moves_lightness_only() {
    let c = ColorRgba::from_rgb(200, 30, 180);
    let lighter = extrapolate_color(c, ONE / 10, ColorSpace::OkLab);
    let darker = extrapolate_color(c, -ONE / 10, ColorSpace::OkLCh);
    let (l0, _, _) = rgb_to_oklab(c);
    let (l1, _, _) = rgb_to_oklab(lighter);
    let (l2, _, _) = rgb_to_oklab(darker);
    assert!(l1 > l0 && l2 < l0);
    // shifting all the way takes lightness to its limit and keeps the color axes
    let (_, a, b) = rgb_to_oklab(c);
    assert_eq!(extrapolate_color(c, 5 * ONE, ColorSpace::OkLab), oklab_to_rgb(ONE, a, b));
    assert_eq!(extrapolate_color(c, 5 * ONE, ColorSpace::OkLab), ColorRgba::from_rgb(255, 184, 255));
    let (_, ch, h) = rgb_to_oklch(c);
    assert_eq!(extrapolate_color(c, -5 * ONE, ColorSpace::OkLCh), oklch_to_rgb(0, ch, h));
    assert_eq!(extrapolate_color(c, 0, ColorSpace::OkLab).a, 255);
}

#[test]
fn color_space_names() {
    assert_eq!(ColorSpace::Rgb.name(), "RGB");
    assert_eq!(ColorSpace::OkLab.name(), "OkLab");
    assert_eq!(ColorSpace::OkLCh.name(), "OkLCh");
    assert_eq!(ColorSpace::all(), vec![ColorSpace::Rgb, ColorSpace::OkLab, ColorSpace::OkLCh]);
    assert_eq!(ColorSpace::default(), ColorSpace::Rgb);
}
