use palette_helper::color_fun::{
    generate_ramp_color_oklch, hue_shift_hsv, hue_shift_none, hue_shift_oklch, lerp_color,
    lerp_color_oklab, lerp_color_oklch, rgb_to_oklch,
};
use palette_helper::palette::find_best_gap;
use palette_helper::{ColorRgba, HueShiftCurve, SaturationCurve, ONE};

fn close(a: ColorRgba, b: ColorRgba, tol: i32) -> bool {
    (a.r as i32 - b.r as i32).abs() <= tol
        && (a.g as i32 - b.g as i32).abs() <= tol
        && (a.b as i32 - b.b as i32).abs() <= tol
}

#[test]
fn truncating_rgb_blend() {
    let a = ColorRgba::from_rgba(240, 230, 220, 7);
    let b = ColorRgba::from_rgb(20, 20, 40);
    assert_eq!(lerp_color(a, b, ONE / 2), ColorRgba::from_rgb(130, 125, 130));
    assert_eq!(lerp_color(a, b, ONE / 4), ColorRgba::from_rgb(185, 177, 175));
    assert_eq!(lerp_color(a, b, 2 * ONE), ColorRgba::from_rgb(0, 0, 0));
    assert_eq!(lerp_color(a, b, -ONE), ColorRgba::from_rgb(255, 255, 255));
}

#[test]
fn oklab_blend_ends() {
    let a = ColorRgba::from_rgb(30, 60, 120);
    let b = ColorRgba::from_rgb(255, 220, 100);
    assert!(close(lerp_color_oklab(a, b, 0), a, 1));
    assert!(close(lerp_color_oklab(a, b, ONE), b, 1));
}

#[test]
fn signed_hue_of_blue() {
    // the OkLCh hue of sRGB blue is about 264 degrees, that is -96
    let (_, _, h) = rgb_to_oklch(ColorRgba::from_rgb(0, 0, 255));
    assert!((h + 95_900_000).abs() < 1_000_000, "{}", h);
}

#[test]
fn oklch_blend_ends_and_grays() {
    let a = ColorRgba::from_rgb(30, 60, 120);
    let b = ColorRgba::from_rgb(255, 220, 100);
    assert!(close(lerp_color_oklch(a, b, 0), a, 1));
    assert!(close(lerp_color_oklch(a, b, ONE), b, 1));
    let gray = ColorRgba::from_rgb(128, 128, 128);
    let c = generate_ramp_color_oklch(gray, gray, ONE / 3, 0, SaturationCurve::Flat, 0);
    assert!(close(c, gray, 1), "{:?}", c);
}

#[test]
fn ramp_color_with_boost_stays_displayable() {
    let a = ColorRgba::from_rgb(30, 60, 120);
    let b = ColorRgba::from_rgb(255, 220, 100);
    for i in 0..=8 {
        let c = generate_ramp_color_oklch(a, b, i * ONE / 8, 40 * ONE, SaturationCurve::Midtones, ONE);
        assert_eq!(c.a, 255);
    }
}

#[test]
fn hue_shifts_without_strength_keep_the_color() {
    let c = ColorRgba::from_rgb(200, 100, 50);
    assert_eq!(hue_shift_none(c, ONE, HueShiftCurve::Flat, SaturationCurve::Flat, ONE), c);
    assert!(close(hue_shift_hsv(c, 0, HueShiftCurve::Flat, SaturationCurve::Flat, 0), c, 1));
    let gray = ColorRgba::from_rgb(90, 90, 90);
    assert!(close(hue_shift_oklch(gray, 0, HueShiftCurve::Flat, SaturationCurve::Flat, 0), gray, 1));
}

#[test]
fn hue_shift_moves_dark_colors_toward_blue() {
    let dark_red = ColorRgba::from_rgb(90, 20, 20);
    let shifted = hue_shift_hsv(dark_red, ONE, HueShiftCurve::Flat, SaturationCurve::Flat, 0);
    // red moves toward blue through magenta: blue rises
    assert!(shifted.b > dark_red.b, "{:?}", shifted);
}

#[test]
fn best_gap_is_the_middle_of_the_widest() {
    assert_eq!(find_best_gap(&vec![]), ONE / 2);
    assert_eq!(find_best_gap(&vec![0, ONE]), ONE / 2);
    assert_eq!(find_best_gap(&vec![ONE / 4]), 625_000);
    // equal gaps: the first wins
    assert_eq!(find_best_gap(&vec![ONE, 0, ONE / 2]), ONE / 4);
    assert_eq!(find_best_gap(&vec![ONE * 3 / 4]), ONE * 3 / 8);
}
