use palette_helper::{
    plot_curve, Bezier, CurveKind, CurveType, EaseIn, EaseInOut, EaseOut, HueShiftCurve, Linear,
    SaturationCurve, ONE,
};

#[test]
fn test_flat_curve() {
    let curve = SaturationCurve::Flat;
    // Flat curve returns 0.5 * strength * 0.15 = 0.075 at full strength
    let result = curve.evaluate(ONE / 2, ONE);
    assert!(result > 0 && result < ONE / 5);
    assert_eq!(result, 75_000);
}

#[test]
fn test_strength_zero_gives_zero() {
    for curve in SaturationCurve::all() {
        // With strength 0, all curves should return 0 (no saturation added)
        assert_eq!(curve.evaluate(ONE / 2, 0), 0);
    }
}

#[test]
fn saturation_curve_shapes() {
    assert_eq!(SaturationCurve::LinearUp.evaluate(ONE, ONE), 150_000);
    assert_eq!(SaturationCurve::LinearDown.evaluate(ONE, ONE), 0);
    assert_eq!(SaturationCurve::Extremes.evaluate(ONE / 2, ONE), 0);
    assert_eq!(SaturationCurve::Extremes.evaluate(0, ONE), 150_000);
    assert_eq!(SaturationCurve::Midtones.evaluate(ONE / 2, ONE), 150_000);
    // 0.25^0.7 is about 0.3789
    let v = SaturationCurve::LightSaturated.evaluate(ONE / 4, ONE);
    assert!((v - 56_840).abs() <= 20, "{}", v);
    // a luminosity past white counts as white
    assert_eq!(SaturationCurve::LinearUp.evaluate(2 * ONE, ONE), 150_000);
}

#[test]
fn hue_shift_curve_values() {
    assert_eq!(HueShiftCurve::Extremes.evaluate(ONE / 2), 0);
    assert_eq!(HueShiftCurve::Extremes.evaluate(ONE), ONE);
    assert_eq!(HueShiftCurve::Flat.evaluate(ONE / 3), ONE);
    assert_eq!(HueShiftCurve::Highlights.evaluate(ONE / 4), ONE / 2);
    assert_eq!(HueShiftCurve::Shadows.evaluate(ONE * 3 / 4), ONE / 2);
    assert_eq!(HueShiftCurve::Midtones.evaluate(ONE / 2), ONE);
    assert_eq!(HueShiftCurve::all().len(), 7);
    assert_eq!(HueShiftCurve::Flat.name(), "Flat (uniform)");
    assert_eq!(SaturationCurve::all().len(), 7);
    assert_eq!(SaturationCurve::Midtones.name(), "Midtones (reverse U-curve)");
}

#[test]
fn plot_curve_spacing() {
    let pts = plot_curve(SaturationCurve::LinearUp, ONE, 5);
    assert_eq!(pts.len(), 5);
    assert_eq!(pts[0], (0, 0));
    assert_eq!(pts[2], (ONE / 2, 75_000));
    assert_eq!(pts[4], (ONE, 150_000));
    assert_eq!(plot_curve(SaturationCurve::Flat, ONE, 1), vec![(0, 75_000)]);
    assert!(plot_curve(SaturationCurve::Flat, ONE, 0).is_empty());
}

#[test]
fn easing_curves_sample() {
    let linear = CurveType::Linear(Linear { factor: ONE });
    assert_eq!(linear.sample(ONE / 4), ONE / 4);
    let double = CurveType::Linear(Linear { factor: 2 * ONE });
    assert_eq!(double.sample(ONE / 2), ONE);
    let ease_in = CurveType::EaseIn(EaseIn { exponent_tenths: 20 });
    assert_eq!(ease_in.sample(ONE / 2), ONE / 4);
    let ease_out = CurveType::EaseOut(EaseOut { exponent_tenths: 20 });
    assert_eq!(ease_out.sample(ONE / 2), ONE * 3 / 4);
    let in_out = CurveType::EaseInOut(EaseInOut { exponent_tenths: 20 });
    assert_eq!(in_out.sample(ONE / 4), ONE / 8);
    assert_eq!(in_out.sample(ONE / 2), ONE / 2);
    assert_eq!(in_out.sample(ONE * 3 / 4), ONE * 7 / 8);
    let bezier = CurveType::Bezier(Bezier { p0: 0, p1: 0, p2: ONE, p3: ONE });
    assert_eq!(bezier.sample(0), 0);
    assert_eq!(bezier.sample(ONE / 2), ONE / 2);
    assert_eq!(bezier.sample(ONE), ONE);
    // 3 * 0.25^2 * 0.75 + 0.25^3 = 0.15625
    assert_eq!(bezier.sample(ONE / 4), 156_250);
}

#[test]
fn fractional_exponents() {
    // t^0.5 at 1/4 is 1/2, t^1.5 at 1/4 is 1/8
    let root = CurveType::EaseIn(EaseIn { exponent_tenths: 5 });
    assert!((root.sample(ONE / 4) - ONE / 2).abs() <= 20, "{}", root.sample(ONE / 4));
    let three_halves = CurveType::EaseIn(EaseIn { exponent_tenths: 15 });
    assert!((three_halves.sample(ONE / 4) - ONE / 8).abs() <= 20);
    // 1 - (1 - t)^2.5 at 1/2 is about 0.823223
    let out = CurveType::EaseOut(EaseOut { exponent_tenths: 25 });
    assert!((out.sample(ONE / 2) - 823_223).abs() <= 20, "{}", out.sample(ONE / 2));
    // whole exponents stay exact, the zeroth power is one
    assert_eq!(CurveType::EaseIn(EaseIn { exponent_tenths: 30 }).sample(ONE / 2), ONE / 8);
    assert_eq!(CurveType::EaseIn(EaseIn { exponent_tenths: 0 }).sample(ONE / 3), ONE);
}

#[test]
fn curve_kinds_round_trip() {
    for kind in CurveKind::all() {
        assert_eq!(CurveType::from_kind(kind).kind(), kind);
    }
    assert_eq!(CurveType::default(), CurveType::Linear(Linear { factor: ONE }));
    assert_eq!(CurveType::from_kind(CurveKind::EaseIn), CurveType::EaseIn(EaseIn { exponent_tenths: 20 }));
}
