//! Ramp helpers of the first palette tool: truncating blends, hue rotation with soft gamut
//! mapping, and hue shifting toward cold shadows and warm highlights, in OkLCh or HSV.
//!
//! Hues are in millionths of a degree; other quantities are fixed-point numbers.
use vstd::prelude::*;

pub use crate::oklab::rgb_to_oklab;

use crate::color::ColorRgba;
use crate::curves::{hue_shift_strength, saturation_amount, HueShiftCurve, SaturationCurve};
use crate::fixed::{clamp_int, div_floor, isqrt, lemma_div_between, mod_floor, sqrt_floor, ONE};
use crate::oklab::{
    linear_to_srgb, linear_to_srgb_spec, oklab_to_linear, oklab_to_linear_spec, oklab_to_rgb,
    oklab_to_rgb_spec, rgb_to_oklab_spec, rgb_to_oklch as rgb_to_oklch_normalized,
    rgb_to_oklch_spec, LAB_LIMIT,
};
use crate::trig::{angle_of, angle_of_vector, vector_at, vector_at_angle, FULL_TURN, HALF_TURN};

verus! {

/// The hue that dark colors are shifted toward: blue, 240 degrees.
pub const COLD_HUE: i64 = 240_000_000;

/// The hue that light colors are shifted toward: orange, 30 degrees.
pub const WARM_HUE: i64 = 30_000_000;

/// The number of halving steps of the gamut search.
pub const GAMUT_STEPS: u32 = 16;

fn clamp_wide(v: i128, lo: i128, hi: i128) -> (r: i128)
    requires
        lo <= hi,
    ensures
        r == clamp_int(v as int, lo as int, hi as int),
{
    if v < lo {
        lo
    } else if v > hi {
        hi
    } else {
        v
    }
}

/// One channel moved from `x1` toward `x2` by `t` (any fixed-point factor), rounded toward
/// negative infinity and limited to `[0, 255]`.
pub open spec fn truncated_channel(x1: int, x2: int, t: int) -> int {
    clamp_int((x1 * ONE + (x2 - x1) * t) / (ONE as int), 0, 255)
}

fn truncated_channel_exec(x1: u8, x2: u8, t: i64) -> (r: u8)
    ensures
        r == truncated_channel(x1 as int, x2 as int, t as int),
{
    assert(-255 * 0x8000_0000_0000_0000 <= (x2 - x1) * t <= 255 * 0x8000_0000_0000_0000) by (nonlinear_arith)
        requires
            -255 <= x2 - x1 <= 255,
            -0x8000_0000_0000_0000 <= t < 0x8000_0000_0000_0000,
    ;
    assert(0 <= x1 * ONE <= 255 * ONE) by (nonlinear_arith)
        requires
            0 <= x1 <= 255,
    ;
    let v = (x1 as i128) * (ONE as i128) + ((x2 as i128) - (x1 as i128)) * (t as i128);
    clamp_wide(div_floor(v, ONE as i128), 0, 255) as u8
}

/// Blends two colors channel by channel in RGB with any factor `t`, rounding toward black;
/// the result is opaque.
pub fn lerp_color(col1: ColorRgba, col2: ColorRgba, t: i64) -> (r: ColorRgba)
    ensures
        r == (ColorRgba {
            r: truncated_channel(col1.r as int, col2.r as int, t as int) as u8,
            g: truncated_channel(col1.g as int, col2.g as int, t as int) as u8,
            b: truncated_channel(col1.b as int, col2.b as int, t as int) as u8,
            a: 255,
        }),
{
    ColorRgba {
        r: truncated_channel_exec(col1.r, col2.r, t),
        g: truncated_channel_exec(col1.g, col2.g, t),
        b: truncated_channel_exec(col1.b, col2.b, t),
        a: 255,
    }
}

/// `a + (b - a) * t` for any fixed-point `t`, limited to `[-LAB_LIMIT, LAB_LIMIT]`.
pub open spec fn lerp_limited(a: int, b: int, t: int) -> int {
    clamp_int(a + (b - a) * t / (ONE as int), -LAB_LIMIT, LAB_LIMIT as int)
}

fn lerp_limited_exec(a: i64, b: i64, t: i64) -> (r: i64)
    requires
        -LAB_LIMIT <= a <= LAB_LIMIT,
        -LAB_LIMIT <= b <= LAB_LIMIT,
    ensures
        r == lerp_limited(a as int, b as int, t as int),
        -LAB_LIMIT <= r <= LAB_LIMIT,
{
    assert(-2 * LAB_LIMIT * 0x8000_0000_0000_0000 <= (b - a) * t <= 2 * LAB_LIMIT * 0x8000_0000_0000_0000) by (nonlinear_arith)
        requires
            -2 * LAB_LIMIT <= b - a <= 2 * LAB_LIMIT,
            -0x8000_0000_0000_0000 <= t < 0x8000_0000_0000_0000,
    ;
    let d = div_floor(((b as i128) - (a as i128)) * (t as i128), ONE as i128);
    proof {
        crate::fixed::lemma_div_shrinks((b - a) * t, ONE as int);
    }
    clamp_wide(a as i128 + d, -(LAB_LIMIT as i128), LAB_LIMIT as i128) as i64
}

/// Blending in OkLab with any factor `t`; components are limited to `[-LAB_LIMIT, LAB_LIMIT]`.
pub open spec fn lerp_color_oklab_spec(c1: ColorRgba, c2: ColorRgba, t: int) -> ColorRgba {
    let (l1, a1, b1) = rgb_to_oklab_spec(c1);
    let (l2, a2, b2) = rgb_to_oklab_spec(c2);
    oklab_to_rgb_spec(lerp_limited(l1, l2, t), lerp_limited(a1, a2, t), lerp_limited(b1, b2, t))
}

/// Blends two colors in OkLab with any factor `t`.
pub fn lerp_color_oklab(col1: ColorRgba, col2: ColorRgba, t: i64) -> (r: ColorRgba)
    ensures
        r == lerp_color_oklab_spec(col1, col2, t as int),
{
    let (l1, a1, b1) = rgb_to_oklab(col1);
    let (l2, a2, b2) = rgb_to_oklab(col2);
    oklab_to_rgb(lerp_limited_exec(l1, l2, t), lerp_limited_exec(a1, a2, t), lerp_limited_exec(b1, b2, t))
}

/// The OkLCh components of a color with the hue in `(-HALF_TURN, HALF_TURN]`.
pub open spec fn signed_oklch(c: ColorRgba) -> (int, int, int) {
    let (l, ch, h) = rgb_to_oklch_spec(c);
    (l, ch, if h > HALF_TURN { h - FULL_TURN } else { h })
}

/// Converts a color to OkLCh, with the hue in `(-HALF_TURN, HALF_TURN]`.
pub fn rgb_to_oklch(col: ColorRgba) -> (r: (i64, i64, i64))
    ensures
        (r.0 as int, r.1 as int, r.2 as int) == signed_oklch(col),
{
    let (l, c, h) = rgb_to_oklch_normalized(col);
    (l, c, if h > HALF_TURN { h - FULL_TURN } else { h })
}

/// The signed step from hue `h1` to hue `h2` (both in `[0, FULL_TURN)`) along the shorter arc,
/// in `(-HALF_TURN, HALF_TURN]`.
pub open spec fn short_step(h1: int, h2: int) -> int {
    let d = h2 - h1;
    if d > HALF_TURN {
        d - FULL_TURN
    } else if d <= -HALF_TURN {
        d + FULL_TURN
    } else {
        d
    }
}

/// The largest rotation, in millionths of a degree, that a hue blend takes.
pub const ROTATION_LIMIT: i128 = 0x4000_0000_0000_0000;

/// Hue blended from `h1` toward `h2` along the shorter arc plus `extra` (in millionths of a
/// degree; the total limited to `ROTATION_LIMIT` either way), in `[0, FULL_TURN)`.
pub open spec fn rotated_hue(h1: int, h2: int, t: int, extra: int) -> int {
    let n1 = h1 % (FULL_TURN as int);
    let n2 = h2 % (FULL_TURN as int);
    let total = clamp_int(short_step(n1, n2) + extra, -ROTATION_LIMIT, ROTATION_LIMIT as int);
    (n1 + total * t / (ONE as int)) % (FULL_TURN as int)
}

fn rotated_hue_exec(h1: i64, h2: i64, t: i64, extra: i64) -> (r: i64)
    ensures
        r == rotated_hue(h1 as int, h2 as int, t as int, extra as int),
        0 <= r < FULL_TURN,
{
    let n1 = mod_floor(h1 as i128, FULL_TURN as i128);
    let n2 = mod_floor(h2 as i128, FULL_TURN as i128);
    let d = n2 - n1;
    let step: i128 = if d > HALF_TURN as i128 {
        d - FULL_TURN as i128
    } else if d <= -(HALF_TURN as i128) {
        d + FULL_TURN as i128
    } else {
        d
    };
    let total: i128 = clamp_wide(step + extra as i128, -ROTATION_LIMIT, ROTATION_LIMIT);
    assert(-0x4000_0000_0000_0000 * 0x8000_0000_0000_0000 <= total * t <= 0x4000_0000_0000_0000 * 0x8000_0000_0000_0000) by (nonlinear_arith)
        requires
            -0x4000_0000_0000_0000 <= total <= 0x4000_0000_0000_0000,
            -0x8000_0000_0000_0000 <= t < 0x8000_0000_0000_0000,
    ;
    let moved = div_floor(total * (t as i128), ONE as i128);
    proof {
        crate::fixed::lemma_div_shrinks(total * t, ONE as int);
    }
    mod_floor(n1 + moved, FULL_TURN as i128) as i64
}

/// Whether linear light lies in the displayable range.
pub open spec fn in_gamut(rgb: (int, int, int)) -> bool {
    0 <= rgb.0 <= ONE && 0 <= rgb.1 <= ONE && 0 <= rgb.2 <= ONE
}

/// The color of displayable linear light, rounded to the nearest byte; opaque.
pub open spec fn encode(rgb: (int, int, int)) -> ColorRgba {
    ColorRgba {
        r: linear_to_srgb_spec(rgb.0) as u8,
        g: linear_to_srgb_spec(rgb.1) as u8,
        b: linear_to_srgb_spec(rgb.2) as u8,
        a: 255,
    }
}

/// The largest chroma that stays displayable at lightness `l` and hue `h`, searched by
/// halving `[low, high]` `n` more times.
pub open spec fn gamut_search(l: int, h: int, low: int, high: int, n: nat) -> int
    decreases n,
{
    if n == 0 {
        low
    } else {
        let mid = (low + high) / 2;
        let ab = vector_at(mid, h);
        if in_gamut(oklab_to_linear_spec(l, ab.0, ab.1)) {
            gamut_search(l, h, mid, high, (n - 1) as nat)
        } else {
            gamut_search(l, h, low, mid, (n - 1) as nat)
        }
    }
}

/// The color of OkLab components, with the chroma lowered (hue kept) until displayable when
/// it is not.
pub open spec fn soft_gamut_map_spec(l: int, a: int, b: int) -> ColorRgba {
    let lin = oklab_to_linear_spec(l, a, b);
    if in_gamut(lin) {
        encode(lin)
    } else {
        let la = clamp_int(a, -LAB_LIMIT, LAB_LIMIT as int);
        let lb = clamp_int(b, -LAB_LIMIT, LAB_LIMIT as int);
        let c = clamp_int(sqrt_floor(la * la + lb * lb), 0, LAB_LIMIT as int);
        let h = angle_of(la, lb);
        let low = gamut_search(l, h, 0, c, GAMUT_STEPS as nat);
        let ab = vector_at(low, h);
        encode(oklab_to_linear_spec(l, ab.0, ab.1))
    }
}

fn encode_exec(rgb: (i64, i64, i64)) -> (r: ColorRgba)
    ensures
        r == encode((rgb.0 as int, rgb.1 as int, rgb.2 as int)),
{
    ColorRgba { r: linear_to_srgb(rgb.0), g: linear_to_srgb(rgb.1), b: linear_to_srgb(rgb.2), a: 255 }
}

fn in_gamut_exec(rgb: (i64, i64, i64)) -> (r: bool)
    ensures
        r == in_gamut((rgb.0 as int, rgb.1 as int, rgb.2 as int)),
{
    0 <= rgb.0 && rgb.0 <= ONE && 0 <= rgb.1 && rgb.1 <= ONE && 0 <= rgb.2 && rgb.2 <= ONE
}

/// Converts OkLab components to a color; out of the displayable range the chroma is lowered,
/// keeping the hue, by a search of `GAMUT_STEPS` halvings.
fn soft_gamut_map_oklab(l: i64, a: i64, b: i64) -> (r: ColorRgba)
    ensures
        r == soft_gamut_map_spec(l as int, a as int, b as int),
{
    let lin = oklab_to_linear(l, a, b);
    if in_gamut_exec(lin) {
        return encode_exec(lin);
    }
    let la = clamp_wide(a as i128, -(LAB_LIMIT as i128), LAB_LIMIT as i128) as i64;
    let lb = clamp_wide(b as i128, -(LAB_LIMIT as i128), LAB_LIMIT as i128) as i64;
    assert(0 <= la * la <= 64_000_000_000_000 && 0 <= lb * lb <= 64_000_000_000_000) by (nonlinear_arith)
        requires
            -8_000_000 <= la <= 8_000_000,
            -8_000_000 <= lb <= 8_000_000,
    ;
    let root = isqrt(((la as i128) * (la as i128) + (lb as i128) * (lb as i128)) as u64);
    let c: i64 = if root > LAB_LIMIT as u64 { LAB_LIMIT } else { root as i64 };
    let h = angle_of_vector(la, lb);
    let mut low: i64 = 0;
    let mut high: i64 = c;
    let mut n: u32 = GAMUT_STEPS;
    while n > 0
        invariant
            0 <= low <= LAB_LIMIT,
            0 <= high <= LAB_LIMIT,
            0 <= h < FULL_TURN,
            gamut_search(l as int, h as int, low as int, high as int, n as nat) == gamut_search(
                l as int,
                h as int,
                0,
                c as int,
                GAMUT_STEPS as nat,
            ),
        decreases n,
    {
        let mid = (low + high) / 2;
        let (ta, tb) = vector_at_angle(mid, h);
        if in_gamut_exec(oklab_to_linear(l, ta, tb)) {
            low = mid;
        } else {
            high = mid;
        }
        n = n - 1;
    }
    let (fa, fb) = vector_at_angle(low, h);
    encode_exec(oklab_to_linear(l, fa, fb))
}

/// `e` squared `n` times, each square rounded toward zero.
pub open spec fn square_times(e: int, n: nat) -> int
    decreases n,
{
    if n == 0 {
        e
    } else {
        square_times(e * e / (ONE as int), (n - 1) as nat)
    }
}

/// `e^-x` for a fixed-point `x >= 0`: three terms of the series at `x / 1024`, squared ten
/// times; zero from `x = 30` on.
pub open spec fn exp_neg_spec(x: int) -> int {
    if x >= 30 * ONE {
        0
    } else {
        let y = x / 1024;
        square_times(ONE - y + y * y / (2 * ONE) - y * y * y / (6 * ONE * ONE), 10)
    }
}

fn exp_neg(x: i128) -> (r: i128)
    requires
        x >= 0,
    ensures
        r == exp_neg_spec(x as int),
        0 <= r <= ONE,
{
    if x >= 30 * (ONE as i128) {
        return 0;
    }
    let y: i128 = x / 1024;
    assert(0 <= y <= 29297);
    assert(0 <= y * y <= 29297 * y && 0 <= y * y * y <= 29297 * 29297 * y) by (nonlinear_arith)
        requires
            0 <= y <= 29297,
    ;
    let y2: i128 = y * y;
    assert(0 <= y2 * y <= 29297 * 29297 * 29297 && y2 * y <= 1_000_000_000 * y) by (nonlinear_arith)
        requires
            y2 == y * y,
            0 <= y <= 29297,
    ;
    let y3: i128 = y2 * y;
    let t2: i128 = y2 / (2 * (ONE as i128));
    let t3: i128 = y3 / (6 * (ONE as i128) * (ONE as i128));
    proof {
        lemma_div_between(y2 as int, 2 * ONE, 0, y as int);
        lemma_div_between(y3 as int, 6 * ONE * ONE, 0, y as int);
    }
    let mut e: i128 = (ONE as i128) - y + t2 - t3;
    let mut n: u32 = 10;
    while n > 0
        invariant
            0 <= e <= ONE,
            square_times(e as int, n as nat) == exp_neg_spec(x as int),
        decreases n,
    {
        assert(0 <= e * e <= ONE * ONE) by (nonlinear_arith)
            requires
                0 <= e <= ONE,
        ;
        proof {
            lemma_div_between(e * e, ONE as int, 0, ONE as int);
        }
        e = e * e / (ONE as i128);
        n = n - 1;
    }
    e
}

/// `value` below 80% of `max`; above it, approaching `max` smoothly.
pub open spec fn soft_clamp_spec(value: int, max: int) -> int {
    let knee = max * 8 / 10;
    if value <= knee {
        value
    } else {
        let headroom = max * 2 / 10;
        let x = clamp_int((value - knee) * ONE / headroom, 0, 30 * ONE);
        knee + headroom * (ONE - exp_neg_spec(x)) / (ONE as int)
    }
}

fn soft_clamp(value: i128, max: i128) -> (r: i128)
    requires
        5 <= max <= ONE,
        -0x1_0000_0000_0000_0000_0000 <= value <= 0x1_0000_0000_0000_0000_0000,
    ensures
        r == soft_clamp_spec(value as int, max as int),
        value <= max * 8 / 10 ==> r == value,
        value > max * 8 / 10 ==> max * 8 / 10 <= r <= max,
{
    let knee = max * 8 / 10;
    if value <= knee {
        return value;
    }
    let headroom = max * 2 / 10;
    assert(headroom >= 1);
    assert((value - knee) * ONE <= 0x1_0000_0000_0000_0000_0000 * 2 * ONE) by (nonlinear_arith)
        requires
            value - knee <= 0x1_0000_0000_0000_0000_0000 * 2,
            value - knee > 0,
    ;
    let x = clamp_wide((value - knee) * (ONE as i128) / headroom, 0, 30 * (ONE as i128));
    let e = exp_neg(x);
    assert(0 <= headroom * (ONE - e) <= headroom * ONE) by (nonlinear_arith)
        requires
            0 <= e <= ONE,
            headroom >= 0,
    ;
    proof {
        lemma_div_between(headroom * (ONE - e), ONE as int, 0, headroom as int);
    }
    knee + headroom * ((ONE as i128) - e) / (ONE as i128)
}

/// A rough largest chroma at OkLab lightness `l` (limited to `[-LAB_LIMIT, LAB_LIMIT]`):
/// 0.35 times `1 - ((l - 0.6) / 0.5)^2`, but at least 0.35 times 0.05.
pub open spec fn max_chroma_spec(l: int) -> int {
    let ll = clamp_int(l, -LAB_LIMIT, LAB_LIMIT as int);
    let dist = if ll >= 600_000 { (ll - 600_000) * 2 } else { (600_000 - ll) * 2 };
    let falloff = ONE - dist * dist / (ONE as int);
    let m = if falloff > 50_000 { falloff } else { 50_000 };
    35 * m / 100
}

fn max_chroma_for_luminosity(l: i64) -> (r: i128)
    ensures
        r == max_chroma_spec(l as int),
        17_500 <= r <= 350_000,
{
    let ll = clamp_wide(l as i128, -(LAB_LIMIT as i128), LAB_LIMIT as i128);
    let dist: i128 = if ll >= 600_000 { (ll - 600_000) * 2 } else { (600_000 - ll) * 2 };
    assert(0 <= dist * dist <= 400_000_000_000_000) by (nonlinear_arith)
        requires
            0 <= dist <= 20_000_000,
    ;
    let falloff: i128 = (ONE as i128) - dist * dist / (ONE as i128);
    proof {
        lemma_div_between(dist * dist, ONE as int, 0, 400_000_000);
    }
    let m: i128 = if falloff > 50_000 { falloff } else { 50_000 };
    35 * m / 100
}

/// The shorter signed step from hue `current` toward hue `target`, scaled by `strength`.
pub open spec fn hue_shift_amount_spec(current: int, target: int, strength: int) -> int {
    let d = target - current;
    let step = if d > HALF_TURN {
        d - FULL_TURN
    } else if d < -HALF_TURN {
        d + FULL_TURN
    } else {
        d
    };
    step * strength / (ONE as int)
}

fn hue_shift_amount(current: i64, target: i64, strength: i64) -> (r: i128)
    requires
        0 <= current < FULL_TURN,
        0 <= target < FULL_TURN,
        0 <= strength <= ONE,
    ensures
        r == hue_shift_amount_spec(current as int, target as int, strength as int),
        -FULL_TURN <= r <= FULL_TURN,
{
    let d = target - current;
    let step: i64 = if d > HALF_TURN {
        d - FULL_TURN
    } else if d < -HALF_TURN {
        d + FULL_TURN
    } else {
        d
    };
    assert(-HALF_TURN * ONE <= step * strength <= HALF_TURN * ONE) by (nonlinear_arith)
        requires
            -HALF_TURN <= step <= HALF_TURN,
            0 <= strength <= ONE,
    ;
    proof {
        lemma_div_between(step * strength, ONE as int, -HALF_TURN as int, HALF_TURN as int);
    }
    div_floor((step as i128) * (strength as i128), ONE as i128)
}

/// The weighted pull of hue `h` toward the cold hue (weight `ONE - l`) and the warm hue
/// (weight `l`), scaled by `strength` times the curve's multiplier at `l`.
pub open spec fn hue_pull(h: int, l: int, strength: int, curve: HueShiftCurve) -> int {
    let cold = hue_shift_amount_spec(h, COLD_HUE as int, ONE as int) * (ONE - l) / (ONE as int);
    let warm = hue_shift_amount_spec(h, WARM_HUE as int, ONE as int) * l / (ONE as int);
    let effective = strength * hue_shift_strength(curve, clamp_int(l, 0, ONE as int)) / (ONE as int);
    (cold + warm) * effective / (ONE as int)
}

fn hue_pull_exec(h: i64, l: i64, strength: i64, curve: HueShiftCurve) -> (r: i128)
    requires
        0 <= h < FULL_TURN,
        -LAB_LIMIT <= l <= LAB_LIMIT,
    ensures
        r == hue_pull(h as int, l as int, strength as int, curve),
        -0x10_0000_0000_0000_0000_0000 <= r <= 0x10_0000_0000_0000_0000_0000,
{
    let to_cold = hue_shift_amount(h, COLD_HUE, ONE);
    let to_warm = hue_shift_amount(h, WARM_HUE, ONE);
    assert(-FULL_TURN * 9 * ONE <= to_cold * (ONE - l) <= FULL_TURN * 9 * ONE) by (nonlinear_arith)
        requires
            -FULL_TURN <= to_cold <= FULL_TURN,
            -8 * ONE <= ONE - l <= 9 * ONE,
    ;
    assert(-FULL_TURN * 8 * ONE <= to_warm * l <= FULL_TURN * 8 * ONE) by (nonlinear_arith)
        requires
            -FULL_TURN <= to_warm <= FULL_TURN,
            -8 * ONE <= l <= 8 * ONE,
    ;
    let cold = div_floor(to_cold * ((ONE as i128) - (l as i128)), ONE as i128);
    let warm = div_floor(to_warm * (l as i128), ONE as i128);
    proof {
        lemma_div_between(to_cold * (ONE - l), ONE as int, -FULL_TURN * 9, FULL_TURN * 9);
        lemma_div_between(to_warm * l, ONE as int, -FULL_TURN * 8, FULL_TURN * 8);
    }
    let mult = curve.evaluate(l);
    assert(-0x8000_0000_0000_0000 * ONE <= strength * mult <= 0x8000_0000_0000_0000 * ONE) by (nonlinear_arith)
        requires
            0 <= mult <= ONE,
            -0x8000_0000_0000_0000 <= strength < 0x8000_0000_0000_0000,
    ;
    let effective = div_floor((strength as i128) * (mult as i128), ONE as i128);
    proof {
        lemma_div_between(strength * mult, ONE as int, -0x8000_0000_0000_0000, 0x8000_0000_0000_0000);
    }
    assert(-FULL_TURN * 17 * 0x8000_0000_0000_0000 <= (cold + warm) * effective <= FULL_TURN * 17 * 0x8000_0000_0000_0000) by (nonlinear_arith)
        requires
            -FULL_TURN * 17 <= cold + warm <= FULL_TURN * 17,
            -0x8000_0000_0000_0000 <= effective <= 0x8000_0000_0000_0000,
    ;
    proof {
        lemma_div_between((cold + warm) * effective, ONE as int, -0x10_0000_0000_0000_0000_0000, 0x10_0000_0000_0000_0000_0000);
    }
    div_floor((cold + warm) * effective, ONE as i128)
}

/// One color of a ramp in OkLCh: lightness and chroma on straight lines from `col1` to
/// `col2` by `t`, hue along the shorter arc plus `hue_shift`, and chroma scaled by
/// `(1 + chroma_boost) / 2` plus the saturation curve's amount at the lightness; the result is
/// brought into the displayable range by lowering chroma.
pub open spec fn ramp_color_spec(
    col1: ColorRgba,
    col2: ColorRgba,
    t: int,
    hue_shift: int,
    chroma_curve: SaturationCurve,
    chroma_boost: int,
) -> ColorRgba {
    let (l1, c1, h1) = rgb_to_oklch_spec(col1);
    let (l2, c2, h2) = rgb_to_oklch_spec(col2);
    let l = lerp_limited(l1, l2, t);
    let h = rotated_hue(h1, h2, t, hue_shift);
    let base_c = lerp_limited(c1, c2, t);
    let boost = saturation_amount(chroma_curve, l, chroma_boost);
    let c = clamp_int(base_c * (ONE + chroma_boost) / (2 * ONE) + boost, 0, LAB_LIMIT as int);
    let ab = vector_at(c, h);
    soft_gamut_map_spec(l, ab.0, ab.1)
}

fn boosted_chroma(base_c: i64, chroma_boost: i64, boost: i64) -> (r: i64)
    requires
        -LAB_LIMIT <= base_c <= LAB_LIMIT,
    ensures
        r == clamp_int(base_c * (ONE + chroma_boost) / (2 * ONE) + boost, 0, LAB_LIMIT as int),
        0 <= r <= LAB_LIMIT,
{
    assert(-LAB_LIMIT * 0x8000_0000_0010_0000 <= base_c * (ONE + chroma_boost) <= LAB_LIMIT * 0x8000_0000_0010_0000) by (nonlinear_arith)
        requires
            -LAB_LIMIT <= base_c <= LAB_LIMIT,
            -0x8000_0000_0000_0000 + ONE <= ONE + chroma_boost <= 0x8000_0000_0010_0000,
    ;
    let scaled = div_floor((base_c as i128) * ((ONE as i128) + (chroma_boost as i128)), 2 * (ONE as i128));
    proof {
        crate::fixed::lemma_div_shrinks(base_c * (ONE + chroma_boost), 2 * ONE);
    }
    clamp_wide(scaled + boost as i128, 0, LAB_LIMIT as i128) as i64
}

/// Generates one color of a ramp from `col1` (at `t = 0`) to `col2` (at `t = ONE`) in
/// OkLCh, with an extra hue rotation and a chroma curve.
pub fn generate_ramp_color_oklch(
    col1: ColorRgba,
    col2: ColorRgba,
    t: i64,
    hue_shift: i64,
    chroma_curve: SaturationCurve,
    chroma_boost: i64,
) -> (r: ColorRgba)
    ensures
        r == ramp_color_spec(col1, col2, t as int, hue_shift as int, chroma_curve, chroma_boost as int),
{
    let (l1, c1, h1) = rgb_to_oklch_normalized(col1);
    let (l2, c2, h2) = rgb_to_oklch_normalized(col2);
    let l = lerp_limited_exec(l1, l2, t);
    let h = rotated_hue_exec(h1, h2, t, hue_shift);
    let base_c = lerp_limited_exec(c1, c2, t);
    let boost = chroma_curve.evaluate(l, chroma_boost);
    let c = boosted_chroma(base_c, chroma_boost, boost);
    let (a, b) = vector_at_angle(c, h);
    soft_gamut_map_oklab(l, a, b)
}

/// Blending in OkLCh with any factor `t`: chroma limited to `[0, LAB_LIMIT]`, hue along the
/// shorter arc, and the result brought into the displayable range by lowering chroma.
pub open spec fn lerp_color_oklch_spec(col1: ColorRgba, col2: ColorRgba, t: int) -> ColorRgba {
    let (l1, c1, h1) = rgb_to_oklch_spec(col1);
    let (l2, c2, h2) = rgb_to_oklch_spec(col2);
    let c = clamp_int(lerp_limited(c1, c2, t), 0, LAB_LIMIT as int);
    let ab = vector_at(c, rotated_hue(h1, h2, t, 0));
    soft_gamut_map_spec(lerp_limited(l1, l2, t), ab.0, ab.1)
}

/// Blends two colors in OkLCh with gamut mapping.
pub fn lerp_color_oklch(col1: ColorRgba, col2: ColorRgba, t: i64) -> (r: ColorRgba)
    ensures
        r == lerp_color_oklch_spec(col1, col2, t as int),
{
    let (l1, c1, h1) = rgb_to_oklch_normalized(col1);
    let (l2, c2, h2) = rgb_to_oklch_normalized(col2);
    let c = clamp_wide(lerp_limited_exec(c1, c2, t) as i128, 0, LAB_LIMIT as i128) as i64;
    let h = rotated_hue_exec(h1, h2, t, 0);
    let (a, b) = vector_at_angle(c, h);
    soft_gamut_map_oklab(lerp_limited_exec(l1, l2, t), a, b)
}

/// A color with its hue pulled toward cold blue in the shadows and warm orange in the
/// highlights, by `strength` times the shift curve, and chroma added by the saturation curve
/// with a soft limit; in OkLCh.
pub open spec fn hue_shift_oklch_spec(
    col: ColorRgba,
    strength: int,
    shift_curve: HueShiftCurve,
    sat_curve: SaturationCurve,
    sat_strength: int,
) -> ColorRgba {
    let (l, c, h) = rgb_to_oklch_spec(col);
    let new_h = (h + hue_pull(h, l, strength, shift_curve) + FULL_TURN) % (FULL_TURN as int);
    let sat = saturation_amount(sat_curve, l, sat_strength);
    let new_c = clamp_int(soft_clamp_spec(c + sat, max_chroma_spec(l)), 0, LAB_LIMIT as int);
    let ab = vector_at(new_c, new_h);
    soft_gamut_map_spec(l, ab.0, ab.1)
}

/// Shifts the hue of a color by its lightness, and adds saturation, in OkLCh.
pub fn hue_shift_oklch(
    col: ColorRgba,
    strength: i64,
    shift_curve: HueShiftCurve,
    sat_curve: SaturationCurve,
    sat_strength: i64,
) -> (r: ColorRgba)
    ensures
        r == hue_shift_oklch_spec(col, strength as int, shift_curve, sat_curve, sat_strength as int),
{
    let (l, c, h) = rgb_to_oklch_normalized(col);
    let pull = hue_pull_exec(h, l, strength, shift_curve);
    let new_h = mod_floor(h as i128 + pull + FULL_TURN as i128, FULL_TURN as i128) as i64;
    let sat = sat_curve.evaluate(l, sat_strength);
    let max_c = max_chroma_for_luminosity(l);
    let soft = soft_clamp(c as i128 + sat as i128, max_c);
    let new_c = clamp_wide(soft, 0, LAB_LIMIT as i128) as i64;
    let (a, b) = vector_at_angle(new_c, new_h);
    soft_gamut_map_oklab(l, a, b)
}

/// The HSV components of a color: hue in `[0, FULL_TURN)`, saturation and value in
/// `[0, ONE]`.
pub open spec fn rgb_to_hsv_spec(col: ColorRgba) -> (int, int, int) {
    let (r, g, b) = (col.r as int, col.g as int, col.b as int);
    let mx = if r >= g && r >= b { r } else if g >= b { g } else { b };
    let mn = if r <= g && r <= b { r } else if g <= b { g } else { b };
    let d = mx - mn;
    let raw = if d == 0 {
        0
    } else if mx == r {
        60 * ONE * (g - b) / d
    } else if mx == g {
        60 * ONE * (b - r) / d + 120 * ONE
    } else {
        60 * ONE * (r - g) / d + 240 * ONE
    };
    let h = if raw < 0 { raw + FULL_TURN } else { raw };
    let s = if mx == 0 { 0 } else { d * ONE / mx };
    (h, s, mx * ONE / 255)
}

fn rgb_to_hsv(col: ColorRgba) -> (r: (i64, i64, i64))
    ensures
        (r.0 as int, r.1 as int, r.2 as int) == rgb_to_hsv_spec(col),
        0 <= r.0 < FULL_TURN,
        0 <= r.1 <= ONE,
        0 <= r.2 <= ONE,
{
    let (r, g, b) = (col.r as i64, col.g as i64, col.b as i64);
    let mx = if r >= g && r >= b { r } else if g >= b { g } else { b };
    let mn = if r <= g && r <= b { r } else if g <= b { g } else { b };
    let d = mx - mn;
    let raw: i64 = if d == 0 {
        0
    } else if mx == r {
        proof {
            assert(-60 * ONE * d <= 60 * ONE * (g - b) <= 60 * ONE * d) by (nonlinear_arith)
                requires
                    -d <= g - b <= d,
            ;
            lemma_div_between(60 * ONE * (g - b), d as int, -60 * ONE, 60 * ONE);
        }
        div_floor((60 * ONE * (g - b)) as i128, d as i128) as i64
    } else if mx == g {
        proof {
            assert(-60 * ONE * d <= 60 * ONE * (b - r) <= 60 * ONE * d) by (nonlinear_arith)
                requires
                    -d <= b - r <= d,
            ;
            lemma_div_between(60 * ONE * (b - r), d as int, -60 * ONE, 60 * ONE);
        }
        div_floor((60 * ONE * (b - r)) as i128, d as i128) as i64 + 120 * ONE
    } else {
        proof {
            assert(-60 * ONE * d <= 60 * ONE * (r - g) <= 60 * ONE * d) by (nonlinear_arith)
                requires
                    -d <= r - g <= d,
            ;
            lemma_div_between(60 * ONE * (r - g), d as int, -60 * ONE, 60 * ONE);
        }
        div_floor((60 * ONE * (r - g)) as i128, d as i128) as i64 + 240 * ONE
    };
    let h = if raw < 0 { raw + FULL_TURN } else { raw };
    let s: i64 = if mx == 0 {
        0
    } else {
        proof {
            lemma_div_between(d * ONE, mx as int, 0, ONE as int);
        }
        d * ONE / mx
    };
    proof {
        lemma_div_between(mx * ONE, 255, 0, ONE as int);
    }
    (h, s, mx * ONE / 255)
}

/// One output channel of HSV: `(val + m) * 255`, rounded toward zero and limited to a byte.
pub open spec fn hsv_channel(val: int, m: int) -> int {
    clamp_int((val + m) * 255 / (ONE as int), 0, 255)
}

/// The color of HSV components; saturation and value are limited to `[0, ONE]`, the hue is
/// taken modulo a full turn; opaque.
pub open spec fn hsv_to_rgb_spec(h: int, s: int, v: int) -> ColorRgba {
    let ss = clamp_int(s, 0, ONE as int);
    let vv = clamp_int(v, 0, ONE as int);
    let hp = h % (FULL_TURN as int) / 60;
    let c = vv * ss / (ONE as int);
    let wave = hp % (2 * ONE) - ONE;
    let x = c * (ONE - if wave < 0 { -wave } else { wave }) / (ONE as int);
    let m = vv - c;
    let sector = hp / (ONE as int);
    let (r, g, b) = if sector == 0 {
        (c, x, 0)
    } else if sector == 1 {
        (x, c, 0)
    } else if sector == 2 {
        (0, c, x)
    } else if sector == 3 {
        (0, x, c)
    } else if sector == 4 {
        (x, 0, c)
    } else {
        (c, 0, x)
    };
    ColorRgba {
        r: hsv_channel(r, m) as u8,
        g: hsv_channel(g, m) as u8,
        b: hsv_channel(b, m) as u8,
        a: 255,
    }
}

fn hsv_channel_exec(val: i128, m: i128) -> (r: u8)
    requires
        -ONE <= val <= ONE,
        -ONE <= m <= ONE,
    ensures
        r == hsv_channel(val as int, m as int),
{
    clamp_wide(div_floor((val + m) * 255, ONE as i128), 0, 255) as u8
}

fn hsv_to_rgb(h: i128, s: i128, v: i128) -> (r: ColorRgba)
    requires
        -0x100_0000_0000_0000_0000_0000 < h < 0x100_0000_0000_0000_0000_0000,
    ensures
        r == hsv_to_rgb_spec(h as int, s as int, v as int),
{
    let ss = clamp_wide(s, 0, ONE as i128);
    let vv = clamp_wide(v, 0, ONE as i128);
    let hm = mod_floor(h, FULL_TURN as i128);
    let hp = hm / 60;
    assert(0 <= vv * ss <= ONE * ONE) by (nonlinear_arith)
        requires
            0 <= vv <= ONE,
            0 <= ss <= ONE,
    ;
    proof {
        lemma_div_between(vv * ss, ONE as int, 0, ONE as int);
    }
    let c = vv * ss / (ONE as i128);
    let wave = hp % (2 * (ONE as i128)) - (ONE as i128);
    let amp: i128 = (ONE as i128) - if wave < 0 { -wave } else { wave };
    assert(0 <= c * amp <= ONE * ONE) by (nonlinear_arith)
        requires
            0 <= c <= ONE,
            0 <= amp <= ONE,
    ;
    proof {
        lemma_div_between(c * amp, ONE as int, 0, ONE as int);
    }
    let x = c * amp / (ONE as i128);
    let m = vv - c;
    let sector = hp / (ONE as i128);
    let (r, g, b): (i128, i128, i128) = if sector == 0 {
        (c, x, 0)
    } else if sector == 1 {
        (x, c, 0)
    } else if sector == 2 {
        (0, c, x)
    } else if sector == 3 {
        (0, x, c)
    } else if sector == 4 {
        (x, 0, c)
    } else {
        (c, 0, x)
    };
    ColorRgba {
        r: hsv_channel_exec(r, m),
        g: hsv_channel_exec(g, m),
        b: hsv_channel_exec(b, m),
        a: 255,
    }
}

/// The weighted luminosity `0.299 r + 0.587 g + 0.114 b` of a color, in `[0, ONE]`.
pub open spec fn luminosity_spec(col: ColorRgba) -> int {
    (299 * col.r + 587 * col.g + 114 * col.b) * ONE / 255_000
}

fn rgb_luminosity(col: ColorRgba) -> (r: i64)
    ensures
        r == luminosity_spec(col),
        0 <= r <= ONE,
{
    let n: i64 = 299 * (col.r as i64) + 587 * (col.g as i64) + 114 * (col.b as i64);
    proof {
        lemma_div_between(n * ONE, 255_000, 0, ONE as int);
    }
    n * ONE / 255_000
}

/// A color with its hue pulled toward cold blue in the shadows and warm orange in the
/// highlights, by `strength` times the shift curve at its luminosity, and saturation added
/// by the saturation curve with a soft limit at one; in HSV.
pub open spec fn hue_shift_hsv_spec(
    col: ColorRgba,
    strength: int,
    shift_curve: HueShiftCurve,
    sat_curve: SaturationCurve,
    sat_strength: int,
) -> ColorRgba {
    let (h, s, v) = rgb_to_hsv_spec(col);
    let lum = luminosity_spec(col);
    let new_h = (h + hue_pull(h, lum, strength, shift_curve) + FULL_TURN) % (FULL_TURN as int);
    let sat = saturation_amount(sat_curve, lum, sat_strength) * 4;
    hsv_to_rgb_spec(new_h, soft_clamp_spec(s + sat, ONE as int), v)
}

/// Shifts the hue of a color by its luminosity, and adds saturation, in HSV.
pub fn hue_shift_hsv(
    col: ColorRgba,
    strength: i64,
    shift_curve: HueShiftCurve,
    sat_curve: SaturationCurve,
    sat_strength: i64,
) -> (r: ColorRgba)
    ensures
        r == hue_shift_hsv_spec(col, strength as int, shift_curve, sat_curve, sat_strength as int),
{
    let (h, s, v) = rgb_to_hsv(col);
    let lum = rgb_luminosity(col);
    let pull = hue_pull_exec(h, lum, strength, shift_curve);
    let new_h = mod_floor(h as i128 + pull + FULL_TURN as i128, FULL_TURN as i128);
    let sat = (sat_curve.evaluate(lum, sat_strength) as i128) * 4;
    let new_s = soft_clamp(s as i128 + sat, ONE as i128);
    hsv_to_rgb(new_h, new_s, v as i128)
}

/// The color unchanged: the choice of no hue shift.
pub fn hue_shift_none(
    col: ColorRgba,
    strength: i64,
    shift_curve: HueShiftCurve,
    sat_curve: SaturationCurve,
    sat_strength: i64,
) -> (r: ColorRgba)
    ensures
        r == col,
{
    col
}

} // verus!
