//! Colors, color spaces, and blending between colors.
use vstd::prelude::*;

use crate::fixed::{clamp_int, div_floor, lemma_div_between, mod_floor, ONE};
use crate::oklab::{
    oklab_to_rgb, oklab_to_rgb_spec, oklch_to_rgb, oklch_to_rgb_spec, rgb_to_oklab,
    rgb_to_oklab_spec, rgb_to_oklch, rgb_to_oklch_spec,
};
use crate::trig::{FULL_TURN, HALF_TURN};

verus! {

/// A color with four 8-bit channels: red, green, blue and alpha (not premultiplied).
#[derive(Clone, Copy, Debug, PartialEq, Eq, Structural)]
pub struct ColorRgba {
    pub r: u8,
    pub g: u8,
    pub b: u8,
    pub a: u8,
}

/// Opaque black.
pub open spec fn black() -> ColorRgba {
    ColorRgba { r: 0, g: 0, b: 0, a: 255 }
}

impl ColorRgba {
    /// An opaque color from its three color channels.
    pub fn from_rgb(r: u8, g: u8, b: u8) -> (c: ColorRgba)
        ensures
            c == (ColorRgba { r, g, b, a: 255 }),
    {
        ColorRgba { r, g, b, a: 255 }
    }

    /// A color from its four channels.
    pub fn from_rgba(r: u8, g: u8, b: u8, a: u8) -> (c: ColorRgba)
        ensures
            c == (ColorRgba { r, g, b, a }),
    {
        ColorRgba { r, g, b, a }
    }

    /// Opaque black.
    pub fn black() -> (c: ColorRgba)
        ensures
            c == black(),
    {
        ColorRgba { r: 0, g: 0, b: 0, a: 255 }
    }

    /// Opaque white.
    pub fn white() -> (c: ColorRgba)
        ensures
            c == (ColorRgba { r: 255, g: 255, b: 255, a: 255 }),
    {
        ColorRgba { r: 255, g: 255, b: 255, a: 255 }
    }
}

/// The color space in which colors are blended and shifted.
#[derive(Clone, Copy, Debug, PartialEq, Eq, Structural)]
pub enum ColorSpace {
    /// Each 8-bit channel on its own.
    Rgb,
    /// The perceptual space with lightness and two color axes.
    OkLab,
    /// The perceptual space in cylindrical form: lightness, chroma and hue.
    OkLCh,
}

impl ColorSpace {
    /// The name shown for the color space.
    pub fn name(&self) -> (r: &'static str)
        ensures
            *self == ColorSpace::Rgb ==> r@ == "RGB"@,
            *self == ColorSpace::OkLab ==> r@ == "OkLab"@,
            *self == ColorSpace::OkLCh ==> r@ == "OkLCh"@,
    {
        match self {
            ColorSpace::Rgb => "RGB",
            ColorSpace::OkLab => "OkLab",
            ColorSpace::OkLCh => "OkLCh",
        }
    }

    /// Every color space, in the order in which they are offered.
    pub fn all() -> (r: Vec<ColorSpace>)
        ensures
            r@ == seq![ColorSpace::Rgb, ColorSpace::OkLab, ColorSpace::OkLCh],
    {
        vec![ColorSpace::Rgb, ColorSpace::OkLab, ColorSpace::OkLCh]
    }
}

impl Default for ColorSpace {
    fn default() -> (r: ColorSpace)
        ensures
            r == ColorSpace::Rgb,
    {
        ColorSpace::Rgb
    }
}

/// `a + (b - a) * t`, for a fixed-point `t`.
pub open spec fn lerp_fx(a: int, b: int, t: int) -> int {
    a + (b - a) * t / (ONE as int)
}

/// One channel blended from `x1` toward `x2` by the fixed-point `t`, rounded to nearest.
pub open spec fn lerp_channel(x1: int, x2: int, t: int) -> int {
    (x1 * ONE + (x2 - x1) * t + ONE / 2) / (ONE as int)
}

/// One channel moved from `x` toward `target` by the fixed-point `t` (which may exceed one),
/// limited to the channel's range and rounded to nearest.
pub open spec fn shift_channel(x: int, target: int, t: int) -> int {
    (clamp_int(x * ONE + (target - x) * t, 0, 255 * ONE) + ONE / 2) / (ONE as int)
}

/// Blending in RGB: every channel, alpha included, on its own.
pub open spec fn lerp_rgb_spec(c1: ColorRgba, c2: ColorRgba, t: int) -> ColorRgba {
    ColorRgba {
        r: lerp_channel(c1.r as int, c2.r as int, t) as u8,
        g: lerp_channel(c1.g as int, c2.g as int, t) as u8,
        b: lerp_channel(c1.b as int, c2.b as int, t) as u8,
        a: lerp_channel(c1.a as int, c2.a as int, t) as u8,
    }
}

/// Shifting in RGB: toward black for a negative direction, else toward white; opaque.
pub open spec fn extrapolate_rgb_spec(c: ColorRgba, direction: int) -> ColorRgba {
    let target: int = if direction < 0 { 0 } else { 255 };
    let t: int = if direction < 0 { -direction } else { direction };
    ColorRgba {
        r: shift_channel(c.r as int, target, t) as u8,
        g: shift_channel(c.g as int, target, t) as u8,
        b: shift_channel(c.b as int, target, t) as u8,
        a: 255,
    }
}

proof fn lemma_lerp_channel_range(x1: int, x2: int, t: int)
    requires
        0 <= x1 <= 255,
        0 <= x2 <= 255,
        0 <= t <= ONE,
    ensures
        0 <= lerp_channel(x1, x2, t) <= 255,
{
    let one = ONE as int;
    let n = x1 * one + (x2 - x1) * t + one / 2;
    assert(x1 * one + (x2 - x1) * t == x1 * (one - t) + x2 * t) by (nonlinear_arith);
    assert(0 <= x1 * (one - t) <= 255 * (one - t)) by (nonlinear_arith)
        requires
            0 <= x1 <= 255,
            t <= one,
    ;
    assert(0 <= x2 * t <= 255 * t) by (nonlinear_arith)
        requires
            0 <= x2 <= 255,
            0 <= t,
    ;
    lemma_div_between(n, one, 0, 255);
}

fn lerp_channel_exec(x1: u8, x2: u8, t: i64) -> (r: u8)
    requires
        0 <= t <= ONE,
    ensures
        r == lerp_channel(x1 as int, x2 as int, t as int),
{
    proof {
        lemma_lerp_channel_range(x1 as int, x2 as int, t as int);
    }
    let n: i128 = (x1 as i128) * (ONE as i128) + ((x2 as i128) - (x1 as i128)) * (t as i128)
        + (ONE as i128) / 2;
    let q = div_floor(n, ONE as i128);
    q as u8
}

fn shift_channel_exec(x: u8, target: u8, t: i128) -> (r: u8)
    requires
        0 <= t <= 0x1_0000_0000_0000_0000,
    ensures
        r == shift_channel(x as int, target as int, t as int),
{
    assert(-255 * 0x1_0000_0000_0000_0000 <= (target - x) * t <= 255 * 0x1_0000_0000_0000_0000)
        by (nonlinear_arith)
        requires
            -255 <= target - x <= 255,
            0 <= t <= 0x1_0000_0000_0000_0000,
    ;
    assert(0 <= x * ONE <= 255 * ONE) by (nonlinear_arith)
        requires
            0 <= x <= 255,
    ;
    let v: i128 = (x as i128) * (ONE as i128) + ((target as i128) - (x as i128)) * t;
    let c: i128 = if v < 0 {
        0
    } else if v > 255 * (ONE as i128) {
        255 * (ONE as i128)
    } else {
        v
    };
    proof {
        lemma_div_between(c + ONE / 2, ONE as int, 0, 255);
    }
    let q = div_floor(c + (ONE as i128) / 2, ONE as i128);
    q as u8
}

/// Blends two colors in RGB, channel by channel with alpha, for `t` in `[0, ONE]`.
fn lerp_rgb(c1: ColorRgba, c2: ColorRgba, t: i64) -> (r: ColorRgba)
    requires
        0 <= t <= ONE,
    ensures
        r == lerp_rgb_spec(c1, c2, t as int),
{
    ColorRgba {
        r: lerp_channel_exec(c1.r, c2.r, t),
        g: lerp_channel_exec(c1.g, c2.g, t),
        b: lerp_channel_exec(c1.b, c2.b, t),
        a: lerp_channel_exec(c1.a, c2.a, t),
    }
}

/// Shifts a color toward black or white in RGB.
fn extrapolate_rgb(reference: ColorRgba, direction: i64) -> (r: ColorRgba)
    ensures
        r == extrapolate_rgb_spec(reference, direction as int),
{
    let target: u8 = if direction < 0 { 0 } else { 255 };
    let t: i128 = if direction < 0 { -(direction as i128) } else { direction as i128 };
    ColorRgba {
        r: shift_channel_exec(reference.r, target, t),
        g: shift_channel_exec(reference.g, target, t),
        b: shift_channel_exec(reference.b, target, t),
        a: 255,
    }
}

proof fn lemma_lerp_fx_between(a: int, b: int, t: int)
    requires
        0 <= t <= ONE,
    ensures
        a <= b ==> a <= lerp_fx(a, b, t) <= b,
        b <= a ==> b <= lerp_fx(a, b, t) <= a,
{
    let one = ONE as int;
    if a <= b {
        assert(0 <= (b - a) * t <= (b - a) * one) by (nonlinear_arith)
            requires
                0 <= t <= one,
                a <= b,
        ;
        lemma_div_between((b - a) * t, one, 0, b - a);
    } else {
        assert((b - a) * one <= (b - a) * t <= 0) by (nonlinear_arith)
            requires
                0 <= t <= one,
                b < a,
        ;
        lemma_div_between((b - a) * t, one, b - a, 0);
    }
}

/// `a + (b - a) * t` for a fixed-point `t` in `[0, ONE]`, rounded toward negative infinity.
fn lerp_fixed(a: i64, b: i64, t: i64) -> (r: i64)
    requires
        -0x1000_0000_0000 <= a <= 0x1000_0000_0000,
        -0x1000_0000_0000 <= b <= 0x1000_0000_0000,
        0 <= t <= ONE,
    ensures
        r == lerp_fx(a as int, b as int, t as int),
        a <= b ==> a <= r <= b,
        b <= a ==> b <= r <= a,
{
    proof {
        lemma_lerp_fx_between(a as int, b as int, t as int);
    }
    assert(-0x2000_0000_0000 * ONE <= (b - a) * t <= 0x2000_0000_0000 * ONE) by (nonlinear_arith)
        requires
            -0x2000_0000_0000 <= b - a <= 0x2000_0000_0000,
            0 <= t <= ONE,
    ;
    let d = div_floor(((b as i128) - (a as i128)) * (t as i128), ONE as i128);
    (a as i128 + d) as i64
}

/// Blending in OkLab: each component on a straight line.
pub open spec fn lerp_oklab_spec(c1: ColorRgba, c2: ColorRgba, t: int) -> ColorRgba {
    let (l1, a1, b1) = rgb_to_oklab_spec(c1);
    let (l2, a2, b2) = rgb_to_oklab_spec(c2);
    oklab_to_rgb_spec(lerp_fx(l1, l2, t), lerp_fx(a1, a2, t), lerp_fx(b1, b2, t))
}

/// Shifting in OkLab: lightness moves by `direction` and is limited to `[0, ONE]`.
pub open spec fn extrapolate_oklab_spec(c: ColorRgba, direction: int) -> ColorRgba {
    let (l, a, b) = rgb_to_oklab_spec(c);
    oklab_to_rgb_spec(clamp_int(l + direction, 0, ONE as int), a, b)
}

fn lerp_oklab(c1: ColorRgba, c2: ColorRgba, t: i64) -> (r: ColorRgba)
    requires
        0 <= t <= ONE,
    ensures
        r == lerp_oklab_spec(c1, c2, t as int),
{
    let (l1, a1, b1) = rgb_to_oklab(c1);
    let (l2, a2, b2) = rgb_to_oklab(c2);
    oklab_to_rgb(lerp_fixed(l1, l2, t), lerp_fixed(a1, a2, t), lerp_fixed(b1, b2, t))
}

fn shifted_lightness(l: i64, direction: i64) -> (r: i64)
    requires
        -ONE <= l <= 2 * ONE,
    ensures
        r == clamp_int(l + direction, 0, ONE as int),
{
    let v: i128 = l as i128 + direction as i128;
    if v < 0 {
        0
    } else if v > ONE as i128 {
        ONE
    } else {
        v as i64
    }
}

fn extrapolate_oklab(reference: ColorRgba, direction: i64) -> (r: ColorRgba)
    ensures
        r == extrapolate_oklab_spec(reference, direction as int),
{
    let (l, a, b) = rgb_to_oklab(reference);
    oklab_to_rgb(shifted_lightness(l, direction), a, b)
}

/// The signed step from hue `h1` to hue `h2` along the shorter arc, in
/// `(-HALF_TURN, HALF_TURN]`: hues half a turn apart are blended in the positive direction.
pub open spec fn hue_delta(h1: int, h2: int) -> int {
    let d = h2 - h1;
    if d > HALF_TURN {
        d - FULL_TURN
    } else if d <= -HALF_TURN {
        d + FULL_TURN
    } else {
        d
    }
}

/// Hue blended from `h1` toward `h2` along the shorter arc, in `[0, FULL_TURN)`.
pub open spec fn lerp_hue_spec(h1: int, h2: int, t: int) -> int {
    (h1 + hue_delta(h1, h2) * t / (ONE as int)) % (FULL_TURN as int)
}

/// Blends two hues along the shorter arc of the hue circle.
fn lerp_hue(h1: i64, h2: i64, t: i64) -> (r: i64)
    requires
        0 <= h1 < FULL_TURN,
        0 <= h2 < FULL_TURN,
        0 <= t <= ONE,
    ensures
        r == lerp_hue_spec(h1 as int, h2 as int, t as int),
        0 <= r < FULL_TURN,
{
    let mut delta: i64 = h2 - h1;
    if delta > HALF_TURN {
        delta = delta - FULL_TURN;
    } else if delta <= -HALF_TURN {
        delta = delta + FULL_TURN;
    }
    assert(-HALF_TURN * ONE <= delta * t <= HALF_TURN * ONE) by (nonlinear_arith)
        requires
            -HALF_TURN <= delta <= HALF_TURN,
            0 <= t <= ONE,
    ;
    let step = div_floor((delta as i128) * (t as i128), ONE as i128);
    proof {
        crate::fixed::lemma_div_shrinks(delta * t, ONE as int);
    }
    mod_floor(h1 as i128 + step, FULL_TURN as i128) as i64
}

/// Blending in OkLCh: lightness and chroma on straight lines, hue along the shorter arc.
pub open spec fn lerp_oklch_spec(c1: ColorRgba, c2: ColorRgba, t: int) -> ColorRgba {
    let (l1, ch1, h1) = rgb_to_oklch_spec(c1);
    let (l2, ch2, h2) = rgb_to_oklch_spec(c2);
    oklch_to_rgb_spec(lerp_fx(l1, l2, t), lerp_fx(ch1, ch2, t), lerp_hue_spec(h1, h2, t))
}

/// Shifting in OkLCh: lightness moves by `direction`, limited to `[0, ONE]`; chroma and hue
/// stay.
pub open spec fn extrapolate_oklch_spec(c: ColorRgba, direction: int) -> ColorRgba {
    let (l, ch, h) = rgb_to_oklch_spec(c);
    oklch_to_rgb_spec(clamp_int(l + direction, 0, ONE as int), ch, h)
}

fn lerp_oklch(c1: ColorRgba, c2: ColorRgba, t: i64) -> (r: ColorRgba)
    requires
        0 <= t <= ONE,
    ensures
        r == lerp_oklch_spec(c1, c2, t as int),
{
    let (l1, ch1, h1) = rgb_to_oklch(c1);
    let (l2, ch2, h2) = rgb_to_oklch(c2);
    oklch_to_rgb(lerp_fixed(l1, l2, t), lerp_fixed(ch1, ch2, t), lerp_hue(h1, h2, t))
}

fn extrapolate_oklch(reference: ColorRgba, direction: i64) -> (r: ColorRgba)
    ensures
        r == extrapolate_oklch_spec(reference, direction as int),
{
    let (l, ch, h) = rgb_to_oklch(reference);
    oklch_to_rgb(shifted_lightness(l, direction), ch, h)
}

/// The blend of `c1` toward `c2` by `t` in `space`; `t` is first limited to `[0, ONE]`.
pub open spec fn lerp_color_spec(c1: ColorRgba, c2: ColorRgba, t: int, space: ColorSpace) -> ColorRgba {
    let t = clamp_int(t, 0, ONE as int);
    match space {
        ColorSpace::Rgb => lerp_rgb_spec(c1, c2, t),
        ColorSpace::OkLab => lerp_oklab_spec(c1, c2, t),
        ColorSpace::OkLCh => lerp_oklch_spec(c1, c2, t),
    }
}

/// The shift of `reference` by the signed `direction` in `space`.
pub open spec fn extrapolate_color_spec(reference: ColorRgba, direction: int, space: ColorSpace) -> ColorRgba {
    match space {
        ColorSpace::Rgb => extrapolate_rgb_spec(reference, direction),
        ColorSpace::OkLab => extrapolate_oklab_spec(reference, direction),
        ColorSpace::OkLCh => extrapolate_oklch_spec(reference, direction),
    }
}

/// Blends two colors in the given color space. `t` is a fixed-point fraction, limited to
/// `[0, ONE]`: zero gives `c1`'s end and `ONE` gives `c2`'s.
pub fn lerp_color(c1: ColorRgba, c2: ColorRgba, t: i64, space: ColorSpace) -> (r: ColorRgba)
    ensures
        r == lerp_color_spec(c1, c2, t as int, space),
{
    let t: i64 = if t < 0 {
        0
    } else if t > ONE {
        ONE
    } else {
        t
    };
    match space {
        ColorSpace::Rgb => lerp_rgb(c1, c2, t),
        ColorSpace::OkLab => lerp_oklab(c1, c2, t),
        ColorSpace::OkLCh => lerp_oklch(c1, c2, t),
    }
}

/// Shifts a color from a single reference. A negative `direction` moves toward black, any
/// other toward white; its magnitude, which may exceed `ONE`, says how far.
pub fn extrapolate_color(reference: ColorRgba, direction: i64, space: ColorSpace) -> (r: ColorRgba)
    ensures
        r == extrapolate_color_spec(reference, direction as int, space),
{
    match space {
        ColorSpace::Rgb => extrapolate_rgb(reference, direction),
        ColorSpace::OkLab => extrapolate_oklab(reference, direction),
        ColorSpace::OkLCh => extrapolate_oklch(reference, direction),
    }
}

/// The distance between hues `x` and `y` around the hue circle, in `[0, HALF_TURN]`.
pub open spec fn arc_distance(x: int, y: int) -> int {
    let d = (y - x) % (FULL_TURN as int);
    if d <= HALF_TURN {
        d
    } else {
        FULL_TURN - d
    }
}

proof fn lemma_arc_of_step(x: int, y: int, k: int, m: int)
    requires
        y == x + k + m * FULL_TURN,
        -HALF_TURN <= k <= HALF_TURN,
    ensures
        arc_distance(x, y) == if k < 0 { -k } else { k },
{
    let full = FULL_TURN as int;
    assert(y - x == full * m + k) by (nonlinear_arith)
        requires
            y == x + k + m * full,
    ;
    vstd::arithmetic::div_mod::lemma_mod_multiples_vanish(m, k, full);
    if k >= 0 {
        vstd::arithmetic::div_mod::lemma_small_mod(k as nat, full as nat);
    } else {
        vstd::arithmetic::div_mod::lemma_mod_multiples_vanish(-1, k + full, full);
        vstd::arithmetic::div_mod::lemma_small_mod((k + full) as nat, full as nat);
    }
}

/// Blending hues follows the shorter arc of the hue circle: the blended hue lies on the arc
/// from `h1` to `h2` that is at most half a turn long, so its distances to the two ends add
/// up to the distance between the ends. Blending 350 degrees toward 10 degrees thus passes
/// through 0 degrees, not 180. The step taken is folded into `(-HALF_TURN, HALF_TURN]`, so
/// hues half a turn apart are blended in the positive direction (180 toward 0 passes 270).
pub proof fn lemma_lerp_hue_shorter_arc(h1: int, h2: int, t: int)
    requires
        0 <= h1 < FULL_TURN,
        0 <= h2 < FULL_TURN,
        0 <= t <= ONE,
    ensures
        -HALF_TURN < hue_delta(h1, h2) <= HALF_TURN,
        (h1 + hue_delta(h1, h2)) % (FULL_TURN as int) == h2,
        arc_distance(h1, h2) <= HALF_TURN,
        arc_distance(h1, lerp_hue_spec(h1, h2, t)) + arc_distance(lerp_hue_spec(h1, h2, t), h2)
            == arc_distance(h1, h2),
        t == 0 ==> lerp_hue_spec(h1, h2, t) == h1,
        t == ONE ==> lerp_hue_spec(h1, h2, t) == h2,
{
    let full = FULL_TURN as int;
    let one = ONE as int;
    let d0 = h2 - h1;
    let delta = hue_delta(h1, h2);
    let m1: int = if d0 > HALF_TURN { 1 } else if d0 <= -HALF_TURN { -1 } else { 0 };
    assert(h2 == h1 + delta + m1 * full);
    lemma_arc_of_step(h1, h2, delta, m1);
    let n = delta * t;
    if delta >= 0 {
        assert(0 <= n <= delta * one) by (nonlinear_arith)
            requires
                n == delta * t,
                0 <= t <= one,
                delta >= 0,
        ;
        lemma_div_between(n, one, 0, delta);
    } else {
        assert(delta * one <= n <= 0) by (nonlinear_arith)
            requires
                n == delta * t,
                0 <= t <= one,
                delta < 0,
        ;
        lemma_div_between(n, one, delta, 0);
    }
    let step = n / one;
    let r = lerp_hue_spec(h1, h2, t);
    vstd::arithmetic::div_mod::lemma_fundamental_div_mod(h1 + step, full);
    let q = (h1 + step) / full;
    assert(r == h1 + step + (-q) * full) by (nonlinear_arith)
        requires
            h1 + step == full * q + r,
    ;
    lemma_arc_of_step(h1, r, step, -q);
    assert(h2 == r + (delta - step) + (q + m1) * full) by (nonlinear_arith)
        requires
            h2 == h1 + delta + m1 * full,
            r == h1 + step + (-q) * full,
    ;
    lemma_arc_of_step(r, h2, delta - step, q + m1);
    if t == 0 {
        assert(n == 0);
        vstd::arithmetic::div_mod::lemma_small_mod(h1 as nat, full as nat);
    }
    if t == one {
        assert(n == delta * one);
        vstd::arithmetic::div_mod::lemma_div_multiples_vanish(delta, one);
        assert(step == delta);
        vstd::arithmetic::div_mod::lemma_mod_multiples_vanish(m1, h1 + delta, full);
        assert(h1 + delta + m1 * full == full * m1 + (h1 + delta)) by (nonlinear_arith);
        vstd::arithmetic::div_mod::lemma_small_mod(h2 as nat, full as nat);
    }
}

} // verus!
