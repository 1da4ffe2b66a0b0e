//! Conversions between 8-bit sRGB colors and the perceptual OkLab and OkLCh spaces.
//!
//! Every component is a fixed-point number (see `fixed`). Lightness runs from 0 (black)
//! to `ONE` (white); hue is in millionths of a degree.
use vstd::prelude::*;

use crate::color::ColorRgba;
use crate::fixed::{
    clamp_int, div_floor, icbrt, iroot5, isqrt, lemma_cbrt_at_most, lemma_div_between,
    lemma_root5_at_most, lemma_sqrt_at_most, mod_floor, cbrt_floor, root5_floor, sqrt_floor, ONE,
};
use crate::trig::{angle_of, angle_of_vector, vector_at, vector_at_angle, FULL_TURN, TRIG_LIMIT};

verus! {

/// The largest magnitude of a component that the conversions back to sRGB take; larger
/// components lie far outside every displayable color and are limited to it first.
pub const LAB_LIMIT: i64 = TRIG_LIMIT;

/// The scale of the conversion matrices' coefficients.
pub const MATRIX_SCALE: i128 = 10_000_000_000;

/// `(c1 * x1 + c2 * x2 + c3 * x3) / MATRIX_SCALE`: one row of a conversion matrix.
pub open spec fn mix(c1: int, x1: int, c2: int, x2: int, c3: int, x3: int) -> int {
    (c1 * x1 + c2 * x2 + c3 * x3) / (MATRIX_SCALE as int)
}

fn mix3(c1: i128, x1: i128, c2: i128, x2: i128, c3: i128, x3: i128) -> (r: i128)
    requires
        -0x10_0000_0000 <= c1 <= 0x10_0000_0000,
        -0x10_0000_0000 <= c2 <= 0x10_0000_0000,
        -0x10_0000_0000 <= c3 <= 0x10_0000_0000,
        -0x100_0000_0000_0000 <= x1 <= 0x100_0000_0000_0000,
        -0x100_0000_0000_0000 <= x2 <= 0x100_0000_0000_0000,
        -0x100_0000_0000_0000 <= x3 <= 0x100_0000_0000_0000,
    ensures
        r == mix(c1 as int, x1 as int, c2 as int, x2 as int, c3 as int, x3 as int),
{
    proof {
        lemma_product_bound(c1 as int, x1 as int);
        lemma_product_bound(c2 as int, x2 as int);
        lemma_product_bound(c3 as int, x3 as int);
    }
    div_floor(c1 * x1 + c2 * x2 + c3 * x3, MATRIX_SCALE)
}

proof fn lemma_product_bound(c: int, x: int)
    requires
        -0x10_0000_0000 <= c <= 0x10_0000_0000,
        -0x100_0000_0000_0000 <= x <= 0x100_0000_0000_0000,
    ensures
        -0x1000_0000_0000_0000_0000_0000 <= c * x <= 0x1000_0000_0000_0000_0000_0000,
{
    assert(-0x1000_0000_0000_0000_0000_0000 <= c * x <= 0x1000_0000_0000_0000_0000_0000)
        by (nonlinear_arith)
        requires
            -0x10_0000_0000 <= c <= 0x10_0000_0000,
            -0x100_0000_0000_0000 <= x <= 0x100_0000_0000_0000,
    ;
}

/// The linear light of the gamma-encoded value `k / 510`, for `k` in `[0, 510]`.
pub open spec fn srgb_to_linear_spec(k: int) -> int {
    if k <= 20 {
        k * 100 * ONE / 658920
    } else {
        let y = (1000 * k + 28050) * ONE / 538050;
        let y2 = y * y / (ONE as int);
        y2 * root5_floor(y2 * ONE * ONE * ONE * ONE) / (ONE as int)
    }
}

/// The linear light of the gamma-encoded value `k / 510`: a straight segment near black,
/// and the power 2.4 above it.
pub fn srgb_to_linear(k: u16) -> (r: i64)
    requires
        k <= 510,
    ensures
        r == srgb_to_linear_spec(k as int),
        0 <= r <= ONE,
{
    if k <= 20 {
        proof {
            lemma_div_between(k * 100 * ONE, 658920, 0, ONE as int);
        }
        (k as i64) * 100 * ONE / 658920
    } else {
        let one: i128 = ONE as i128;
        let n: i128 = (1000 * (k as i128) + 28050) * one;
        proof {
            lemma_div_between(n as int, 538050, 0, ONE as int);
        }
        let y: i128 = n / 538050;
        assert(0 <= y * y <= one * one) by (nonlinear_arith)
            requires
                0 <= y <= one,
        ;
        proof {
            lemma_div_between(y * y, ONE as int, 0, ONE as int);
        }
        let y2: i128 = y * y / one;
        assert(0 <= y2 * one * one * one * one <= one * one * one * one * one) by (nonlinear_arith)
            requires
                0 <= y2 <= one,
                one == 1_000_000,
        ;
        let w = iroot5((y2 * one * one * one * one) as u128);
        proof {
            lemma_root5_at_most((y2 * one * one * one * one) as int, w as int, ONE as int);
        }
        assert(0 <= y2 * (w as i128) <= one * one) by (nonlinear_arith)
            requires
                0 <= y2 <= one,
                0 <= w <= one,
        ;
        proof {
            lemma_div_between(y2 * w, ONE as int, 0, ONE as int);
        }
        (y2 * (w as i128) / one) as i64
    }
}

/// The largest byte `v` at most `top` whose lower rounding edge, the encoded value
/// `(2v - 1) / 510`, has linear light at most `x`; zero if there is none.
pub open spec fn byte_search(x: int, top: int) -> int
    decreases top,
{
    if top <= 0 {
        0
    } else if srgb_to_linear_spec(2 * top - 1) <= x {
        top
    } else {
        byte_search(x, top - 1)
    }
}

/// The gamma-encoded byte nearest to the linear light `x`; below zero gives 0 and above
/// `ONE` gives 255.
pub open spec fn linear_to_srgb_spec(x: int) -> int {
    byte_search(x, 255)
}

/// The gamma-encoded byte nearest to the linear light `x`, limited to `[0, 255]`.
pub fn linear_to_srgb(x: i64) -> (r: u8)
    ensures
        r == linear_to_srgb_spec(x as int),
{
    let mut v: u16 = 255;
    while v > 0
        invariant
            v <= 255,
            byte_search(x as int, v as int) == linear_to_srgb_spec(x as int),
        decreases v,
    {
        if srgb_to_linear(2 * v - 1) <= x {
            return v as u8;
        }
        v = v - 1;
    }
    0
}

/// The OkLab components `(L, a, b)` of a color; its alpha is not read.
pub open spec fn rgb_to_oklab_spec(c: ColorRgba) -> (int, int, int) {
    let r = srgb_to_linear_spec(2 * c.r);
    let g = srgb_to_linear_spec(2 * c.g);
    let b = srgb_to_linear_spec(2 * c.b);
    let l = mix(4122214708, r, 5363325363, g, 514459929, b);
    let m = mix(2119034982, r, 6806995451, g, 1073969566, b);
    let s = mix(883024619, r, 2817188376, g, 6299787005, b);
    let l_ = cbrt_floor(l * ONE * ONE);
    let m_ = cbrt_floor(m * ONE * ONE);
    let s_ = cbrt_floor(s * ONE * ONE);
    (
        mix(2104542553, l_, 7936177850, m_, -40720468, s_),
        mix(19779984951, l_, -24285922050, m_, 4505937099, s_),
        mix(259040371, l_, 7827717662, m_, -8086757660, s_),
    )
}

fn cone_root(v: i128) -> (r: i128)
    requires
        0 <= v <= ONE,
    ensures
        r == cbrt_floor(v * ONE * ONE),
        0 <= r <= ONE,
{
    assert(0 <= v * ONE * ONE <= ONE * ONE * ONE) by (nonlinear_arith)
        requires
            0 <= v <= ONE,
            ONE == 1_000_000,
    ;
    let n: u64 = (v * (ONE as i128) * (ONE as i128)) as u64;
    let r = icbrt(n);
    proof {
        lemma_cbrt_at_most(n as int, r as int, ONE as int);
    }
    r as i128
}

/// Converts a color to OkLab: gamma decoding, a matrix to cone responses, their cube
/// roots, and a second matrix. The alpha channel is not read.
pub fn rgb_to_oklab(col: ColorRgba) -> (r: (i64, i64, i64))
    ensures
        (r.0 as int, r.1 as int, r.2 as int) == rgb_to_oklab_spec(col),
        -ONE <= r.0 <= 2 * ONE,
        -5 * ONE <= r.1 <= 5 * ONE,
        -5 * ONE <= r.2 <= 5 * ONE,
{
    let r = srgb_to_linear(2 * (col.r as u16)) as i128;
    let g = srgb_to_linear(2 * (col.g as u16)) as i128;
    let b = srgb_to_linear(2 * (col.b as u16)) as i128;
    proof {
        lemma_div_between(4122214708 * r + 5363325363 * g + 514459929 * b, MATRIX_SCALE as int, 0, ONE as int);
        lemma_div_between(2119034982 * r + 6806995451 * g + 1073969566 * b, MATRIX_SCALE as int, 0, ONE as int);
        lemma_div_between(883024619 * r + 2817188376 * g + 6299787005 * b, MATRIX_SCALE as int, 0, ONE as int);
    }
    let l = mix3(4122214708, r, 5363325363, g, 514459929, b);
    let m = mix3(2119034982, r, 6806995451, g, 1073969566, b);
    let s = mix3(883024619, r, 2817188376, g, 6299787005, b);
    let l_ = cone_root(l);
    let m_ = cone_root(m);
    let s_ = cone_root(s);
    proof {
        lemma_div_between(2104542553 * l_ + 7936177850 * m_ - 40720468 * s_, MATRIX_SCALE as int, -ONE, 2 * ONE);
        lemma_div_between(19779984951 * l_ - 24285922050 * m_ + 4505937099 * s_, MATRIX_SCALE as int, -5 * ONE, 5 * ONE);
        lemma_div_between(259040371 * l_ + 7827717662 * m_ - 8086757660 * s_, MATRIX_SCALE as int, -5 * ONE, 5 * ONE);
    }
    let lab_l = mix3(2104542553, l_, 7936177850, m_, -40720468, s_);
    let lab_a = mix3(19779984951, l_, -24285922050, m_, 4505937099, s_);
    let lab_b = mix3(259040371, l_, 7827717662, m_, -8086757660, s_);
    (lab_l as i64, lab_a as i64, lab_b as i64)
}

/// `v * v * v / (ONE * ONE)`: a cone response from its cube root.
pub open spec fn cube_fx(v: int) -> int {
    v * v * v / (ONE * ONE)
}

/// The limit on the cube roots of cone responses met on the way back to sRGB.
pub const CONE_LIMIT: i128 = 25_000_000;

fn cube(v: i128) -> (r: i128)
    requires
        -CONE_LIMIT <= v <= CONE_LIMIT,
    ensures
        r == cube_fx(v as int),
        -16000 * ONE * ONE <= r <= 16000 * ONE * ONE,
{
    assert(-16000 * ONE * ONE * ONE * ONE <= v * v * v <= 16000 * ONE * ONE * ONE * ONE) by (nonlinear_arith)
        requires
            -25_000_000 <= v <= 25_000_000,
            ONE == 1_000_000,
    ;
    assert(0 <= v * v <= 625 * ONE * ONE * 1_000_000) by (nonlinear_arith)
        requires
            -25_000_000 <= v <= 25_000_000,
            ONE == 1_000_000,
    ;
    proof {
        lemma_div_between(v * v * v, ONE * ONE, -16000 * ONE * ONE, 16000 * ONE * ONE);
    }
    let v2: i128 = v * v;
    div_floor(v2 * v, (ONE as i128) * (ONE as i128))
}

/// The linear light `(r, g, b)` of the OkLab components `(L, a, b)`, each first limited
/// to `[-LAB_LIMIT, LAB_LIMIT]`; not limited to the displayable range.
pub open spec fn oklab_to_linear_spec(lab_l: int, lab_a: int, lab_b: int) -> (int, int, int) {
    let ll = clamp_int(lab_l, -LAB_LIMIT, LAB_LIMIT as int);
    let la = clamp_int(lab_a, -LAB_LIMIT, LAB_LIMIT as int);
    let lb = clamp_int(lab_b, -LAB_LIMIT, LAB_LIMIT as int);
    let l = cube_fx(ll + mix(3963377774, la, 2158037573, lb, 0, 0));
    let m = cube_fx(ll + mix(-1055613458, la, -638541728, lb, 0, 0));
    let s = cube_fx(ll + mix(-894841775, la, -12914855480, lb, 0, 0));
    (
        mix(40767416621, l, -33077115913, m, 2309699292, s),
        mix(-12684380046, l, 26097574011, m, -3413193965, s),
        mix(-41960863, l, -7034186147, m, 17076147010, s),
    )
}

/// The color of the OkLab components `(L, a, b)`, each first limited to
/// `[-LAB_LIMIT, LAB_LIMIT]`; linear light out of `[0, ONE]` is limited to it; opaque.
pub open spec fn oklab_to_rgb_spec(lab_l: int, lab_a: int, lab_b: int) -> ColorRgba {
    let (r, g, b) = oklab_to_linear_spec(lab_l, lab_a, lab_b);
    ColorRgba {
        r: linear_to_srgb_spec(r) as u8,
        g: linear_to_srgb_spec(g) as u8,
        b: linear_to_srgb_spec(b) as u8,
        a: 255,
    }
}

fn clamp_lab(v: i64) -> (r: i128)
    ensures
        r == clamp_int(v as int, -LAB_LIMIT, LAB_LIMIT as int),
{
    if v < -LAB_LIMIT {
        -(LAB_LIMIT as i128)
    } else if v > LAB_LIMIT {
        LAB_LIMIT as i128
    } else {
        v as i128
    }
}

proof fn lemma_scaled_bound(c: int, x: int, cb: int, xb: int)
    requires
        -cb <= c <= cb,
        -xb <= x <= xb,
    ensures
        -cb * xb <= c * x <= cb * xb,
{
    assert(-cb * xb <= c * x <= cb * xb) by (nonlinear_arith)
        requires
            -cb <= c <= cb,
            -xb <= x <= xb,
    ;
}

/// One cone response, from limited OkLab components and one row of the inverse matrix.
fn cone_response(ll: i128, la: i128, lb: i128, c1: i128, c2: i128) -> (r: i128)
    requires
        -LAB_LIMIT <= ll <= LAB_LIMIT,
        -LAB_LIMIT <= la <= LAB_LIMIT,
        -LAB_LIMIT <= lb <= LAB_LIMIT,
        -4_000_000_000 <= c1 <= 4_000_000_000,
        -13_000_000_000 <= c2 <= 13_000_000_000,
    ensures
        r == cube_fx(ll + mix(c1 as int, la as int, c2 as int, lb as int, 0, 0)),
        -16000 * ONE * ONE <= r <= 16000 * ONE * ONE,
{
    proof {
        lemma_scaled_bound(c1 as int, la as int, 4_000_000_000, LAB_LIMIT as int);
        lemma_scaled_bound(c2 as int, lb as int, 13_000_000_000, LAB_LIMIT as int);
        lemma_div_between(c1 * la + c2 * lb + 0 * 0, MATRIX_SCALE as int, -14 * ONE, 14 * ONE);
    }
    cube(ll + mix3(c1, la, c2, lb, 0, 0))
}

/// One channel of linear light, from cone responses and one row of the final matrix.
fn linear_channel(l: i128, m: i128, s: i128, c1: i128, c2: i128, c3: i128) -> (r: i64)
    requires
        -16000 * ONE * ONE <= l <= 16000 * ONE * ONE,
        -16000 * ONE * ONE <= m <= 16000 * ONE * ONE,
        -16000 * ONE * ONE <= s <= 16000 * ONE * ONE,
        -50_000_000_000 <= c1 <= 50_000_000_000,
        -50_000_000_000 <= c2 <= 50_000_000_000,
        -50_000_000_000 <= c3 <= 50_000_000_000,
    ensures
        r == mix(c1 as int, l as int, c2 as int, m as int, c3 as int, s as int),
{
    proof {
        lemma_scaled_bound(c1 as int, l as int, 50_000_000_000, 16000 * ONE * ONE);
        lemma_scaled_bound(c2 as int, m as int, 50_000_000_000, 16000 * ONE * ONE);
        lemma_scaled_bound(c3 as int, s as int, 50_000_000_000, 16000 * ONE * ONE);
        lemma_div_between(c1 * l + c2 * m + c3 * s, MATRIX_SCALE as int, -240000 * ONE * ONE, 240000 * ONE * ONE);
    }
    mix3(c1, l, c2, m, c3, s) as i64
}

/// Converts OkLab components to linear light, without limiting it to the displayable range.
pub fn oklab_to_linear(lab_l: i64, lab_a: i64, lab_b: i64) -> (r: (i64, i64, i64))
    ensures
        (r.0 as int, r.1 as int, r.2 as int) == oklab_to_linear_spec(lab_l as int, lab_a as int, lab_b as int),
{
    let ll = clamp_lab(lab_l);
    let la = clamp_lab(lab_a);
    let lb = clamp_lab(lab_b);
    let l = cone_response(ll, la, lb, 3963377774, 2158037573);
    let m = cone_response(ll, la, lb, -1055613458, -638541728);
    let s = cone_response(ll, la, lb, -894841775, -12914855480);
    (
        linear_channel(l, m, s, 40767416621, -33077115913, 2309699292),
        linear_channel(l, m, s, -12684380046, 26097574011, -3413193965),
        linear_channel(l, m, s, -41960863, -7034186147, 17076147010),
    )
}

/// Converts OkLab components back to an opaque color: the inverse matrices and cubes, then
/// gamma encoding rounded to the nearest byte.
pub fn oklab_to_rgb(lab_l: i64, lab_a: i64, lab_b: i64) -> (r: ColorRgba)
    ensures
        r == oklab_to_rgb_spec(lab_l as int, lab_a as int, lab_b as int),
{
    let (r, g, b) = oklab_to_linear(lab_l, lab_a, lab_b);
    ColorRgba { r: linear_to_srgb(r), g: linear_to_srgb(g), b: linear_to_srgb(b), a: 255 }
}

/// The cylindrical form `(L, C, h)` of OkLab components: chroma is the length of `(a, b)`
/// and hue its direction.
pub open spec fn oklab_to_oklch_spec(l: int, a: int, b: int) -> (int, int, int) {
    (l, sqrt_floor(a * a + b * b), angle_of(a, b))
}

/// Converts OkLab components to lightness, chroma and hue.
pub(crate) fn oklab_to_oklch(l: i64, a: i64, b: i64) -> (r: (i64, i64, i64))
    requires
        -5 * ONE <= a <= 5 * ONE,
        -5 * ONE <= b <= 5 * ONE,
    ensures
        (r.0 as int, r.1 as int, r.2 as int) == oklab_to_oklch_spec(l as int, a as int, b as int),
        0 <= r.1 <= LAB_LIMIT,
        0 <= r.2 < FULL_TURN,
{
    assert(0 <= a * a <= 25_000_000_000_000) by (nonlinear_arith)
        requires
            -5_000_000 <= a <= 5_000_000,
    ;
    assert(0 <= b * b <= 25_000_000_000_000) by (nonlinear_arith)
        requires
            -5_000_000 <= b <= 5_000_000,
    ;
    let n: u64 = ((a as i128) * (a as i128) + (b as i128) * (b as i128)) as u64;
    let c = isqrt(n);
    proof {
        lemma_sqrt_at_most(n as int, c as int, LAB_LIMIT as int);
    }
    let h = angle_of_vector(a, b);
    (l, c as i64, h)
}

/// The OkLCh components of a color.
pub open spec fn rgb_to_oklch_spec(c: ColorRgba) -> (int, int, int) {
    let (l, a, b) = rgb_to_oklab_spec(c);
    oklab_to_oklch_spec(l, a, b)
}

/// Converts a color to OkLCh: lightness, chroma, and hue in `[0, FULL_TURN)`.
pub fn rgb_to_oklch(col: ColorRgba) -> (r: (i64, i64, i64))
    ensures
        (r.0 as int, r.1 as int, r.2 as int) == rgb_to_oklch_spec(col),
        -ONE <= r.0 <= 2 * ONE,
        0 <= r.1 <= LAB_LIMIT,
        0 <= r.2 < FULL_TURN,
{
    let (l, a, b) = rgb_to_oklab(col);
    oklab_to_oklch(l, a, b)
}

/// The OkLab components of lightness `l`, chroma `c` and hue `h`.
pub open spec fn oklch_to_oklab_spec(l: int, c: int, h: int) -> (int, int, int) {
    let (a, b) = vector_at(c, h);
    (l, a, b)
}

/// Converts lightness, chroma and hue to OkLab components.
pub(crate) fn oklch_to_oklab(l: i64, c: i64, h: i64) -> (r: (i64, i64, i64))
    requires
        0 <= c <= LAB_LIMIT,
        0 <= h < FULL_TURN,
    ensures
        (r.0 as int, r.1 as int, r.2 as int) == oklch_to_oklab_spec(l as int, c as int, h as int),
{
    let (a, b) = vector_at_angle(c, h);
    (l, a, b)
}

/// The color of lightness `l`, chroma `c` (limited to `[0, LAB_LIMIT]`) and hue `h` (taken
/// modulo a full turn).
pub open spec fn oklch_to_rgb_spec(l: int, c: int, h: int) -> ColorRgba {
    let (ll, a, b) = oklch_to_oklab_spec(l, clamp_int(c, 0, LAB_LIMIT as int), h % (FULL_TURN as int));
    oklab_to_rgb_spec(ll, a, b)
}

/// Converts lightness, chroma and hue to an opaque color.
pub fn oklch_to_rgb(l: i64, c: i64, h: i64) -> (r: ColorRgba)
    ensures
        r == oklch_to_rgb_spec(l as int, c as int, h as int),
{
    let cc: i64 = if c < 0 {
        0
    } else if c > LAB_LIMIT {
        LAB_LIMIT
    } else {
        c
    };
    let hh = mod_floor(h as i128, FULL_TURN as i128) as i64;
    let (lab_l, lab_a, lab_b) = oklch_to_oklab(l, cc, hh);
    oklab_to_rgb(lab_l, lab_a, lab_b)
}

} // verus!
