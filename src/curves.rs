//! Easing curves that reshape a blend factor, and the luminosity curves used for
//! saturation and hue shifting.
//!
//! Every curve maps a fixed-point `t` in `[0, ONE]` to a fixed-point result.
use vstd::prelude::*;

use crate::fixed::{
    clamp_int, div_floor, iroot5, isqrt, lemma_div_between, lemma_root5_at_most,
    lemma_sqrt_at_most, root5_floor, sqrt_floor, ONE,
};

verus! {

/// The variant of a curve, without its parameters.
#[derive(Clone, Copy, Debug, PartialEq, Eq, Structural)]
pub enum CurveKind {
    Linear,
    EaseIn,
    EaseOut,
    EaseInOut,
    Bezier,
}

/// `t * factor`.
#[derive(Clone, Copy, Debug, PartialEq, Eq, Structural)]
pub struct Linear {
    /// Fixed-point slope.
    pub factor: i64,
}

/// `t` raised to the exponent, given in tenths (20 squares, 5 takes the square root).
#[derive(Clone, Copy, Debug, PartialEq, Eq, Structural)]
pub struct EaseIn {
    pub exponent_tenths: u32,
}

/// `1 - (1 - t)` raised to the exponent, given in tenths: the mirror of `EaseIn`.
#[derive(Clone, Copy, Debug, PartialEq, Eq, Structural)]
pub struct EaseOut {
    pub exponent_tenths: u32,
}

/// `EaseIn` on the first half and `EaseOut` on the second, each scaled to its half; the
/// exponent is given in tenths.
#[derive(Clone, Copy, Debug, PartialEq, Eq, Structural)]
pub struct EaseInOut {
    pub exponent_tenths: u32,
}

/// The cubic Bezier blend of four fixed-point output values.
#[derive(Clone, Copy, Debug, PartialEq, Eq, Structural)]
pub struct Bezier {
    pub p0: i64,
    pub p1: i64,
    pub p2: i64,
    pub p3: i64,
}

/// A curve with its parameters.
#[derive(Clone, Copy, Debug, PartialEq, Eq, Structural)]
pub enum CurveType {
    Linear(Linear),
    EaseIn(EaseIn),
    EaseOut(EaseOut),
    EaseInOut(EaseInOut),
    Bezier(Bezier),
}

/// `t` raised to `n` in fixed point, each product rounded toward zero.
pub open spec fn pow_fx(t: int, n: nat) -> int
    decreases n,
{
    if n == 0 {
        ONE as int
    } else {
        pow_fx(t, (n - 1) as nat) * t / (ONE as int)
    }
}

proof fn lemma_pow_fx_zero(t: int, i: nat, n: nat)
    requires
        i <= n,
        pow_fx(t, i) == 0,
    ensures
        pow_fx(t, n) == 0,
    decreases n - i,
{
    if i < n {
        lemma_pow_fx_zero(t, i, (n - 1) as nat);
    }
}

/// `t` raised to `n`, for `t` in `[0, ONE]`.
fn pow_fixed(t: i64, n: u32) -> (r: i64)
    requires
        0 <= t <= ONE,
    ensures
        r == pow_fx(t as int, n as nat),
        0 <= r <= ONE,
{
    let mut acc: i64 = ONE;
    let mut i: u32 = 0;
    while i < n
        invariant
            0 <= t <= ONE,
            i <= n,
            0 <= acc <= ONE,
            acc == pow_fx(t as int, i as nat),
        decreases n - i,
    {
        if acc == 0 {
            proof {
                lemma_pow_fx_zero(t as int, i as nat, n as nat);
            }
            return 0;
        }
        assert(0 <= acc * t <= ONE * ONE) by (nonlinear_arith)
            requires
                0 <= acc <= ONE,
                0 <= t <= ONE,
        ;
        proof {
            lemma_div_between(acc * t, ONE as int, 0, ONE as int);
        }
        acc = acc * t / ONE;
        i = i + 1;
    }
    acc
}

/// The tenth root of a fixed-point `t` in `[0, ONE]`: the fifth root of its square root.
pub open spec fn tenth_root_fx(t: int) -> int {
    root5_floor(sqrt_fx(t) * ONE * ONE * ONE * ONE)
}

/// `t` raised to `e / 10`: the whole part of the exponent by repeated products, the tenths
/// by powers of the tenth root.
pub open spec fn pow_tenths(t: int, e: nat) -> int {
    pow_fx(t, e / 10) * pow_fx(tenth_root_fx(t), e % 10) / (ONE as int)
}

fn tenth_root(t: i64) -> (r: i64)
    requires
        0 <= t <= ONE,
    ensures
        r == tenth_root_fx(t as int),
        0 <= r <= ONE,
{
    let q = sqrt_fixed(t);
    let one = ONE as u128;
    assert(0 <= q * ONE * ONE * ONE * ONE <= ONE * ONE * ONE * ONE * ONE) by (nonlinear_arith)
        requires
            0 <= q <= ONE,
            ONE == 1_000_000,
    ;
    let n: u128 = (q as u128) * one * one * one * one;
    let r = iroot5(n);
    proof {
        lemma_root5_at_most(n as int, r as int, ONE as int);
    }
    r as i64
}

/// `t` raised to `e / 10`, for `t` in `[0, ONE]`.
fn pow_tenths_fixed(t: i64, e: u32) -> (r: i64)
    requires
        0 <= t <= ONE,
    ensures
        r == pow_tenths(t as int, e as nat),
        0 <= r <= ONE,
{
    let whole = pow_fixed(t, e / 10);
    let frac = pow_fixed(tenth_root(t), e % 10);
    assert(0 <= whole * frac <= ONE * ONE) by (nonlinear_arith)
        requires
            0 <= whole <= ONE,
            0 <= frac <= ONE,
    ;
    proof {
        lemma_div_between(whole * frac, ONE as int, 0, ONE as int);
    }
    whole * frac / ONE
}

/// The cubic Bezier blend of the values `p0` to `p3` at `t`; its four weights add up to
/// `ONE` cubed, which the sum is divided by.
pub open spec fn bezier_fx(p0: int, p1: int, p2: int, p3: int, t: int) -> int {
    let u = ONE - t;
    (u * u * u * p0 + 3 * u * u * t * p1 + 3 * u * t * t * p2 + t * t * t * p3) / (ONE * ONE * ONE)
}

/// What a curve maps `t` to.
pub open spec fn curve_sample(c: CurveType, t: int) -> int {
    match c {
        CurveType::Linear(l) => t * l.factor / (ONE as int),
        CurveType::EaseIn(e) => pow_tenths(t, e.exponent_tenths as nat),
        CurveType::EaseOut(e) => ONE - pow_tenths(ONE - t, e.exponent_tenths as nat),
        CurveType::EaseInOut(e) => if 2 * t < ONE {
            pow_tenths(2 * t, e.exponent_tenths as nat) / 2
        } else {
            ONE - pow_tenths(2 * (ONE - t), e.exponent_tenths as nat) / 2
        },
        CurveType::Bezier(b) => bezier_fx(b.p0 as int, b.p1 as int, b.p2 as int, b.p3 as int, t),
    }
}

proof fn lemma_weighted(w: int, p: int, bound: int)
    requires
        0 <= w,
        -bound <= p <= bound - 1,
    ensures
        -bound * w <= w * p <= (bound - 1) * w,
{
    assert(-bound * w <= w * p <= (bound - 1) * w) by (nonlinear_arith)
        requires
            0 <= w,
            -bound <= p <= bound - 1,
    ;
}

fn bezier_sample(b: Bezier, t: i64) -> (r: i64)
    requires
        0 <= t <= ONE,
    ensures
        r == bezier_fx(b.p0 as int, b.p1 as int, b.p2 as int, b.p3 as int, t as int),
{
    let t = t as i128;
    let u: i128 = ONE as i128 - t;
    let one = ONE as i128;
    assert(0 <= u * u <= one * one && 0 <= t * t <= one * one && 0 <= u * t <= one * one)
        by (nonlinear_arith)
        requires
            0 <= t <= one,
            0 <= u <= one,
    ;
    let uu = u * u;
    let tt = t * t;
    let ut = u * t;
    assert(0 <= uu * u <= one * one * one && 0 <= uu * t <= one * one * one && 0 <= ut * t
        <= one * one * one && 0 <= tt * t <= one * one * one) by (nonlinear_arith)
        requires
            0 <= t <= one,
            0 <= u <= one,
            0 <= uu <= one * one,
            0 <= tt <= one * one,
            0 <= ut <= one * one,
    ;
    let w0 = uu * u;
    let w1 = 3 * (uu * t);
    let w2 = 3 * (ut * t);
    let w3 = tt * t;
    assert(w0 + w1 + w2 + w3 == one * one * one) by (nonlinear_arith)
        requires
            u == one - t,
            uu == u * u,
            tt == t * t,
            ut == u * t,
            w0 == uu * u,
            w1 == 3 * (uu * t),
            w2 == 3 * (ut * t),
            w3 == tt * t,
    ;
    let ghost bound: int = 0x8000_0000_0000_0000int;
    proof {
        lemma_weighted(w0 as int, b.p0 as int, bound);
        lemma_weighted(w1 as int, b.p1 as int, bound);
        lemma_weighted(w2 as int, b.p2 as int, bound);
        lemma_weighted(w3 as int, b.p3 as int, bound);
        assert(bound * w0 + bound * w1 + bound * w2 + bound * w3 == bound * (one * one * one))
            by (nonlinear_arith)
            requires
                w0 + w1 + w2 + w3 == one * one * one,
        ;
        assert((bound - 1) * w0 + (bound - 1) * w1 + (bound - 1) * w2 + (bound - 1) * w3 == (bound
            - 1) * (one * one * one)) by (nonlinear_arith)
            requires
                w0 + w1 + w2 + w3 == one * one * one,
        ;
    }
    let n: i128 = w0 * (b.p0 as i128) + w1 * (b.p1 as i128) + w2 * (b.p2 as i128) + w3 * (b.p3 as i128);
    assert(u * u * u * b.p0 + 3 * u * u * t * b.p1 + 3 * u * t * t * b.p2 + t * t * t * b.p3 == n)
        by (nonlinear_arith)
        requires
            uu == u * u,
            tt == t * t,
            ut == u * t,
            w0 == uu * u,
            w1 == 3 * (uu * t),
            w2 == 3 * (ut * t),
            w3 == tt * t,
            n == w0 * b.p0 + w1 * b.p1 + w2 * b.p2 + w3 * b.p3,
    ;
    proof {
        lemma_div_between(n as int, one * one * one, -bound, bound - 1);
    }
    div_floor(n, one * one * one) as i64
}

impl CurveType {
    /// Maps `t` in `[0, ONE]` through the curve.
    pub fn sample(&self, t: i64) -> (r: i64)
        requires
            0 <= t <= ONE,
        ensures
            r == curve_sample(*self, t as int),
    {
        match self {
            CurveType::Linear(l) => {
                assert(-0x8000_0000_0000_0000 * ONE <= t * l.factor <= 0x7fff_ffff_ffff_ffff * ONE) by (nonlinear_arith)
                    requires
                        0 <= t <= ONE,
                        -0x8000_0000_0000_0000 <= l.factor < 0x8000_0000_0000_0000,
                ;
                proof {
                    lemma_div_between(t * l.factor, ONE as int, -0x8000_0000_0000_0000, 0x7fff_ffff_ffff_ffff);
                }
                div_floor((t as i128) * (l.factor as i128), ONE as i128) as i64
            },
            CurveType::EaseIn(e) => pow_tenths_fixed(t, e.exponent_tenths),
            CurveType::EaseOut(e) => ONE - pow_tenths_fixed(ONE - t, e.exponent_tenths),
            CurveType::EaseInOut(e) => {
                if 2 * t < ONE {
                    pow_tenths_fixed(2 * t, e.exponent_tenths) / 2
                } else {
                    ONE - pow_tenths_fixed(2 * (ONE - t), e.exponent_tenths) / 2
                }
            },
            CurveType::Bezier(b) => bezier_sample(*b, t),
        }
    }

    /// The variant of the curve.
    pub fn kind(&self) -> (k: CurveKind)
        ensures
            k == curve_kind(*self),
    {
        match self {
            CurveType::Linear(_) => CurveKind::Linear,
            CurveType::EaseIn(_) => CurveKind::EaseIn,
            CurveType::EaseOut(_) => CurveKind::EaseOut,
            CurveType::EaseInOut(_) => CurveKind::EaseInOut,
            CurveType::Bezier(_) => CurveKind::Bezier,
        }
    }

    /// The curve of the given kind with its default parameters: a slope of one, an
    /// exponent of two, or the Bezier values 0, 0, 1, 1.
    pub fn from_kind(kind: CurveKind) -> (c: CurveType)
        ensures
            c == default_of_kind(kind),
            curve_kind(c) == kind,
    {
        match kind {
            CurveKind::Linear => CurveType::Linear(Linear { factor: ONE }),
            CurveKind::EaseIn => CurveType::EaseIn(EaseIn { exponent_tenths: 20 }),
            CurveKind::EaseOut => CurveType::EaseOut(EaseOut { exponent_tenths: 20 }),
            CurveKind::EaseInOut => CurveType::EaseInOut(EaseInOut { exponent_tenths: 20 }),
            CurveKind::Bezier => CurveType::Bezier(Bezier { p0: 0, p1: 0, p2: ONE, p3: ONE }),
        }
    }
}

/// The variant of a curve.
pub open spec fn curve_kind(c: CurveType) -> CurveKind {
    match c {
        CurveType::Linear(_) => CurveKind::Linear,
        CurveType::EaseIn(_) => CurveKind::EaseIn,
        CurveType::EaseOut(_) => CurveKind::EaseOut,
        CurveType::EaseInOut(_) => CurveKind::EaseInOut,
        CurveType::Bezier(_) => CurveKind::Bezier,
    }
}

/// The curve of a kind with its default parameters.
pub open spec fn default_of_kind(kind: CurveKind) -> CurveType {
    match kind {
        CurveKind::Linear => CurveType::Linear(Linear { factor: ONE }),
        CurveKind::EaseIn => CurveType::EaseIn(EaseIn { exponent_tenths: 20 }),
        CurveKind::EaseOut => CurveType::EaseOut(EaseOut { exponent_tenths: 20 }),
        CurveKind::EaseInOut => CurveType::EaseInOut(EaseInOut { exponent_tenths: 20 }),
        CurveKind::Bezier => CurveType::Bezier(Bezier { p0: 0, p1: 0, p2: ONE as i64, p3: ONE as i64 }),
    }
}

impl Default for CurveType {
    fn default() -> (c: CurveType)
        ensures
            c == CurveType::Linear(Linear { factor: ONE }),
    {
        CurveType::Linear(Linear { factor: ONE })
    }
}

impl CurveKind {
    /// The name shown for the kind.
    pub fn name(&self) -> (r: &'static str)
        ensures
            *self == CurveKind::Linear ==> r@ == "Linear"@,
            *self == CurveKind::EaseIn ==> r@ == "Ease In"@,
            *self == CurveKind::EaseOut ==> r@ == "Ease Out"@,
            *self == CurveKind::EaseInOut ==> r@ == "Ease In-Out"@,
            *self == CurveKind::Bezier ==> r@ == "Bezier"@,
    {
        match self {
            CurveKind::Linear => "Linear",
            CurveKind::EaseIn => "Ease In",
            CurveKind::EaseOut => "Ease Out",
            CurveKind::EaseInOut => "Ease In-Out",
            CurveKind::Bezier => "Bezier",
        }
    }

    /// Every kind, in the order in which they are offered.
    pub fn all() -> (r: Vec<CurveKind>)
        ensures
            r@ == seq![CurveKind::Linear, CurveKind::EaseIn, CurveKind::EaseOut, CurveKind::EaseInOut, CurveKind::Bezier],
    {
        vec![CurveKind::Linear, CurveKind::EaseIn, CurveKind::EaseOut, CurveKind::EaseInOut, CurveKind::Bezier]
    }
}

/// `x` to the power 1/2, for a fixed-point `x` in `[0, ONE]`.
pub open spec fn sqrt_fx(x: int) -> int {
    sqrt_floor(x * ONE)
}

/// `x` to the power 3/2, for a fixed-point `x` in `[0, ONE]`.
pub open spec fn pow_three_halves(x: int) -> int {
    x * sqrt_fx(x) / (ONE as int)
}

/// `x` to the power 7/10 (a square root times a fifth root), for a fixed-point `x` in
/// `[0, ONE]`.
pub open spec fn pow_seven_tenths(x: int) -> int {
    sqrt_fx(x) * root5_floor(x * ONE * ONE * ONE * ONE) / (ONE as int)
}

fn sqrt_fixed(x: i64) -> (r: i64)
    requires
        0 <= x <= ONE,
    ensures
        r == sqrt_fx(x as int),
        0 <= r <= ONE,
{
    assert(0 <= x * ONE <= ONE * ONE) by (nonlinear_arith)
        requires
            0 <= x <= ONE,
    ;
    let n: u64 = (x as u64) * (ONE as u64);
    let r = isqrt(n);
    proof {
        lemma_sqrt_at_most(n as int, r as int, ONE as int);
    }
    r as i64
}

fn pow_three_halves_fixed(x: i64) -> (r: i64)
    requires
        0 <= x <= ONE,
    ensures
        r == pow_three_halves(x as int),
        0 <= r <= ONE,
{
    let q = sqrt_fixed(x);
    assert(0 <= x * q <= ONE * ONE) by (nonlinear_arith)
        requires
            0 <= x <= ONE,
            0 <= q <= ONE,
    ;
    proof {
        lemma_div_between(x * q, ONE as int, 0, ONE as int);
    }
    x * q / ONE
}

fn pow_seven_tenths_fixed(x: i64) -> (r: i64)
    requires
        0 <= x <= ONE,
    ensures
        r == pow_seven_tenths(x as int),
        0 <= r <= ONE,
{
    let q = sqrt_fixed(x);
    let one = ONE as u128;
    assert(0 <= x * ONE * ONE * ONE * ONE <= ONE * ONE * ONE * ONE * ONE) by (nonlinear_arith)
        requires
            0 <= x <= ONE,
            ONE == 1_000_000,
    ;
    let n: u128 = (x as u128) * one * one * one * one;
    let f = iroot5(n);
    proof {
        lemma_root5_at_most(n as int, f as int, ONE as int);
    }
    assert(0 <= q * f <= ONE * ONE) by (nonlinear_arith)
        requires
            0 <= q <= ONE,
            0 <= f <= ONE,
    ;
    proof {
        lemma_div_between(q * f, ONE as int, 0, ONE as int);
    }
    ((q as i128) * (f as i128) / (ONE as i128)) as i64
}

/// `|x - 1/2| * 2`, for a fixed-point `x` in `[0, ONE]`: zero in the middle, one at the ends.
pub open spec fn distance_from_middle(x: int) -> int {
    if 2 * x >= ONE {
        2 * x - ONE
    } else {
        ONE - 2 * x
    }
}

/// How saturation is added across the range from dark to light.
#[derive(Clone, Copy, Debug, PartialEq, Eq, Structural)]
pub enum SaturationCurve {
    /// The same everywhere.
    Flat,
    /// Rising from dark to light.
    LinearUp,
    /// Falling from dark to light.
    LinearDown,
    /// High at both ends, low in the middle.
    Extremes,
    /// High in the middle, low at both ends.
    Midtones,
    /// Strongest in the shadows, with a smooth falloff.
    DarkSaturated,
    /// Strongest in the highlights, with a smooth falloff.
    LightSaturated,
}

/// The shape of a saturation curve at luminosity `l` in `[0, ONE]`, in `[0, ONE]`.
pub open spec fn saturation_shape(c: SaturationCurve, l: int) -> int {
    match c {
        SaturationCurve::Flat => ONE / 2,
        SaturationCurve::LinearUp => l,
        SaturationCurve::LinearDown => ONE - l,
        SaturationCurve::Extremes => pow_three_halves(distance_from_middle(l)),
        SaturationCurve::Midtones => ONE - pow_three_halves(distance_from_middle(l)),
        SaturationCurve::DarkSaturated => pow_seven_tenths(ONE - l),
        SaturationCurve::LightSaturated => pow_seven_tenths(l),
    }
}

/// The chroma to add: the shape at the luminosity (limited to `[0, ONE]`) times `strength`
/// times 0.15.
pub open spec fn saturation_amount(c: SaturationCurve, luminosity: int, strength: int) -> int {
    saturation_shape(c, clamp_int(luminosity, 0, ONE as int)) * strength * 15 / (100 * ONE)
}

impl SaturationCurve {
    /// The chroma to add at a luminosity from 0 (black) to `ONE` (white); a luminosity
    /// outside that range is limited to it. A `strength` of `ONE` adds at most 0.15.
    pub fn evaluate(&self, luminosity: i64, strength: i64) -> (r: i64)
        ensures
            r == saturation_amount(*self, luminosity as int, strength as int),
    {
        let l: i64 = if luminosity < 0 {
            0
        } else if luminosity > ONE {
            ONE
        } else {
            luminosity
        };
        let dm: i64 = if 2 * l >= ONE { 2 * l - ONE } else { ONE - 2 * l };
        let shape: i64 = match self {
            SaturationCurve::Flat => ONE / 2,
            SaturationCurve::LinearUp => l,
            SaturationCurve::LinearDown => ONE - l,
            SaturationCurve::Extremes => pow_three_halves_fixed(dm),
            SaturationCurve::Midtones => ONE - pow_three_halves_fixed(dm),
            SaturationCurve::DarkSaturated => pow_seven_tenths_fixed(ONE - l),
            SaturationCurve::LightSaturated => pow_seven_tenths_fixed(l),
        };
        assert(-0x8000_0000_0000_0000 * ONE <= shape * strength <= 0x7fff_ffff_ffff_ffff * ONE) by (nonlinear_arith)
            requires
                0 <= shape <= ONE,
                -0x8000_0000_0000_0000 <= strength <= 0x7fff_ffff_ffff_ffff,
        ;
        proof {
            lemma_div_between(shape * strength * 15, 100 * ONE, -0x8000_0000_0000_0000, 0x7fff_ffff_ffff_ffff);
        }
        div_floor((shape as i128) * (strength as i128) * 15, 100 * (ONE as i128)) as i64
    }

    /// The name shown for the curve.
    pub fn name(&self) -> (r: &'static str)
        ensures
            *self == SaturationCurve::Flat ==> r@ == "Flat (no change)"@,
            *self == SaturationCurve::LinearUp ==> r@ == "Linear + (light more sat)"@,
            *self == SaturationCurve::LinearDown ==> r@ == "Linear - (dark more sat)"@,
            *self == SaturationCurve::Extremes ==> r@ == "Extremes (U-curve)"@,
            *self == SaturationCurve::Midtones ==> r@ == "Midtones (reverse U-curve)"@,
            *self == SaturationCurve::DarkSaturated ==> r@ == "Dark saturated"@,
            *self == SaturationCurve::LightSaturated ==> r@ == "Light saturated"@,
    {
        match self {
            SaturationCurve::Flat => "Flat (no change)",
            SaturationCurve::LinearUp => "Linear + (light more sat)",
            SaturationCurve::LinearDown => "Linear - (dark more sat)",
            SaturationCurve::Extremes => "Extremes (U-curve)",
            SaturationCurve::Midtones => "Midtones (reverse U-curve)",
            SaturationCurve::DarkSaturated => "Dark saturated",
            SaturationCurve::LightSaturated => "Light saturated",
        }
    }

    /// Every saturation curve, in the order in which they are offered.
    pub fn all() -> (r: Vec<SaturationCurve>)
        ensures
            r@ == seq![
                SaturationCurve::Flat,
                SaturationCurve::LinearUp,
                SaturationCurve::LinearDown,
                SaturationCurve::Extremes,
                SaturationCurve::Midtones,
                SaturationCurve::DarkSaturated,
                SaturationCurve::LightSaturated,
            ],
    {
        vec![
            SaturationCurve::Flat,
            SaturationCurve::LinearUp,
            SaturationCurve::LinearDown,
            SaturationCurve::Extremes,
            SaturationCurve::Midtones,
            SaturationCurve::DarkSaturated,
            SaturationCurve::LightSaturated,
        ]
    }
}

/// Where along the range from dark to light a hue shift is strongest.
#[derive(Clone, Copy, Debug, PartialEq, Eq, Structural)]
pub enum HueShiftCurve {
    /// Nothing in the middle, full at both ends.
    Extremes,
    /// The same everywhere.
    Flat,
    /// Rising from dark to light.
    LinearUp,
    /// Falling from dark to light.
    LinearDown,
    /// Strongest in the shadows, with a smooth falloff.
    Shadows,
    /// Strongest in the highlights, with a smooth falloff.
    Highlights,
    /// Strongest in the middle.
    Midtones,
}

/// The strength of a hue shift curve at luminosity `l` in `[0, ONE]`, in `[0, ONE]`.
pub open spec fn hue_shift_strength(c: HueShiftCurve, l: int) -> int {
    match c {
        HueShiftCurve::Extremes => distance_from_middle(l),
        HueShiftCurve::Flat => ONE as int,
        HueShiftCurve::LinearUp => l,
        HueShiftCurve::LinearDown => ONE - l,
        HueShiftCurve::Shadows => sqrt_fx(ONE - l),
        HueShiftCurve::Highlights => sqrt_fx(l),
        HueShiftCurve::Midtones => ONE - pow_three_halves(distance_from_middle(l)),
    }
}

impl HueShiftCurve {
    /// The multiplier of the hue shift at a luminosity from 0 (black) to `ONE` (white); a
    /// luminosity outside that range is limited to it. The result is in `[0, ONE]`.
    pub fn evaluate(&self, luminosity: i64) -> (r: i64)
        ensures
            r == hue_shift_strength(*self, clamp_int(luminosity as int, 0, ONE as int)),
            0 <= r <= ONE,
    {
        let l: i64 = if luminosity < 0 {
            0
        } else if luminosity > ONE {
            ONE
        } else {
            luminosity
        };
        let dm: i64 = if 2 * l >= ONE { 2 * l - ONE } else { ONE - 2 * l };
        match self {
            HueShiftCurve::Extremes => dm,
            HueShiftCurve::Flat => ONE,
            HueShiftCurve::LinearUp => l,
            HueShiftCurve::LinearDown => ONE - l,
            HueShiftCurve::Shadows => sqrt_fixed(ONE - l),
            HueShiftCurve::Highlights => sqrt_fixed(l),
            HueShiftCurve::Midtones => ONE - pow_three_halves_fixed(dm),
        }
    }

    /// The name shown for the curve.
    pub fn name(&self) -> (r: &'static str)
        ensures
            *self == HueShiftCurve::Extremes ==> r@ == "Extremes (default)"@,
            *self == HueShiftCurve::Flat ==> r@ == "Flat (uniform)"@,
            *self == HueShiftCurve::LinearUp ==> r@ == "Linear up"@,
            *self == HueShiftCurve::LinearDown ==> r@ == "Linear down"@,
            *self == HueShiftCurve::Shadows ==> r@ == "Shadows"@,
            *self == HueShiftCurve::Highlights ==> r@ == "Highlights"@,
            *self == HueShiftCurve::Midtones ==> r@ == "Midtones"@,
    {
        match self {
            HueShiftCurve::Extremes => "Extremes (default)",
            HueShiftCurve::Flat => "Flat (uniform)",
            HueShiftCurve::LinearUp => "Linear up",
            HueShiftCurve::LinearDown => "Linear down",
            HueShiftCurve::Shadows => "Shadows",
            HueShiftCurve::Highlights => "Highlights",
            HueShiftCurve::Midtones => "Midtones",
        }
    }

    /// Every hue shift curve, in the order in which they are offered.
    pub fn all() -> (r: Vec<HueShiftCurve>)
        ensures
            r@ == seq![
                HueShiftCurve::Extremes,
                HueShiftCurve::Flat,
                HueShiftCurve::LinearUp,
                HueShiftCurve::LinearDown,
                HueShiftCurve::Shadows,
                HueShiftCurve::Highlights,
                HueShiftCurve::Midtones,
            ],
    {
        vec![
            HueShiftCurve::Extremes,
            HueShiftCurve::Flat,
            HueShiftCurve::LinearUp,
            HueShiftCurve::LinearDown,
            HueShiftCurve::Shadows,
            HueShiftCurve::Highlights,
            HueShiftCurve::Midtones,
        ]
    }
}

/// The luminosity of point `i` of `n` plotted points: `i / (n - 1)`, or zero for one point.
pub open spec fn plot_x(n: int, i: int) -> int {
    if n > 1 {
        i * ONE / (n - 1)
    } else {
        0
    }
}

/// Points `(luminosity, saturation to add)` of a saturation curve, evenly spaced from 0 to
/// `ONE`, for drawing it.
pub fn plot_curve(curve: SaturationCurve, strength: i64, num_points: usize) -> (r: Vec<(i64, i64)>)
    ensures
        r@.len() == num_points,
        forall|i: int| 0 <= i < num_points ==> (#[trigger] r@[i]).0 == plot_x(num_points as int, i) && r@[i].1
            == saturation_amount(curve, plot_x(num_points as int, i), strength as int),
{
    let mut points: Vec<(i64, i64)> = Vec::new();
    let mut i: usize = 0;
    while i < num_points
        invariant
            i <= num_points,
            points@.len() == i,
            forall|j: int| 0 <= j < i ==> (#[trigger] points@[j]).0 == plot_x(num_points as int, j) && points@[j].1
                == saturation_amount(curve, plot_x(num_points as int, j), strength as int),
        decreases num_points - i,
    {
        let x: i64 = if num_points > 1 {
            assert(0 <= i * ONE < (num_points - 1) * (ONE + 1)) by (nonlinear_arith)
                requires
                    0 <= i <= num_points - 1,
                    num_points > 1,
            ;
            proof {
                lemma_div_between(i * ONE, num_points - 1, 0, ONE as int);
            }
            ((i as u128) * (ONE as u128) / ((num_points - 1) as u128)) as i64
        } else {
            0
        };
        let y = curve.evaluate(x, strength);
        points.push((x, y));
        i = i + 1;
    }
    points
}

} // verus!
