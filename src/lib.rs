//! Color ramp generation from anchor colors, in fixed-point arithmetic.
//!
//! A ramp (swatch) holds control points, each a color at a position from 0 (the bright end)
//! to `ONE` (the dark end). It generates a fixed number of colors by blending between the
//! points and shifting beyond them, in RGB or in the perceptual OkLab and OkLCh spaces, with
//! an easing curve. A palette holds ramps, and the application state keeps each ramp's
//! generated colors in step with it.
use vstd::prelude::*;

pub mod app;
pub mod color;
pub mod color_fun;
pub mod curves;
pub mod editing;
pub mod fixed;
pub mod oklab;
pub mod palette;
pub mod trig;

pub use app::App;
pub use color::{extrapolate_color, lerp_color, ColorRgba, ColorSpace};
pub use curves::{
    plot_curve, Bezier, CurveKind, CurveType, EaseIn, EaseInOut, EaseOut, HueShiftCurve, Linear,
    SaturationCurve,
};
pub use editing::{sample_colors, DragDropResult, DragDropState, HexEditState};
pub use fixed::ONE;
pub use oklab::{oklab_to_rgb, oklch_to_rgb, rgb_to_oklab, rgb_to_oklch};
pub use palette::{ControlPoint, Palette, Swatch};

verus! {

} // verus!
