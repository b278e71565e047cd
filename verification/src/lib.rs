//! Procedural renderer for a stylized "sunset over water" animation.
//!
//! Each frame is derived from a single animation offset: a radially shaded
//! sky and sun, a perspective grid of converging lines over the water, and a
//! scanline darkening pass. All shading arithmetic is carried out exactly on
//! integers (the shading ratios are rationals), so every stage is a pure,
//! fully specified function of its inputs.

use vstd::prelude::*;

pub mod background;
pub mod color;
pub mod geom;
pub mod grid;
pub mod render;

verus! {

/// Canvas width in pixels.
pub const WIDTH: i32 = 640;

/// Canvas height in pixels.
pub const HEIGHT: i32 = 480;

/// Vertical position of the sun's center.
pub const SUN_POSITION_Y: i32 = 220;

/// Radius of the solid bright sun disk.
pub const SUN_RADIUS: i32 = 75;

/// Number of vertical grid lines (one more than this is drawn, so the
/// fan of lines is symmetric around the canvas center).
pub const N_VERT_LINES: i32 = 80;

/// The y coordinate of the horizon: rows above it (smaller y) are sky,
/// rows below it are water carrying the grid.
pub const LINES_TOP: i32 = 240;

/// Maximum distance between two horizontal grid lines (near the bottom).
pub const LINES_MAX_DISTANCE: u32 = 50;

/// Minimum distance between two horizontal grid lines (near the horizon).
pub const LINES_MIN_DISTANCE: u32 = 10;

/// Horizontal semi-axis of the sun's reflection ellipse.
pub const SUN_REFLECTION_A: i32 = 100;

/// Vertical semi-axis of the sun's reflection ellipse.
pub const SUN_REFLECTION_B: i32 = 350;

/// The animation scroll speed has a minimum so the top line keeps moving:
/// the speed factor is `dist_from_top + MIN_SPEED_NUM / MIN_SPEED_DEN`,
/// where the added term is the rational 1/5.
pub const MIN_SPEED_NUM: i32 = 1;

/// Denominator of the minimum-speed rational; see [`MIN_SPEED_NUM`].
pub const MIN_SPEED_DEN: i32 = 5;

} // verus!
