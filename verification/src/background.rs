//! The background shader: sky gradient, solid sun disk, black water, and
//! the sun's dim reflection ellipse.
//!
//! Everything is computed exactly on integers. The canvas diagonal is
//! `sqrt(640^2 + 480^2) = 800` exactly, so the gradient's normalization
//! denominator `800 / 1.5` is the rational `1600 / 3`, and the brightness
//! rank of a sky pixel reduces to an integer formula over the floor of
//! `3 * distance` (see [`sky_rank`]).

use crate::color::base_color;
use crate::color::palette_color;
use crate::color::rank_of;
use crate::color::Color;
use crate::color::Hue;
use crate::color::Palette;
use crate::geom::isqrt;
use crate::geom::lemma_sqrt_floor_bounds;
use crate::geom::sqrt_floor;
use crate::HEIGHT;
use crate::LINES_TOP;
use crate::SUN_POSITION_Y;
use crate::SUN_RADIUS;
use crate::SUN_REFLECTION_A;
use crate::SUN_REFLECTION_B;
use crate::WIDTH;
use vstd::math::min;
use vstd::prelude::*;

verus! {

/// Squared Euclidean distance from a pixel to the sun's center.
pub open spec fn sun_dist_sq(x: int, y: int) -> int {
    let dx = x - WIDTH as int / 2;
    let dy = y - SUN_POSITION_Y as int;
    dx * dx + dy * dy
}

/// Whether a pixel lies strictly inside the sun's reflection ellipse:
/// the standard inequality `(dx/a)^2 + (dy/b)^2 < 1`, cross-multiplied so
/// it is exact on integers.
pub open spec fn in_reflection_ellipse(x: int, y: int) -> bool {
    let dx = x - WIDTH as int / 2;
    let dy = y - SUN_POSITION_Y as int;
    let a = SUN_REFLECTION_A as int;
    let b = SUN_REFLECTION_B as int;
    dx * dx * (b * b) + dy * dy * (a * a) < (a * a) * (b * b)
}

/// The brightness rank of a sky pixel. Inside the solid sun disk the
/// intensity is 1.0, so the rank is 0. Outside it, the intensity is
/// `max(0, 0.65 - d / (1600/3))` for distance `d` from the sun's center,
/// and the rank `round((1 - intensity) * 4)` simplifies to
/// `floor((760 + 3*d) / 400)` clamped at 4; since `400` is an integer,
/// `3*d` may be replaced by its floor, the integer square root of
/// `9 * d^2`, without changing the result.
pub open spec fn sky_rank(x: int, y: int) -> int {
    if sun_dist_sq(x, y) <= SUN_RADIUS as int * SUN_RADIUS as int {
        0
    } else {
        min(4, (760 + sqrt_floor(9 * sun_dist_sq(x, y))) / 400)
    }
}

/// The background color of a pixel. Rows below the horizon are water:
/// black, except for the dim red glow inside the reflection ellipse.
/// Rows at or above the horizon are sky: a red gradient falling off with
/// distance from the sun, with a solid bright disk at the center.
pub open spec fn spec_background(x: int, y: int) -> Color {
    if y > LINES_TOP as int {
        if in_reflection_ellipse(x, y) {
            palette_color(Hue::Red, rank_of(200))
        } else {
            palette_color(Hue::Red, rank_of(0))
        }
    } else {
        palette_color(Hue::Red, sky_rank(x, y))
    }
}

/// Compute the background color of a canvas pixel.
pub fn background(x: i32, y: i32, pal: &Palette) -> (c: Color)
    requires
        0 <= x < WIDTH,
        0 <= y < HEIGHT,
        pal.wf(),
    ensures
        c == spec_background(x as int, y as int),
{
    let dx: i64 = (x - WIDTH / 2) as i64;
    let dy: i64 = (y - SUN_POSITION_Y) as i64;
    proof {
        assert(0 <= dx * dx <= 102400 && 0 <= dy * dy <= 67600) by (nonlinear_arith)
            requires
                -320 <= dx <= 319,
                -220 <= dy <= 259,
        ;
    }
    if y > LINES_TOP {
        let a: i64 = SUN_REFLECTION_A as i64;
        let b: i64 = SUN_REFLECTION_B as i64;
        proof {
            assert(0 <= dx * dx * (b * b) <= 12544000000 && 0 <= dy * dy * (a * a) <= 676000000)
                by (nonlinear_arith)
                requires
                    0 <= dx * dx <= 102400,
                    0 <= dy * dy <= 67600,
                    a == 100,
                    b == 350,
            ;
        }
        if dx * dx * (b * b) + dy * dy * (a * a) < (a * a) * (b * b) {
            pal.color(Hue::Red, 200)
        } else {
            pal.color(Hue::Red, 0)
        }
    } else {
        let s: i64 = dx * dx + dy * dy;
        if s <= (SUN_RADIUS * SUN_RADIUS) as i64 {
            pal.color_rank(Hue::Red, 0)
        } else {
            let r: u64 = isqrt((9 * s) as u64);
            proof {
                lemma_sqrt_floor_bounds(9 * s as int);
                assert(r < 1300) by (nonlinear_arith)
                    requires
                        (r as int) * (r as int) <= 9 * (s as int),
                        s <= 170000,
                ;
            }
            let q: u64 = (760 + r) / 400;
            let rank: u8 = if q >= 4 {
                4
            } else {
                q as u8
            };
            pal.color_rank(Hue::Red, rank)
        }
    }
}

/// Law: below the horizon, a pixel inside the reflection ellipse is the
/// dim red glow (intensity 0.2, rank 3) and a pixel outside it is black.
pub proof fn lemma_background_water(x: int, y: int)
    requires
        y > LINES_TOP as int,
    ensures
        rank_of(200) == 3,
        in_reflection_ellipse(x, y) ==> spec_background(x, y) == palette_color(Hue::Red, 3),
        !in_reflection_ellipse(x, y) ==> spec_background(x, y) == (Color { r: 0, g: 0, b: 0 }),
{
    crate::color::lemma_palette_zero_intensity(Hue::Red);
}

/// Law: a sky pixel on or inside the solid sun disk has the full-intensity
/// base color.
pub proof fn lemma_background_sun_disk(x: int, y: int)
    requires
        y <= LINES_TOP as int,
        sun_dist_sq(x, y) <= SUN_RADIUS as int * SUN_RADIUS as int,
    ensures
        spec_background(x, y) == base_color(Hue::Red),
{
    crate::color::lemma_palette_full_intensity(Hue::Red);
}

} // verus!
