//! Frame rendering: the background fill, grid painting, and the scanline
//! pass, composed into one deterministic function of the frame offset.

use crate::background::background;
use crate::background::spec_background;
use crate::color::palette_color;
use crate::color::Color;
use crate::color::Hue;
use crate::color::Palette;
use crate::geom::coord_ok;
use crate::geom::dda_points;
use crate::geom::rasterize;
use crate::geom::Point;
use crate::grid::grid_segments;
use crate::grid::lemma_scan_rows_props;
use crate::grid::scan_offset_row;
use crate::grid::scan_rows;
use crate::grid::scan_segments;
use crate::grid::spec_grid;
use crate::grid::vert_segment;
use crate::HEIGHT;
use crate::LINES_MAX_DISTANCE;
use crate::LINES_TOP;
use crate::WIDTH;
use vstd::pervasive::VecAdditionalExecFns;
use vstd::prelude::*;

verus! {

/// Index of pixel `(x, y)` in the row-major frame buffer.
pub open spec fn pixel_index(x: int, y: int) -> int {
    y * WIDTH as int + x
}

/// The color the grid lines are painted with: cyan at full intensity.
pub open spec fn grid_color() -> Color {
    palette_color(Hue::Cyan, 0)
}

/// Every channel halved by truncating integer division.
pub open spec fn halve(c: Color) -> Color {
    Color { r: (c.r / 2) as u8, g: (c.g / 2) as u8, b: (c.b / 2) as u8 }
}

/// Whether one of the pixels in `pts` is `(x, y)`.
pub open spec fn covers(pts: Seq<Point>, x: int, y: int) -> bool {
    exists|k: int| 0 <= k < pts.len() && pts[k].x == x && pts[k].y == y
}

/// Whether one of the first `j` grid segments of the frame with offset
/// `v` covers the pixel `(x, y)`.
pub open spec fn covers_upto(v: int, j: int, x: int, y: int) -> bool {
    exists|t: int| 0 <= t < j && covers(dda_points(#[trigger] spec_grid(v)[t]), x, y)
}

/// Whether the grid of the frame with offset `v` covers pixel `(x, y)`.
pub open spec fn grid_covers(v: int, x: int, y: int) -> bool {
    covers_upto(v, spec_grid(v).len() as int, x, y)
}

/// The scanline pass on one pixel: even rows are darkened, except pixels
/// that carry the grid color, which stay crisp; odd rows are untouched.
pub open spec fn scanline_pixel(y: int, c: Color) -> Color {
    if y % 2 == 0 && c != grid_color() {
        halve(c)
    } else {
        c
    }
}

/// The final color of canvas pixel `(x, y)` in the frame with offset `v`:
/// the background, overpainted by the grid where the grid covers it, then
/// run through the scanline pass.
pub open spec fn spec_pixel(v: int, x: int, y: int) -> Color {
    let painted = if grid_covers(v, x, y) {
        grid_color()
    } else {
        spec_background(x, y)
    };
    scanline_pixel(y, painted)
}

/// The whole frame with offset `v`, row-major.
pub open spec fn spec_frame(v: int) -> Seq<Color> {
    Seq::new(
        (WIDTH * HEIGHT) as nat,
        |i: int| spec_pixel(v, i % (WIDTH as int), i / (WIDTH as int)),
    )
}

/// The grid's paint color as an executable value.
fn grid_paint_color() -> (c: Color)
    ensures
        c == grid_color(),
{
    proof {
        crate::color::lemma_palette_full_intensity(Hue::Cyan);
    }
    Color { r: 0, g: 200, b: 190 }
}

/// Fill a fresh buffer with the background of every canvas pixel.
#[verifier::loop_isolation(false)]
fn fill_background(pal: &Palette) -> (buf: Vec<Color>)
    requires
        pal.wf(),
    ensures
        buf@.len() == WIDTH * HEIGHT,
        forall|x: int, y: int|
            0 <= x < WIDTH && 0 <= y < HEIGHT ==> buf@[pixel_index(x, y)] == #[trigger]
            spec_background(x, y),
{
    let mut buf: Vec<Color> = Vec::new();
    let mut y: i32 = 0;
    while y < HEIGHT
        invariant
            0 <= y <= HEIGHT,
            buf@.len() == y * WIDTH,
            forall|xx: int, yy: int|
                0 <= xx < WIDTH && 0 <= yy < y ==> buf@[pixel_index(xx, yy)] == #[trigger]
                spec_background(xx, yy),
        decreases HEIGHT - y,
    {
        let mut x: i32 = 0;
        while x < WIDTH
            invariant
                0 <= x <= WIDTH,
                0 <= y < HEIGHT,
                buf@.len() == y * WIDTH + x,
                forall|xx: int, yy: int|
                    0 <= xx < WIDTH && 0 <= yy < y ==> buf@[pixel_index(xx, yy)] == #[trigger]
                    spec_background(xx, yy),
                forall|xx: int|
                    0 <= xx < x ==> buf@[pixel_index(xx, y as int)] == #[trigger] spec_background(
                        xx,
                        y as int,
                    ),
            decreases WIDTH - x,
        {
            buf.push(background(x, y, pal));
            x = x + 1;
        }
        y = y + 1;
    }
    buf
}

/// Paint the in-canvas pixels of `pts` with the grid color; pixels the
/// rasterizer produced outside the canvas are discarded.
#[verifier::loop_isolation(false)]
fn paint_points(buf: &mut Vec<Color>, pts: &Vec<Point>)
    requires
        old(buf)@.len() == WIDTH * HEIGHT,
    ensures
        final(buf)@.len() == old(buf)@.len(),
        forall|x: int, y: int|
            0 <= x < WIDTH && 0 <= y < HEIGHT ==> final(buf)@[pixel_index(x, y)] == (if covers(
                pts@,
                x,
                y,
            ) {
                grid_color()
            } else {
                old(buf)@[pixel_index(x, y)]
            }),
{
    let mut k: usize = 0;
    while k < pts.len()
        invariant
            0 <= k <= pts@.len(),
            buf@.len() == old(buf)@.len(),
            forall|x: int, y: int|
                0 <= x < WIDTH && 0 <= y < HEIGHT ==> buf@[pixel_index(x, y)] == (if covers(
                    pts@.take(k as int),
                    x,
                    y,
                ) {
                    grid_color()
                } else {
                    old(buf)@[pixel_index(x, y)]
                }),
        decreases pts@.len() - k,
    {
        let ghost prefix = pts@.take(k as int);
        let p = pts[k];
        if p.x >= 0 && p.x < WIDTH && p.y >= 0 && p.y < HEIGHT {
            let idx: usize = (p.y as usize) * (WIDTH as usize) + (p.x as usize);
            buf.set(idx, grid_paint_color());
        }
        proof {
            assert(pts@.take(k as int + 1) =~= prefix.push(pts@[k as int]));
            assert forall|x: int, y: int| 0 <= x < WIDTH && 0 <= y < HEIGHT implies buf@[pixel_index(
                x,
                y,
            )] == (if covers(pts@.take(k as int + 1), x, y) {
                grid_color()
            } else {
                old(buf)@[pixel_index(x, y)]
            }) by {
                let cur = pts@.take(k as int + 1);
                if covers(cur, x, y) {
                    let w = choose|t: int| 0 <= t < cur.len() && cur[t].x == x && cur[t].y == y;
                    if w < k {
                        assert(prefix[w].x == x && prefix[w].y == y);
                        assert(covers(prefix, x, y));
                    } else {
                        assert(p.x == x && p.y == y);
                    }
                } else {
                    assert(!covers(prefix, x, y)) by {
                        if covers(prefix, x, y) {
                            let w = choose|t: int|
                                0 <= t < prefix.len() && prefix[t].x == x && prefix[t].y == y;
                            assert(cur[w].x == x && cur[w].y == y);
                        }
                    }
                    assert(!(p.x == x && p.y == y)) by {
                        if p.x == x && p.y == y {
                            assert(cur[k as int].x == x && cur[k as int].y == y);
                        }
                    }
                }
            }
        }
        k = k + 1;
    }
    proof {
        assert(pts@.take(pts@.len() as int) =~= pts@);
    }
}

/// One color of the frame run through the scanline rule, executably.
fn scanline_color(y: i32, c: Color) -> (d: Color)
    requires
        0 <= y,
    ensures
        d == scanline_pixel(y as int, c),
{
    let cyan = grid_paint_color();
    if y % 2 == 0 && !(c == cyan) {
        Color { r: c.r / 2, g: c.g / 2, b: c.b / 2 }
    } else {
        c
    }
}

/// Darken every even row, leaving grid-colored pixels untouched.
#[verifier::loop_isolation(false)]
pub fn apply_scanlines(buf: &mut Vec<Color>)
    requires
        old(buf)@.len() == WIDTH * HEIGHT,
    ensures
        final(buf)@.len() == old(buf)@.len(),
        forall|x: int, y: int|
            0 <= x < WIDTH && 0 <= y < HEIGHT ==> final(buf)@[pixel_index(x, y)]
                == scanline_pixel(y, old(buf)@[#[trigger] pixel_index(x, y)]),
{
    let mut y: i32 = 0;
    while y < HEIGHT
        invariant
            0 <= y <= HEIGHT,
            buf@.len() == old(buf)@.len(),
            forall|xx: int, yy: int|
                0 <= xx < WIDTH && 0 <= yy < y ==> buf@[pixel_index(xx, yy)] == scanline_pixel(
                    yy,
                    old(buf)@[#[trigger] pixel_index(xx, yy)],
                ),
            forall|xx: int, yy: int|
                0 <= xx < WIDTH && y <= yy < HEIGHT ==> buf@[pixel_index(xx, yy)] == old(
                    buf,
                )@[#[trigger] pixel_index(xx, yy)],
        decreases HEIGHT - y,
    {
        let mut x: i32 = 0;
        while x < WIDTH
            invariant
                0 <= x <= WIDTH,
                0 <= y < HEIGHT,
                buf@.len() == old(buf)@.len(),
                forall|xx: int, yy: int|
                    0 <= xx < WIDTH && 0 <= yy < y ==> buf@[pixel_index(xx, yy)] == scanline_pixel(
                        yy,
                        old(buf)@[#[trigger] pixel_index(xx, yy)],
                    ),
                forall|xx: int|
                    0 <= xx < x ==> buf@[pixel_index(xx, y as int)] == scanline_pixel(
                        y as int,
                        old(buf)@[#[trigger] pixel_index(xx, y as int)],
                    ),
                forall|xx: int|
                    x <= xx < WIDTH ==> buf@[pixel_index(xx, y as int)] == old(buf)@[#[trigger]
                    pixel_index(xx, y as int)],
                forall|xx: int, yy: int|
                    0 <= xx < WIDTH && y < yy < HEIGHT ==> buf@[pixel_index(xx, yy)] == old(
                        buf,
                    )@[#[trigger] pixel_index(xx, yy)],
            decreases WIDTH - x,
        {
            let idx: usize = (y as usize) * (WIDTH as usize) + (x as usize);
            let c = buf[idx];
            buf.set(idx, scanline_color(y, c));
            x = x + 1;
        }
        y = y + 1;
    }
}

/// Law: the scanline pass halves every channel of a non-grid-colored
/// pixel on an even row, and leaves grid-colored pixels and odd rows
/// exactly as they were.
pub proof fn lemma_scanline_rule(y: int, c: Color)
    ensures
        y % 2 == 0 && c != grid_color() ==> scanline_pixel(y, c) == (Color {
            r: (c.r / 2) as u8,
            g: (c.g / 2) as u8,
            b: (c.b / 2) as u8,
        }),
        y % 2 == 0 && c == grid_color() ==> scanline_pixel(y, c) == c,
        y % 2 != 0 ==> scanline_pixel(y, c) == c,
{
}

/// The frame buffer entry at `pixel_index(x, y)` is the pixel the
/// pipeline specifies for `(x, y)`.
pub proof fn lemma_frame_pixel(v: int, x: int, y: int)
    requires
        0 <= x < WIDTH as int,
        0 <= y < HEIGHT as int,
    ensures
        0 <= pixel_index(x, y) < WIDTH * HEIGHT,
        spec_frame(v)[pixel_index(x, y)] == spec_pixel(v, x, y),
{
    let i = pixel_index(x, y);
    vstd::arithmetic::div_mod::lemma_fundamental_div_mod_converse_div(i, WIDTH as int, y, x);
    vstd::arithmetic::div_mod::lemma_fundamental_div_mod_converse_mod(i, WIDTH as int, y, x);
}

/// Every endpoint the grid generator produces is within the rasterizer's
/// coordinate range.
proof fn lemma_grid_coords(v: int)
    requires
        0 <= v < LINES_MAX_DISTANCE as int,
    ensures
        forall|j: int|
            0 <= j < spec_grid(v).len() ==> coord_ok((#[trigger] spec_grid(v)[j]).start)
                && coord_ok(spec_grid(v)[j].end),
{
    let g = spec_grid(v);
    let rows = scan_rows(LINES_TOP as int, LINES_TOP as int);
    lemma_scan_rows_props(LINES_TOP as int, LINES_TOP as int);
    assert forall|j: int| 0 <= j < g.len() implies coord_ok((#[trigger] g[j]).start) && coord_ok(
        g[j].end,
    ) by {
        if j < 81 {
            assert(g[j] == vert_segment(j - 40));
        } else if j >= 83 {
            let r = rows[j - 83];
            assert(g[j] == scan_segments(rows, v)[j - 83]);
            assert(LINES_TOP as int <= r < HEIGHT as int);
            assert(0 <= v * (5 * r - 960) <= 70560) by (nonlinear_arith)
                requires
                    0 <= v < 50,
                    240 <= r < 480,
            ;
            vstd::arithmetic::div_mod::lemma_div_is_ordered(0, v * (5 * r - 960), 1200);
            vstd::arithmetic::div_mod::lemma_div_is_ordered(v * (5 * r - 960), 70560, 1200);
            assert(240 <= scan_offset_row(r, v) <= 537);
        }
    }
}

/// Render the complete frame for animation offset `v`. The result is a
/// function of `v` alone, so rendering the same offset twice yields
/// byte-identical frames.
#[verifier::loop_isolation(false)]
pub fn render_frame(v: u32) -> (frame: Vec<Color>)
    requires
        v < LINES_MAX_DISTANCE,
    ensures
        frame@ == spec_frame(v as int),
{
    let pal = Palette::new();
    let mut buf = fill_background(&pal);
    let segs = grid_segments(v);
    let mut j: usize = 0;
    while j < segs.len()
        invariant
            0 <= j <= segs@.len(),
            segs@ == spec_grid(v as int),
            buf@.len() == WIDTH * HEIGHT,
            forall|x: int, y: int|
                0 <= x < WIDTH && 0 <= y < HEIGHT ==> buf@[#[trigger] pixel_index(x, y)] == (
                if covers_upto(v as int, j as int, x, y) {
                    grid_color()
                } else {
                    spec_background(x, y)
                }),
        decreases segs@.len() - j,
    {
        proof {
            lemma_grid_coords(v as int);
        }
        let ghost prev = buf@;
        let pts = rasterize(segs[j]);
        paint_points(&mut buf, &pts);
        proof {
            assert forall|x: int, y: int| 0 <= x < WIDTH && 0 <= y < HEIGHT implies buf@[#[trigger]
            pixel_index(x, y)] == (if covers_upto(v as int, j as int + 1, x, y) {
                grid_color()
            } else {
                spec_background(x, y)
            }) by {
                if covers_upto(v as int, j as int + 1, x, y) {
                    let t = choose|t: int|
                        0 <= t < j as int + 1 && covers(dda_points(spec_grid(v as int)[t]), x, y);
                    if t == j as int {
                        assert(covers(pts@, x, y));
                    } else {
                        assert(covers_upto(v as int, j as int, x, y));
                    }
                } else {
                    assert(!covers(pts@, x, y));
                    assert(!covers_upto(v as int, j as int, x, y)) by {
                        if covers_upto(v as int, j as int, x, y) {
                            let t = choose|t: int|
                                0 <= t < j as int && covers(
                                    dda_points(spec_grid(v as int)[t]),
                                    x,
                                    y,
                                );
                            assert(0 <= t < j as int + 1 && covers(
                                dda_points(spec_grid(v as int)[t]),
                                x,
                                y,
                            ));
                        }
                    }
                }
            }
        }
        j = j + 1;
    }
    apply_scanlines(&mut buf);
    proof {
        assert(buf@ =~= spec_frame(v as int)) by {
            assert forall|i: int| 0 <= i < WIDTH * HEIGHT implies buf@[i] == spec_frame(
                v as int,
            )[i] by {
                let x = i % (WIDTH as int);
                let y = i / (WIDTH as int);
                assert(0 <= x < WIDTH && 0 <= y < HEIGHT && pixel_index(x, y) == i);
            }
        }
    }
    buf
}

} // verus!
