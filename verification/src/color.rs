//! Colors, hues, and the fixed 3x5 palette.
//!
//! The palette holds, for each of the three base hues, a gradient of five
//! colors from the base color down to pure black. Rank 0 is the brightest
//! (the base color itself) and rank 4 is always black. Darkening multiplies
//! every channel by `(4 - rank) / 4`, truncating toward zero.

use vstd::arithmetic::div_mod::lemma_div_is_ordered;
use vstd::arithmetic::div_mod::lemma_fundamental_div_mod_converse_div;
use vstd::arithmetic::div_mod::lemma_fundamental_div_mod_converse_mod;
use vstd::arithmetic::mul::lemma_mul_inequality;
use vstd::prelude::*;

verus! {

/// One pixel color: three 8-bit channels, immutable once constructed.
#[derive(Clone, Copy, PartialEq, Eq, Structural, Debug)]
pub struct Color {
    pub r: u8,
    pub g: u8,
    pub b: u8,
}

/// The three base hues; each selects one row of the palette.
#[derive(Clone, Copy, PartialEq, Eq, Structural, Debug)]
pub enum Hue {
    Blue,
    Cyan,
    Red,
}

/// The base (rank 0) color of each hue.
pub open spec fn base_color(h: Hue) -> Color {
    match h {
        Hue::Blue => Color { r: 47, g: 24, b: 200 },
        Hue::Cyan => Color { r: 0, g: 200, b: 190 },
        Hue::Red => Color { r: 200, g: 0, b: 123 },
    }
}

/// A channel value darkened to a brightness rank: multiplied by
/// `(4 - rank) / 4`, truncating toward zero.
pub open spec fn shade_channel(v: u8, rank: int) -> int {
    (v * (4 - rank)) / 4
}

/// A whole color darkened to a brightness rank.
pub open spec fn shade_color(c: Color, rank: int) -> Color {
    Color {
        r: shade_channel(c.r, rank) as u8,
        g: shade_channel(c.g, rank) as u8,
        b: shade_channel(c.b, rank) as u8,
    }
}

/// The palette entry for a hue at a brightness rank.
pub open spec fn palette_color(h: Hue, rank: int) -> Color {
    shade_color(base_color(h), rank)
}

/// The brightness rank selected by an intensity given in thousandths:
/// `rank = round((1.0 - intensity) * 4.0)`, rounding halves up, so
/// intensity 1000 (that is, 1.0) picks rank 0 and intensity 0 picks rank 4.
pub open spec fn rank_of(milli: int) -> int {
    ((1000 - milli) * 8 + 1000) / 2000
}

/// The palette row occupied by a hue.
pub open spec fn hue_index(h: Hue) -> int {
    match h {
        Hue::Blue => 0,
        Hue::Cyan => 1,
        Hue::Red => 2,
    }
}

/// The hue occupying a palette row.
pub open spec fn hue_of_index(i: int) -> Hue {
    if i == 0 {
        Hue::Blue
    } else if i == 1 {
        Hue::Cyan
    } else {
        Hue::Red
    }
}

proof fn lemma_shade_channel_bounds(v: u8, rank: int)
    requires
        0 <= rank <= 4,
    ensures
        0 <= shade_channel(v, rank) <= v,
{
    lemma_mul_inequality(0, v as int, 4 - rank);
    lemma_mul_inequality(4 - rank, 4, v as int);
    assert(v * (4 - rank) == (4 - rank) * v) by (nonlinear_arith);
    lemma_div_is_ordered(0, v * (4 - rank), 4);
    lemma_div_is_ordered(v * (4 - rank), v * 4, 4);
    assert(v * 4 == 4 * (v as int)) by (nonlinear_arith);
    lemma_fundamental_div_mod_converse_div(4 * (v as int), 4, v as int, 0);
}

/// Darken a color to the given brightness rank.
pub fn shade(c: Color, rank: u8) -> (d: Color)
    requires
        rank <= 4,
    ensures
        d == shade_color(c, rank as int),
{
    proof {
        lemma_shade_channel_bounds(c.r, rank as int);
        lemma_shade_channel_bounds(c.g, rank as int);
        lemma_shade_channel_bounds(c.b, rank as int);
    }
    let factor: u32 = 4 - rank as u32;
    Color {
        r: ((c.r as u32 * factor) / 4) as u8,
        g: ((c.g as u32 * factor) / 4) as u8,
        b: ((c.b as u32 * factor) / 4) as u8,
    }
}

/// The base color of a hue as an executable value.
pub fn base(h: Hue) -> (c: Color)
    ensures
        c == base_color(h),
{
    match h {
        Hue::Blue => Color { r: 47, g: 24, b: 200 },
        Hue::Cyan => Color { r: 0, g: 200, b: 190 },
        Hue::Red => Color { r: 200, g: 0, b: 123 },
    }
}

fn hue_at(i: usize) -> (h: Hue)
    requires
        i < 3,
    ensures
        h == hue_of_index(i as int),
{
    if i == 0 {
        Hue::Blue
    } else if i == 1 {
        Hue::Cyan
    } else {
        Hue::Red
    }
}

/// The fixed palette: 15 colors, five brightness ranks for each of the
/// three hues, read-only after construction.
pub struct Palette {
    table: Vec<Color>,
}

impl Palette {
    /// The table holds exactly the 15 derived colors, row by row.
    pub closed spec fn wf(&self) -> bool {
        &&& self.table@.len() == 15
        &&& forall|i: int|
            0 <= i < 15 ==> #[trigger] self.table@[i] == palette_color(
                hue_of_index(i / 5),
                i % 5,
            )
    }

    /// Build the palette from the three base colors.
    pub fn new() -> (p: Palette)
        ensures
            p.wf(),
    {
        let mut table: Vec<Color> = Vec::new();
        let mut hi: usize = 0;
        while hi < 3
            invariant
                hi <= 3,
                table@.len() == 5 * hi,
                forall|i: int|
                    0 <= i < table@.len() ==> #[trigger] table@[i] == palette_color(
                        hue_of_index(i / 5),
                        i % 5,
                    ),
            decreases 3 - hi,
        {
            let h = hue_at(hi);
            let mut r: u8 = 0;
            while r < 5
                invariant
                    r <= 5,
                    hi < 3,
                    h == hue_of_index(hi as int),
                    table@.len() == 5 * hi + r,
                    forall|i: int|
                        0 <= i < table@.len() ==> #[trigger] table@[i] == palette_color(
                            hue_of_index(i / 5),
                            i % 5,
                        ),
                decreases 5 - r,
            {
                let c = shade(base(h), r);
                proof {
                    let idx = (5 * hi + r) as int;
                    lemma_fundamental_div_mod_converse_div(idx, 5, hi as int, r as int);
                    lemma_fundamental_div_mod_converse_mod(idx, 5, hi as int, r as int);
                }
                table.push(c);
                r = r + 1;
            }
            hi = hi + 1;
        }
        Palette { table }
    }

    /// Look a color up by hue and brightness rank.
    pub fn color_rank(&self, h: Hue, rank: u8) -> (c: Color)
        requires
            self.wf(),
            rank <= 4,
        ensures
            c == palette_color(h, rank as int),
    {
        let row = match h {
            Hue::Blue => 0usize,
            Hue::Cyan => 1usize,
            Hue::Red => 2usize,
        };
        let idx: usize = row * 5 + rank as usize;
        proof {
            assert(row == hue_index(h));
            lemma_fundamental_div_mod_converse_div(idx as int, 5, row as int, rank as int);
            lemma_fundamental_div_mod_converse_mod(idx as int, 5, row as int, rank as int);
            assert(hue_of_index(hue_index(h)) == h);
        }
        self.table[idx]
    }

    /// Look a color up by hue and intensity, given in thousandths of the
    /// `[0.0, 1.0]` range. Intensities outside that range break the
    /// caller's contract.
    pub fn color(&self, h: Hue, milli: u32) -> (c: Color)
        requires
            self.wf(),
            milli <= 1000,
        ensures
            c == palette_color(h, rank_of(milli as int)),
    {
        let rank: u32 = ((1000 - milli) * 8 + 1000) / 2000;
        proof {
            lemma_div_is_ordered(((1000 - milli) * 8 + 1000) as int, 9000, 2000);
        }
        self.color_rank(h, rank as u8)
    }

    /// Look a color up by hue and intensity, rejecting intensities outside
    /// the `[0.0, 1.0]` range instead of requiring them away.
    pub fn color_checked(&self, h: Hue, milli: u32) -> (c: Option<Color>)
        requires
            self.wf(),
        ensures
            milli <= 1000 ==> c == Some(palette_color(h, rank_of(milli as int))),
            milli > 1000 ==> c is None,
    {
        if milli <= 1000 {
            Some(self.color(h, milli))
        } else {
            None
        }
    }
}

/// Law: the darkest rank of every hue is exactly black.
pub proof fn lemma_palette_rank4_black(h: Hue)
    ensures
        palette_color(h, 4) == (Color { r: 0, g: 0, b: 0 }),
{
}

proof fn lemma_shade_channel_full(v: u8)
    ensures
        shade_channel(v, 0) == v,
{
    assert(v * 4 == 4 * (v as int)) by (nonlinear_arith);
    lemma_fundamental_div_mod_converse_div(4 * (v as int), 4, v as int, 0);
}

/// Law: full intensity (1.0, given as 1000 thousandths) selects rank 0,
/// which is exactly the hue's base color.
pub proof fn lemma_palette_full_intensity(h: Hue)
    ensures
        rank_of(1000) == 0,
        palette_color(h, rank_of(1000)) == base_color(h),
{
    lemma_shade_channel_full(base_color(h).r);
    lemma_shade_channel_full(base_color(h).g);
    lemma_shade_channel_full(base_color(h).b);
}

/// Law: zero intensity selects rank 4, which is exactly black.
pub proof fn lemma_palette_zero_intensity(h: Hue)
    ensures
        rank_of(0) == 4,
        palette_color(h, rank_of(0)) == (Color { r: 0, g: 0, b: 0 }),
{
}

/// Law: within a hue, every channel is monotonically non-increasing as the
/// rank increases (brightness only ever goes down toward black).
pub proof fn lemma_palette_monotone(h: Hue, r1: int, r2: int)
    requires
        0 <= r1 <= r2 <= 4,
    ensures
        palette_color(h, r2).r <= palette_color(h, r1).r,
        palette_color(h, r2).g <= palette_color(h, r1).g,
        palette_color(h, r2).b <= palette_color(h, r1).b,
{
    let c = base_color(h);
    lemma_shade_channel_monotone(c.r, r1, r2);
    lemma_shade_channel_monotone(c.g, r1, r2);
    lemma_shade_channel_monotone(c.b, r1, r2);
    lemma_shade_channel_bounds(c.r, r1);
    lemma_shade_channel_bounds(c.g, r1);
    lemma_shade_channel_bounds(c.b, r1);
    lemma_shade_channel_bounds(c.r, r2);
    lemma_shade_channel_bounds(c.g, r2);
    lemma_shade_channel_bounds(c.b, r2);
}

proof fn lemma_shade_channel_monotone(v: u8, r1: int, r2: int)
    requires
        0 <= r1 <= r2 <= 4,
    ensures
        shade_channel(v, r2) <= shade_channel(v, r1),
{
    assert(v * (4 - r2) <= v * (4 - r1)) by (nonlinear_arith)
        requires
            r1 <= r2,
            0 <= v,
    ;
    lemma_div_is_ordered(v * (4 - r2), v * (4 - r1), 4);
}

} // verus!
