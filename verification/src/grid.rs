//! The grid generator: the foreground line segments of one frame.
//!
//! Two families of segments, parameterized by the animation offset `v`:
//! a fan of vertical lines converging toward the horizon, and horizontal
//! scan lines whose spacing widens from the horizon toward the viewer and
//! which scroll downward with `v`, faster the nearer they are.
//!
//! All interpolations are exact: the bottom endpoint of vertical line `i`
//! is `(W/2 + 120*i, H)` (from `(30*i/80 + 1) * W/2`), its top endpoint is
//! `(W/2 + 8*i, LINES_TOP)` (from `(2*i/80 + 1) * W/2`), and the animated
//! row of a scan line emitted at row `r` is `r + floor(v*(5*r - 960)/1200)`
//! (from `v * ((r - 240)/240 + 1/5)`).

use crate::geom::Point;
use crate::geom::Segment;
use crate::HEIGHT;
use crate::LINES_MAX_DISTANCE;
use crate::LINES_MIN_DISTANCE;
use crate::LINES_TOP;
use crate::MIN_SPEED_DEN;
use crate::MIN_SPEED_NUM;
use crate::N_VERT_LINES;
use crate::WIDTH;
use vstd::arithmetic::div_mod::lemma_div_is_ordered;
use vstd::prelude::*;

verus! {

/// The `i`-th vertical line, `i` in `[-40, 40]`: it runs from a widely
/// spread point on the bottom edge up to a narrowly spread point on the
/// horizon, which makes the fan converge.
pub open spec fn vert_segment(i: int) -> Segment {
    Segment {
        start: Point { x: (WIDTH as int / 2 + 120 * i) as i32, y: HEIGHT },
        end: Point { x: (WIDTH as int / 2 + 8 * i) as i32, y: LINES_TOP },
    }
}

/// A horizontal line across the full canvas width at the given row.
pub open spec fn horiz_segment(y: int) -> Segment {
    Segment {
        start: Point { x: 0, y: y as i32 },
        end: Point { x: WIDTH, y: y as i32 },
    }
}

/// The gap (in rows) the scan requires before the next horizontal line at
/// row `i`: a linear interpolation from `LINES_MIN_DISTANCE` at the
/// horizon to `LINES_MAX_DISTANCE` at the bottom,
/// `floor(40 * (i - 240) / 240) + 10 = 10 + (i - 240) / 6`.
pub open spec fn scan_gap(i: int) -> int {
    LINES_MIN_DISTANCE as int + (i - LINES_TOP as int) / 6
}

/// The rows at which the scan emits a horizontal line, scanning from row
/// `i` with the most recent emission at row `last`. The whole scan starts
/// at the horizon as if a line had just been emitted there.
pub open spec fn scan_rows(i: int, last: int) -> Seq<int>
    decreases HEIGHT as int - i,
{
    if i >= HEIGHT as int {
        Seq::empty()
    } else if i - last >= scan_gap(i) {
        seq![i] + scan_rows(i + 1, i)
    } else {
        scan_rows(i + 1, last)
    }
}

/// The animated row at which a scan line emitted at row `r` is drawn for
/// frame offset `v`; far lines (small `r`) scroll slower than near ones.
pub open spec fn scan_offset_row(r: int, v: int) -> int {
    r + v * (5 * r - 960) / 1200
}

/// The horizontal segments of the scan lines, at their animated rows.
pub open spec fn scan_segments(rows: Seq<int>, v: int) -> Seq<Segment> {
    rows.map_values(|r: int| horiz_segment(scan_offset_row(r, v)))
}

/// Every segment of the frame with offset `v`: the 81 vertical lines,
/// the fixed anchor line at the horizon, the compensating line scrolled
/// at minimum speed, and the animated scan lines.
pub open spec fn spec_grid(v: int) -> Seq<Segment> {
    Seq::new(
        (N_VERT_LINES + 1) as nat,
        |j: int| vert_segment(j - N_VERT_LINES as int / 2),
    ) + seq![
        horiz_segment(LINES_TOP as int),
        horiz_segment(LINES_TOP as int + v * MIN_SPEED_NUM as int / MIN_SPEED_DEN as int),
    ] + scan_segments(scan_rows(LINES_TOP as int, LINES_TOP as int), v)
}

proof fn lemma_scan_segments_push(rows: Seq<int>, r: int, v: int)
    ensures
        scan_segments(rows + seq![r], v) == scan_segments(rows, v) + seq![
            horiz_segment(scan_offset_row(r, v)),
        ],
{
    assert(scan_segments(rows + seq![r], v) =~= scan_segments(rows, v) + seq![
        horiz_segment(scan_offset_row(r, v)),
    ]);
}

fn horiz_exec(y: i32) -> (s: Segment)
    ensures
        s == horiz_segment(y as int),
{
    Segment { start: Point { x: 0, y }, end: Point { x: WIDTH, y } }
}

/// Build the full list of grid segments for a frame offset.
#[verifier::loop_isolation(false)]
pub fn grid_segments(v: u32) -> (segs: Vec<Segment>)
    requires
        v < LINES_MAX_DISTANCE,
    ensures
        segs@ == spec_grid(v as int),
{
    let mut segs: Vec<Segment> = Vec::new();
    let mut j: i32 = 0;
    while j < 81
        invariant
            0 <= j <= 81,
            segs@.len() == j,
            forall|t: int| 0 <= t < j ==> segs@[t] == vert_segment(t - 40),
        decreases 81 - j,
    {
        let i = j - 40;
        segs.push(
            Segment {
                start: Point { x: WIDTH / 2 + 120 * i, y: HEIGHT },
                end: Point { x: WIDTH / 2 + 8 * i, y: LINES_TOP },
            },
        );
        j = j + 1;
    }
    segs.push(horiz_exec(LINES_TOP));
    segs.push(horiz_exec(LINES_TOP + (v / 5) as i32));
    let ghost base: Seq<Segment> = segs@;
    let ghost all_rows: Seq<int> = scan_rows(LINES_TOP as int, LINES_TOP as int);
    let ghost mut done: Seq<int> = Seq::empty();
    proof {
        assert(done + scan_rows(LINES_TOP as int, LINES_TOP as int) =~= all_rows);
        assert(base + scan_segments(done, v as int) =~= segs@);
    }
    let mut i: i32 = LINES_TOP;
    let mut last: i32 = LINES_TOP;
    while i < HEIGHT
        invariant
            LINES_TOP <= i <= HEIGHT,
            LINES_TOP <= last <= i,
            i - last <= scan_gap(i as int),
            all_rows == done + scan_rows(i as int, last as int),
            segs@ == base + scan_segments(done, v as int),
        decreases HEIGHT - i,
    {
        let gap: u32 = LINES_MIN_DISTANCE + ((i - LINES_TOP) as u32) / 6;
        proof {
            lemma_div_is_ordered(0, i - LINES_TOP, 6);
        }
        if (i - last) as u32 >= gap {
            proof {
                assert(0 <= (v as int) * (5 * (i as int) - 960) <= 70560) by (nonlinear_arith)
                    requires
                        v < 50,
                        240 <= i < 480,
                ;
            }
            let num: u32 = v * (5 * (i as u32) - 960);
            let y: i32 = i + (num / 1200) as i32;
            proof {
                lemma_div_is_ordered(num as int, 70560, 1200);
                assert(scan_rows(i as int, last as int) == seq![i as int] + scan_rows(
                    i as int + 1,
                    i as int,
                ));
                assert(done + (seq![i as int] + scan_rows(i as int + 1, i as int)) =~= (done
                    + seq![i as int]) + scan_rows(i as int + 1, i as int));
                lemma_scan_segments_push(done, i as int, v as int);
                done = done + seq![i as int];
            }
            segs.push(horiz_exec(y));
            last = i;
        } else {
            proof {
                lemma_div_is_ordered(i - LINES_TOP, i + 1 - LINES_TOP, 6);
            }
        }
        i = i + 1;
        proof {
            lemma_div_is_ordered(0, i - LINES_TOP, 6);
        }
    }
    proof {
        assert(scan_rows(i as int, last as int) =~= Seq::<int>::empty());
        assert(done =~= all_rows);
        assert(segs@ =~= spec_grid(v as int));
    }
    segs
}

/// Everything the scan emits lies between the horizon and the bottom,
/// the first emission's distance from the horizon equals its required
/// gap, and every later emission's distance from its predecessor equals
/// the gap required at its own row.
pub proof fn lemma_scan_rows_props(i: int, last: int)
    requires
        LINES_TOP as int <= last <= i <= HEIGHT as int,
        i - last <= scan_gap(i),
    ensures
        forall|k: int|
            0 <= k < scan_rows(i, last).len() ==> i <= #[trigger] scan_rows(i, last)[k]
                < HEIGHT as int,
        scan_rows(i, last).len() > 0 ==> scan_rows(i, last)[0] - last == scan_gap(
            scan_rows(i, last)[0],
        ),
        forall|k: int|
            0 < k < scan_rows(i, last).len() ==> (#[trigger] scan_rows(i, last)[k]) - scan_rows(
                i,
                last,
            )[k - 1] == scan_gap(scan_rows(i, last)[k]),
    decreases HEIGHT as int - i,
{
    if i >= HEIGHT as int {
    } else {
        let rows = scan_rows(i, last);
        if i - last >= scan_gap(i) {
            proof_scan_gap_nonneg(i + 1);
            lemma_scan_rows_props(i + 1, i);
            let rest = scan_rows(i + 1, i);
            assert(rows == seq![i] + rest);
            assert(rows[0] == i);
            assert forall|k: int| 0 < k < rows.len() implies (#[trigger] rows[k]) - rows[k - 1]
                == scan_gap(rows[k]) by {
                assert(rows[k] == rest[k - 1]);
                if k == 1 {
                    assert(rest[0] - i == scan_gap(rest[0]));
                } else {
                    assert(rows[k - 1] == rest[k - 2]);
                }
            }
        } else {
            lemma_div_is_ordered(i - LINES_TOP as int, i + 1 - LINES_TOP as int, 6);
            lemma_scan_rows_props(i + 1, last);
        }
    }
}

proof fn proof_scan_gap_nonneg(i: int)
    requires
        i >= LINES_TOP as int,
    ensures
        scan_gap(i) >= LINES_MIN_DISTANCE as int,
{
    lemma_div_is_ordered(0, i - LINES_TOP as int, 6);
}

/// Law: the spacing between consecutive horizontal scan lines is always
/// within `[LINES_MIN_DISTANCE, LINES_MAX_DISTANCE]`, and it never
/// shrinks as the scan moves from the horizon toward the bottom.
pub proof fn lemma_scan_spacing()
    ensures
        forall|k: int|
            0 < k < scan_rows(LINES_TOP as int, LINES_TOP as int).len()
                ==> LINES_MIN_DISTANCE as int <= (#[trigger] scan_rows(
                LINES_TOP as int,
                LINES_TOP as int,
            )[k]) - scan_rows(LINES_TOP as int, LINES_TOP as int)[k - 1]
                <= LINES_MAX_DISTANCE as int,
        forall|k: int|
            0 < k && k + 1 < scan_rows(LINES_TOP as int, LINES_TOP as int).len() ==> (#[trigger]
            scan_rows(LINES_TOP as int, LINES_TOP as int)[k]) - scan_rows(
                LINES_TOP as int,
                LINES_TOP as int,
            )[k - 1] <= scan_rows(LINES_TOP as int, LINES_TOP as int)[k + 1] - scan_rows(
                LINES_TOP as int,
                LINES_TOP as int,
            )[k],
{
    let rows = scan_rows(LINES_TOP as int, LINES_TOP as int);
    lemma_scan_rows_props(LINES_TOP as int, LINES_TOP as int);
    assert forall|k: int|
        0 < k < rows.len() implies LINES_MIN_DISTANCE as int <= (#[trigger] rows[k]) - rows[k - 1]
        <= LINES_MAX_DISTANCE as int by {
        assert(rows[k] - rows[k - 1] == scan_gap(rows[k]));
        proof_scan_gap_nonneg(rows[k]);
        lemma_div_is_ordered(rows[k] - LINES_TOP as int, 239, 6);
    }
    assert forall|k: int|
        0 < k && k + 1 < rows.len() implies (#[trigger] rows[k]) - rows[k - 1] <= rows[k + 1]
        - rows[k] by {
        assert(rows[k] - rows[k - 1] == scan_gap(rows[k]));
        assert(rows[k + 1] - rows[k] == scan_gap(rows[k + 1]));
        proof_scan_gap_nonneg(rows[k + 1]);
        assert(rows[k] <= rows[k + 1]);
        lemma_div_is_ordered(rows[k] - LINES_TOP as int, rows[k + 1] - LINES_TOP as int, 6);
    }
}

/// Law: whatever the frame offset, the grid starts with exactly the 81
/// vertical lines (`N_VERT_LINES + 1` of them), and every segment after
/// those is horizontal.
pub proof fn lemma_grid_verticals(v: int)
    ensures
        spec_grid(v).len() >= 83,
        forall|j: int| 0 <= j < 81 ==> #[trigger] spec_grid(v)[j] == vert_segment(j - 40),
        forall|j: int|
            81 <= j < spec_grid(v).len() ==> (#[trigger] spec_grid(v)[j]).start.y == spec_grid(
                v,
            )[j].end.y,
{
    let g = spec_grid(v);
    let rows = scan_rows(LINES_TOP as int, LINES_TOP as int);
    assert forall|j: int| 81 <= j < g.len() implies (#[trigger] g[j]).start.y == g[j].end.y by {
        if j >= 83 {
            assert(g[j] == scan_segments(rows, v)[j - 83]);
            assert(scan_segments(rows, v)[j - 83] == horiz_segment(
                scan_offset_row(rows[j - 83], v),
            ));
        }
    }
}

} // verus!
