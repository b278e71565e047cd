use ocean_sunset::geom::Segment;
use ocean_sunset::grid::grid_segments;

const SCAN_ROWS: [i32; 9] = [251, 265, 281, 301, 325, 353, 387, 428, 477];

fn is_vertical(s: &Segment) -> bool {
    s.start.y == 480 && s.end.y == 240
}

#[test]
fn always_81_vertical_lines() {
    for v in 0..50u32 {
        let segs = grid_segments(v);
        assert!(segs.len() >= 83);
        assert_eq!(segs.iter().filter(|s| is_vertical(s)).count(), 81);
        for s in &segs[..81] {
            assert!(is_vertical(s));
        }
        for s in &segs[81..] {
            assert_eq!(s.start.y, s.end.y);
        }
    }
}

#[test]
fn vertical_lines_converge_toward_horizon() {
    let segs = grid_segments(0);
    // Center line is straight down the middle.
    assert_eq!(segs[40].start.x, 320);
    assert_eq!(segs[40].end.x, 320);
    // Leftmost line: wide spread at the bottom, narrow at the top.
    assert_eq!(segs[0].start.x, 320 - 120 * 40);
    assert_eq!(segs[0].end.x, 320 - 8 * 40);
    // Rightmost line mirrors it around the center.
    assert_eq!(segs[80].start.x, 320 + 120 * 40);
    assert_eq!(segs[80].end.x, 320 + 8 * 40);
}

#[test]
fn fixed_lines_anchor_the_horizon() {
    let segs = grid_segments(0);
    assert_eq!(segs[81].start.y, 240);
    assert_eq!(segs[81].start.x, 0);
    assert_eq!(segs[81].end.x, 640);
    assert_eq!(segs[82].start.y, 240);
    let segs = grid_segments(10);
    assert_eq!(segs[81].start.y, 240);
    // The compensating line scrolls at the minimum speed: floor(10 / 5).
    assert_eq!(segs[82].start.y, 242);
}

#[test]
fn scan_rows_for_frame_zero() {
    let segs = grid_segments(0);
    assert_eq!(segs.len(), 83 + SCAN_ROWS.len());
    let rows: Vec<i32> = segs[83..].iter().map(|s| s.start.y).collect();
    assert_eq!(rows, SCAN_ROWS.to_vec());
}

#[test]
fn scan_spacing_widens_toward_viewer() {
    let mut prev_gap = 0;
    let mut prev_row = 240;
    for row in SCAN_ROWS {
        let gap = row - prev_row;
        assert!((10..=50).contains(&gap));
        assert!(gap >= prev_gap);
        prev_gap = gap;
        prev_row = row;
    }
}

#[test]
fn animation_scrolls_near_lines_faster() {
    let segs = grid_segments(10);
    let rows: Vec<i32> = segs[83..].iter().map(|s| s.start.y).collect();
    // Row r scrolls by floor(10 * (5*r - 960) / 1200).
    let expected: Vec<i32> =
        SCAN_ROWS.iter().map(|r| r + 10 * (5 * r - 960) / 1200).collect();
    assert_eq!(rows, expected);
    // The farthest line moved less than the nearest one.
    assert_eq!(rows[0] - SCAN_ROWS[0], 2);
    assert_eq!(rows[8] - SCAN_ROWS[8], 11);
}
