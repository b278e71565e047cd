use ocean_sunset::geom::isqrt;
use ocean_sunset::geom::rasterize;
use ocean_sunset::geom::Point;
use ocean_sunset::geom::Segment;

fn seg(x0: i32, y0: i32, x1: i32, y1: i32) -> Segment {
    Segment { start: Point { x: x0, y: y0 }, end: Point { x: x1, y: y1 } }
}

fn pts(v: &[(i32, i32)]) -> Vec<Point> {
    v.iter().map(|&(x, y)| Point { x, y }).collect()
}

#[test]
fn horizontal_line_pixels() {
    assert_eq!(rasterize(seg(0, 0, 4, 0)), pts(&[(1, 0), (2, 0), (3, 0), (4, 0)]));
}

#[test]
fn vertical_line_pixels() {
    assert_eq!(rasterize(seg(0, 0, 0, 4)), pts(&[(0, 1), (0, 2), (0, 3), (0, 4)]));
}

#[test]
fn diagonal_line_has_no_gaps() {
    let out = rasterize(seg(0, 0, 4, 4));
    assert_eq!(out, pts(&[(1, 1), (2, 2), (3, 3), (4, 4)]));
    for w in out.windows(2) {
        assert!((w[1].x - w[0].x).abs() <= 1);
        assert!((w[1].y - w[0].y).abs() <= 1);
    }
}

#[test]
fn zero_length_segment_is_single_point() {
    assert_eq!(rasterize(seg(5, 7, 5, 7)), pts(&[(5, 7)]));
}

#[test]
fn negative_slope_traces_from_swapped_endpoint() {
    // Slope is negative and the start is left of the end, so the trace
    // runs from the other endpoint; the last pixel is the original start's
    // opposite corner.
    assert_eq!(rasterize(seg(0, 3, 3, 0)), pts(&[(2, 1), (1, 2), (0, 3)]));
}

#[test]
fn shallow_slope_rounds_to_nearest_row() {
    assert_eq!(rasterize(seg(0, 0, 4, 2)), pts(&[(1, 1), (2, 1), (3, 2), (4, 2)]));
}

#[test]
fn integer_square_roots() {
    assert_eq!(isqrt(0), 0);
    assert_eq!(isqrt(15), 3);
    assert_eq!(isqrt(16), 4);
    assert_eq!(isqrt(1357200), 1164);
}
