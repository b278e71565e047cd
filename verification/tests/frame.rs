use ocean_sunset::color::Color;
use ocean_sunset::render::apply_scanlines;
use ocean_sunset::render::render_frame;

fn idx(x: usize, y: usize) -> usize {
    y * 640 + x
}

#[test]
fn rendering_the_same_offset_twice_is_identical() {
    let a = render_frame(0);
    let b = render_frame(0);
    assert_eq!(a, b);
}

#[test]
fn frame_has_expected_pixels() {
    let f = render_frame(0);
    assert_eq!(f.len(), 640 * 480);
    // Sun center: full red, halved by the scanline pass (even row).
    assert_eq!(f[idx(320, 220)], Color { r: 100, g: 0, b: 61 });
    // One row below: odd row, untouched full red.
    assert_eq!(f[idx(320, 221)], Color { r: 200, g: 0, b: 123 });
    // The center vertical grid line: cyan, never darkened, even on row 300.
    assert_eq!(f[idx(320, 300)], Color { r: 0, g: 200, b: 190 });
    // Water far from the reflection stays black.
    assert_eq!(f[idx(0, 479)], Color { r: 0, g: 0, b: 0 });
}

#[test]
fn scanline_pass_darkens_even_rows_only() {
    let gray = Color { r: 9, g: 9, b: 9 };
    let cyan = Color { r: 0, g: 200, b: 190 };
    let odd = Color { r: 7, g: 8, b: 9 };
    let mut buf = vec![gray; 640 * 480];
    buf[idx(5, 4)] = cyan;
    buf[idx(6, 4)] = odd;
    apply_scanlines(&mut buf);
    // Grid-colored pixels on even rows stay crisp.
    assert_eq!(buf[idx(5, 4)], cyan);
    // Other even-row pixels have every channel halved, truncating.
    assert_eq!(buf[idx(6, 4)], Color { r: 3, g: 4, b: 4 });
    assert_eq!(buf[idx(0, 0)], Color { r: 4, g: 4, b: 4 });
    // Odd rows are untouched.
    assert_eq!(buf[idx(0, 1)], gray);
    assert_eq!(buf[idx(639, 477)], gray);
}
