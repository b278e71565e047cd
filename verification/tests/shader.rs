use ocean_sunset::background::background;
use ocean_sunset::color::Color;
use ocean_sunset::color::Palette;

#[test]
fn sun_center_has_full_intensity() {
    let p = Palette::new();
    assert_eq!(background(320, 220, &p), Color { r: 200, g: 0, b: 123 });
}

#[test]
fn solid_disk_reaches_distance_75_exactly() {
    let p = Palette::new();
    // Distance exactly 75 still belongs to the solid disk...
    assert_eq!(background(395, 220, &p), Color { r: 200, g: 0, b: 123 });
    // ...and one pixel further the gradient takes over (rank 2).
    assert_eq!(background(396, 220, &p), Color { r: 100, g: 0, b: 61 });
}

#[test]
fn far_sky_corner_is_black() {
    let p = Palette::new();
    assert_eq!(background(0, 0, &p), Color { r: 0, g: 0, b: 0 });
    assert_eq!(background(639, 0, &p), Color { r: 0, g: 0, b: 0 });
}

#[test]
fn horizon_row_is_still_sky() {
    let p = Palette::new();
    // y == LINES_TOP uses the sky shading; (320, 240) is inside the disk.
    assert_eq!(background(320, 240, &p), Color { r: 200, g: 0, b: 123 });
}

#[test]
fn water_inside_reflection_is_dim_red() {
    let p = Palette::new();
    assert_eq!(background(320, 300, &p), Color { r: 50, g: 0, b: 30 });
}

#[test]
fn water_outside_reflection_is_black() {
    let p = Palette::new();
    assert_eq!(background(0, 300, &p), Color { r: 0, g: 0, b: 0 });
    assert_eq!(background(639, 479, &p), Color { r: 0, g: 0, b: 0 });
}
