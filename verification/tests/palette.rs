use ocean_sunset::color::Color;
use ocean_sunset::color::Hue;
use ocean_sunset::color::Palette;

#[test]
fn full_intensity_is_base_color() {
    let p = Palette::new();
    assert_eq!(p.color(Hue::Blue, 1000), Color { r: 47, g: 24, b: 200 });
    assert_eq!(p.color(Hue::Cyan, 1000), Color { r: 0, g: 200, b: 190 });
    assert_eq!(p.color(Hue::Red, 1000), Color { r: 200, g: 0, b: 123 });
}

#[test]
fn zero_intensity_is_black() {
    let p = Palette::new();
    let black = Color { r: 0, g: 0, b: 0 };
    assert_eq!(p.color(Hue::Blue, 0), black);
    assert_eq!(p.color(Hue::Cyan, 0), black);
    assert_eq!(p.color(Hue::Red, 0), black);
}

#[test]
fn rank_four_is_black_for_every_hue() {
    let p = Palette::new();
    let black = Color { r: 0, g: 0, b: 0 };
    assert_eq!(p.color_rank(Hue::Blue, 4), black);
    assert_eq!(p.color_rank(Hue::Cyan, 4), black);
    assert_eq!(p.color_rank(Hue::Red, 4), black);
}

#[test]
fn ranks_darken_monotonically() {
    let p = Palette::new();
    for hue in [Hue::Blue, Hue::Cyan, Hue::Red] {
        let mut prev = p.color_rank(hue, 0);
        for rank in 1..5u8 {
            let cur = p.color_rank(hue, rank);
            assert!(cur.r <= prev.r);
            assert!(cur.g <= prev.g);
            assert!(cur.b <= prev.b);
            prev = cur;
        }
    }
}

#[test]
fn exact_blue_gradient() {
    let p = Palette::new();
    assert_eq!(p.color_rank(Hue::Blue, 0), Color { r: 47, g: 24, b: 200 });
    assert_eq!(p.color_rank(Hue::Blue, 1), Color { r: 35, g: 18, b: 150 });
    assert_eq!(p.color_rank(Hue::Blue, 2), Color { r: 23, g: 12, b: 100 });
    assert_eq!(p.color_rank(Hue::Blue, 3), Color { r: 11, g: 6, b: 50 });
    assert_eq!(p.color_rank(Hue::Blue, 4), Color { r: 0, g: 0, b: 0 });
}

#[test]
fn exact_cyan_gradient() {
    let p = Palette::new();
    assert_eq!(p.color_rank(Hue::Cyan, 1), Color { r: 0, g: 150, b: 142 });
    assert_eq!(p.color_rank(Hue::Cyan, 2), Color { r: 0, g: 100, b: 95 });
    assert_eq!(p.color_rank(Hue::Cyan, 3), Color { r: 0, g: 50, b: 47 });
}

#[test]
fn exact_red_gradient() {
    let p = Palette::new();
    assert_eq!(p.color_rank(Hue::Red, 1), Color { r: 150, g: 0, b: 92 });
    assert_eq!(p.color_rank(Hue::Red, 2), Color { r: 100, g: 0, b: 61 });
    assert_eq!(p.color_rank(Hue::Red, 3), Color { r: 50, g: 0, b: 30 });
}

#[test]
fn intensity_rounds_to_nearest_rank() {
    let p = Palette::new();
    // (1 - 0.875) * 4 = 0.5 rounds up to rank 1; anything brighter is rank 0.
    assert_eq!(p.color(Hue::Blue, 875), Color { r: 35, g: 18, b: 150 });
    assert_eq!(p.color(Hue::Blue, 876), Color { r: 47, g: 24, b: 200 });
    // (1 - 0.2) * 4 = 3.2 rounds down to rank 3.
    assert_eq!(p.color(Hue::Red, 200), Color { r: 50, g: 0, b: 30 });
}

#[test]
fn out_of_range_intensity_is_rejected() {
    let p = Palette::new();
    assert!(p.color_checked(Hue::Red, 1500).is_none());
    assert!(p.color_checked(Hue::Blue, 1001).is_none());
    assert_eq!(
        p.color_checked(Hue::Cyan, 1000),
        Some(Color { r: 0, g: 200, b: 190 })
    );
}
