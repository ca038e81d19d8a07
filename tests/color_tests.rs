use tile_puzzle::color::{hsl_to_rgb, lerp_hue, Color, ConfigError, FULL_TURN, UNIT};
use tile_puzzle::gradient::{Gradient, Position};

fn assert_rgb_near_eq(a: Color, b: Color) {
    fn u8_diff(a: u8, b: u8) -> u8 {
        (a as i16 - b as i16).abs() as u8
    }
    let a = a.unwrap_rgb();
    let b = b.unwrap_rgb();
    assert!(u8_diff(a.0, b.0) <= 1);
    assert!(u8_diff(a.1, b.1) <= 1);
    assert!(u8_diff(a.2, b.2) <= 1);
}

#[test]
fn rgb_to_hsl() {
    for r in 0..255 {
        for g in 0..255 {
            for b in 0..255 {
                let orig = Color::rgb(r, g, b);
                let conv = orig.to_hsl().to_rgb();
                assert_rgb_near_eq(orig, conv);
            }
        }
    }
}

#[test]
fn round_trip_edges() {
    for &(r, g, b) in &[(255u8, 255u8, 255u8), (0, 0, 0), (255, 0, 0), (0, 255, 0), (0, 0, 255), (12, 200, 255)] {
        let orig = Color::rgb(r, g, b);
        assert_rgb_near_eq(orig, orig.to_hsl().to_rgb());
    }
}

#[test]
fn rgb_to_hsl_values() {
    assert_eq!(tile_puzzle::color::rgb_to_hsl((255, 0, 0)), (0, 10000, 5000));
    assert_eq!(tile_puzzle::color::rgb_to_hsl((0, 255, 0)), (12000, 10000, 5000));
    assert_eq!(tile_puzzle::color::rgb_to_hsl((0, 0, 255)), (24000, 10000, 5000));
    assert_eq!(tile_puzzle::color::rgb_to_hsl((255, 255, 255)), (0, 0, 10000));
    assert_eq!(tile_puzzle::color::rgb_to_hsl((0, 0, 0)), (0, 0, 0));
    // magenta: the hue comes out below zero and wraps to 300 degrees
    assert_eq!(tile_puzzle::color::rgb_to_hsl((255, 0, 255)), (30000, 10000, 5000));
}

#[test]
fn hsl_to_rgb_values() {
    assert_eq!(hsl_to_rgb((0, 10000, 5000)), (255, 0, 0));
    assert_eq!(hsl_to_rgb((12000, 10000, 5000)), (0, 255, 0));
    assert_eq!(hsl_to_rgb((24000, 10000, 5000)), (0, 0, 255));
    assert_eq!(hsl_to_rgb((0, 0, 10000)), (255, 255, 255));
    assert_eq!(hsl_to_rgb((9000, 0, 5000)), (127, 127, 127));
    assert_eq!(hsl_to_rgb((6000, 10000, 5000)), (255, 255, 0));
}

#[test]
fn conversions_keep_their_own_kind() {
    let c = Color::rgb(1, 2, 3);
    assert_eq!(c.to_rgb(), c);
    let h = Color::hsl(100, 200, 300).unwrap();
    assert_eq!(h.to_hsl(), h);
}

#[test]
fn hsl_wraps_hue_and_rejects_ranges() {
    assert_eq!(Color::hsl(37000, 5000, 5000), Ok(Color::HSL { h: 1000, s: 5000, l: 5000 }));
    assert_eq!(Color::hsl(0, UNIT + 1, 5000), Err(ConfigError::SaturationOutOfRange));
    assert_eq!(Color::hsl(0, 5000, UNIT + 1), Err(ConfigError::LightnessOutOfRange));
    assert_eq!(Color::hsl(FULL_TURN, UNIT, UNIT), Ok(Color::HSL { h: 0, s: UNIT, l: UNIT }));
}

#[test]
fn lerp_hue_takes_the_shorter_arc() {
    assert_eq!(lerp_hue(35000, 1000, 5000), 0);
    assert_eq!(lerp_hue(1000, 35000, 5000), 0);
    assert_eq!(lerp_hue(0, 9000, 5000), 4500);
    assert_eq!(lerp_hue(35000, 1000, 0), 35000);
    assert_eq!(lerp_hue(35000, 1000, UNIT), 1000);
    assert_eq!(lerp_hue(10000, 30000, 5000), 2000);
    for h1 in (0..FULL_TURN).step_by(1700) {
        for h2 in (0..FULL_TURN).step_by(1300) {
            for t in (0..=UNIT).step_by(2500) {
                assert!(lerp_hue(h1, h2, t) < FULL_TURN);
            }
        }
    }
}

#[test]
fn lerp_rgb_and_clamp() {
    let a = Color::rgb(0, 100, 255);
    let b = Color::rgb(255, 0, 5);
    assert_eq!(Color::lerp(a, b, 5000), Color::rgb(127, 50, 130));
    assert_eq!(Color::lerp(a, b, 0), a);
    assert_eq!(Color::lerp(a, b, UNIT), b);
    assert_eq!(Color::lerp(a, b, 3 * UNIT), b);
}

#[test]
fn lerp_hsl() {
    let a = Color::hsl(35000, 2000, 4000).unwrap();
    let b = Color::hsl(1000, 6000, 8000).unwrap();
    assert_eq!(Color::lerp(a, b, 5000), Color::HSL { h: 0, s: 4000, l: 6000 });
}

#[test]
fn unwrap_components() {
    assert_eq!(Color::rgb(1, 2, 3).unwrap_rgb(), (1, 2, 3));
    assert_eq!(Color::HSL { h: 4, s: 5, l: 6 }.unwrap_hsl(), (4, 5, 6));
    assert!(Color::rgb(1, 2, 3).is_rgb());
    assert!(!Color::HSL { h: 4, s: 5, l: 6 }.is_rgb());
}

#[test]
fn css_text() {
    assert_eq!(Color::rgb(255, 0, 12).to_css(), "rgb(255, 0, 12)");
    assert_eq!(Color::hsl(12345, 9000, 505).unwrap().to_css(), "hsl(123.45, 90.00%, 5.05%)");
}

fn corners() -> (Color, Color, Color, Color) {
    (Color::rgb(255, 0, 0), Color::rgb(0, 255, 0), Color::rgb(0, 0, 255), Color::rgb(10, 20, 30))
}

fn gradient() -> Gradient {
    let (tl, tr, bl, br) = corners();
    Gradient::builder().top_left(tl).top_right(tr).bottom_left(bl).bottom_right(br).build().unwrap()
}

#[test]
fn gradient_corners_are_exact() {
    let g = gradient();
    let (tl, tr, bl, br) = corners();
    assert_eq!(g.color_at(Position::new(0, 0).unwrap()), tl);
    assert_eq!(g.color_at(Position::new(UNIT, 0).unwrap()), tr);
    assert_eq!(g.color_at(Position::new(0, UNIT).unwrap()), bl);
    assert_eq!(g.color_at(Position::new(UNIT, UNIT).unwrap()), br);
    assert_eq!(g.corner_colors(), (tl, tr, bl, br));
}

#[test]
fn gradient_centre_is_bilinear() {
    let g = gradient();
    // top edge at x = 1/2: (127, 127, 0); bottom edge: (5, 10, 142); then halfway
    assert_eq!(g.color_at(Position::new(5000, 5000).unwrap()), Color::rgb(66, 68, 71));
}

#[test]
fn gradient_needs_every_corner() {
    let (tl, tr, bl, _) = corners();
    let missing = Gradient::builder().top_left(tl).top_right(tr).bottom_left(bl).build();
    assert_eq!(missing, Err(ConfigError::MissingCorner));
    assert_eq!(Gradient::builder().build(), Err(ConfigError::MissingCorner));
}

#[test]
fn position_range() {
    assert_eq!(Position::new(UNIT + 1, 0), Err(ConfigError::CoordinateOutOfRange));
    assert_eq!(Position::new(0, UNIT + 1), Err(ConfigError::CoordinateOutOfRange));
    let p = Position::new(3, UNIT).unwrap();
    assert_eq!((p.x(), p.y()), (3, UNIT));
}
