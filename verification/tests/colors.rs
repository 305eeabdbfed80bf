//! Tests for the color schemes. Channels are fixed point: 1_000_000 is
//! full intensity, and `t` is a normalized height on the same scale.

use lrle::colors::{height_to_color, ColorScheme, Rgb};

#[test]
fn test_terrain_low_is_bluish() {
    let color = height_to_color(0, ColorScheme::Terrain);
    assert!(color.b > color.r, "Low terrain should be bluish");
    assert!(color.b > color.g, "Blue > Green at low heights");
}

#[test]
fn test_terrain_mid_is_greenish() {
    let color = height_to_color(500_000, ColorScheme::Terrain);
    assert!(color.g > color.r, "Mid terrain should have strong green");
}

#[test]
fn test_terrain_high_is_whitish() {
    let color = height_to_color(1_000_000, ColorScheme::Terrain);
    assert!(color.r > 900_000, "High terrain R should be near 1.0");
    assert!(color.g > 900_000, "High terrain G should be near 1.0");
    assert!(color.b > 900_000, "High terrain B should be near 1.0");
}

#[test]
fn test_heatmap_low_is_blue() {
    let color = height_to_color(0, ColorScheme::Heatmap);
    assert!(color.b > color.r, "Low heatmap should be blue");
}

#[test]
fn test_heatmap_high_is_red() {
    let color = height_to_color(1_000_000, ColorScheme::Heatmap);
    assert!(color.r > color.b, "High heatmap should be red");
    assert!(color.r > 800_000, "High heatmap R should be strong");
}

#[test]
fn test_heatmap_mid_is_greenish() {
    let color = height_to_color(500_000, ColorScheme::Heatmap);
    assert!(color.g > 500_000, "Mid heatmap should have green component");
}

#[test]
fn test_monochrome_low_is_dark() {
    let color = height_to_color(0, ColorScheme::Monochrome);
    let brightness = (color.r + color.g + color.b) / 3;
    assert!(brightness < 300_000, "Low monochrome should be dark");
}

#[test]
fn test_monochrome_high_is_bright() {
    let color = height_to_color(1_000_000, ColorScheme::Monochrome);
    let brightness = (color.r + color.g + color.b) / 3;
    assert!(brightness > 700_000, "High monochrome should be bright");
}

#[test]
fn test_monochrome_is_grayscale() {
    let color = height_to_color(500_000, ColorScheme::Monochrome);
    let diff_rg = (color.r - color.g).abs();
    let diff_rb = (color.r - color.b).abs();
    assert!(diff_rg < 10_000, "Monochrome R and G should be equal");
    assert!(diff_rb < 10_000, "Monochrome R and B should be equal");
}

#[test]
fn test_clamps_below_zero() {
    let color = height_to_color(-500_000, ColorScheme::Terrain);
    let expected = height_to_color(0, ColorScheme::Terrain);
    assert_eq!(color, expected, "Values below 0 should clamp to 0");
}

#[test]
fn test_clamps_above_one() {
    let color = height_to_color(1_500_000, ColorScheme::Terrain);
    let expected = height_to_color(1_000_000, ColorScheme::Terrain);
    assert_eq!(color, expected, "Values above 1 should clamp to 1");
}

#[test]
fn test_terrain_exact_endpoints() {
    let low = height_to_color(0, ColorScheme::Terrain);
    assert_eq!((low.r, low.g, low.b), (0, 0, 800_000));
    let high = height_to_color(1_000_000, ColorScheme::Terrain);
    assert_eq!((high.r, high.g, high.b), (1_000_000, 1_000_000, 1_000_000));
}

#[test]
fn test_heatmap_exact_quarters() {
    let q1 = height_to_color(250_000, ColorScheme::Heatmap);
    assert_eq!((q1.r, q1.g, q1.b), (0, 1_000_000, 1_000_000));
    let mid = height_to_color(500_000, ColorScheme::Heatmap);
    assert_eq!((mid.r, mid.g, mid.b), (0, 1_000_000, 0));
    let q3 = height_to_color(750_000, ColorScheme::Heatmap);
    assert_eq!((q3.r, q3.g, q3.b), (1_000_000, 1_000_000, 0));
}

#[test]
fn test_monochrome_exact_formula() {
    let c = height_to_color(500_000, ColorScheme::Monochrome);
    assert_eq!((c.r, c.g, c.b), (550_000, 550_000, 550_000));
}

#[test]
fn test_custom_gradient_midpoints() {
    let scheme = ColorScheme::Custom {
        low: Rgb { r: 0, g: 0, b: 0 },
        mid: Rgb { r: 1_000_000, g: 0, b: 0 },
        high: Rgb { r: 1_000_000, g: 1_000_000, b: 1_000_000 },
    };
    let quarter = height_to_color(250_000, scheme);
    assert_eq!((quarter.r, quarter.g, quarter.b), (500_000, 0, 0));
    let three_quarters = height_to_color(750_000, scheme);
    assert_eq!(
        (three_quarters.r, three_quarters.g, three_quarters.b),
        (1_000_000, 500_000, 500_000)
    );
}
