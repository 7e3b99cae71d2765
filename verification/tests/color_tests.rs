//! Tests of the color kernel: RGB, hex codes, CMYK, HSL, Lab, distances.

use core::str::FromStr;
use pixestl::color::cielab::CieLab;
use pixestl::color::cmyk::{Cmyk, CMYK_ONE};
use pixestl::color::distance::{
    find_closest_color, find_closest_color_precomputed, palette_labs_of, ColorDistanceMethod,
};
use pixestl::color::hsl::{hsl_of_rgb, Hsl};
use pixestl::color::rgb::Rgb;

#[test]
fn test_rgb_creation() {
    let color = Rgb::new(255, 128, 64);
    assert_eq!(color.r, 255);
    assert_eq!(color.g, 128);
    assert_eq!(color.b, 64);
}

#[test]
fn test_from_hex_valid() {
    let red = Rgb::from_hex("#FF0000").unwrap();
    assert_eq!(red, Rgb::new(255, 0, 0));

    let green = Rgb::from_hex("#00FF00").unwrap();
    assert_eq!(green, Rgb::new(0, 255, 0));

    let blue = Rgb::from_hex("#0000FF").unwrap();
    assert_eq!(blue, Rgb::new(0, 0, 255));

    // Lowercase should work too
    let white = Rgb::from_hex("#ffffff").unwrap();
    assert_eq!(white, Rgb::new(255, 255, 255));
}

#[test]
fn test_from_hex_invalid() {
    assert!(Rgb::from_hex("FF0000").is_err()); // Missing #
    assert!(Rgb::from_hex("#FF00").is_err()); // Too short
    assert!(Rgb::from_hex("#FF00000").is_err()); // Too long
    assert!(Rgb::from_hex("#GGGGGG").is_err()); // Invalid hex
}

#[test]
fn test_to_hex() {
    let red = Rgb::new(255, 0, 0);
    assert_eq!(red.to_hex(), "#FF0000");

    let color = Rgb::new(171, 205, 239);
    assert_eq!(color.to_hex(), "#ABCDEF");
}

#[test]
fn test_hex_roundtrip() {
    let original = Rgb::new(123, 45, 67);
    let hex = original.to_hex();
    let restored = Rgb::from_hex(&hex).unwrap();
    assert_eq!(original, restored);
}

#[test]
fn rgb_test_display() {
    let color = Rgb::new(255, 128, 64);
    assert_eq!(color.display_string(), "RGB(255, 128, 64)");
}

#[test]
fn test_tuple_conversions() {
    let tuple = (255, 128, 64);
    let rgb: Rgb = tuple.into();
    assert_eq!(rgb, Rgb::new(255, 128, 64));

    let back: (u8, u8, u8) = rgb.into();
    assert_eq!(back, tuple);
}

#[test]
fn test_rgb_to_cmyk_white() {
    let white = Rgb::new(255, 255, 255);
    let cmyk = white.to_cmyk();
    assert_eq!(cmyk.c, 0);
    assert_eq!(cmyk.m, 0);
    assert_eq!(cmyk.y, 0);
    assert_eq!(cmyk.k, 0);
}

#[test]
fn test_rgb_to_cmyk_black() {
    let black = Rgb::new(0, 0, 0);
    let cmyk = black.to_cmyk();
    assert_eq!(cmyk.k, CMYK_ONE);
}

#[test]
fn test_rgb_to_cmyk_red() {
    let red = Rgb::new(255, 0, 0);
    let cmyk = red.to_cmyk();
    assert_eq!(cmyk.c, 0);
    assert_eq!(cmyk.m, CMYK_ONE);
    assert_eq!(cmyk.y, CMYK_ONE);
    assert_eq!(cmyk.k, 0);
}

#[test]
fn test_cmyk_to_rgb_white() {
    let cmyk = Cmyk::new(0, 0, 0, 0);
    let rgb = Rgb::from_cmyk(cmyk);
    assert_eq!(rgb, Rgb::new(255, 255, 255));
}

#[test]
fn test_cmyk_to_rgb_black() {
    let cmyk = Cmyk::new(0, 0, 0, CMYK_ONE);
    let rgb = Rgb::from_cmyk(cmyk);
    assert_eq!(rgb, Rgb::new(0, 0, 0));
}

#[test]
fn test_cmyk_roundtrip() {
    // The fixed-point round trip is exact, channel for channel.
    let original = Rgb::new(128, 64, 200);
    let cmyk = original.to_cmyk();
    let restored = Rgb::from_cmyk(cmyk);
    assert_eq!(original, restored);
}

#[test]
fn test_cmyk_roundtrip_exhaustive_channel() {
    // Sweep one channel fully with the others fixed.
    for v in 0..=255u8 {
        let original = Rgb::new(v, 13, 200);
        assert_eq!(Rgb::from_cmyk(original.to_cmyk()), original);
    }
}

#[test]
fn test_cmyk_clamp() {
    let out_of_range = Cmyk::new(2_000_000, 1_500_000, 300_000, 0);
    let clamped = out_of_range.clamp();
    assert_eq!(clamped.c, CMYK_ONE);
    assert_eq!(clamped.m, CMYK_ONE);
    assert_eq!(clamped.y, 300_000);
    assert_eq!(clamped.k, 0);
}

#[test]
fn test_hsl_creation() {
    let hsl = Hsl::new(120_000, 50_000, 75_000);
    assert_eq!(hsl.h, 120_000);
    assert_eq!(hsl.s, 50_000);
    assert_eq!(hsl.l, 75_000);
}

#[test]
fn test_rgb_to_hsl_red() {
    let hsl = hsl_of_rgb(Rgb::new(255, 0, 0));
    assert_eq!(hsl.h, 0);
    assert_eq!(hsl.s, 100_000);
    assert_eq!(hsl.l, 50_000);
}

#[test]
fn test_rgb_to_hsl_green() {
    let hsl = hsl_of_rgb(Rgb::new(0, 255, 0));
    assert_eq!(hsl.h, 120_000);
    assert_eq!(hsl.s, 100_000);
    assert_eq!(hsl.l, 50_000);
}

#[test]
fn test_rgb_to_hsl_blue() {
    let hsl = hsl_of_rgb(Rgb::new(0, 0, 255));
    assert_eq!(hsl.h, 240_000);
    assert_eq!(hsl.s, 100_000);
    assert_eq!(hsl.l, 50_000);
}

#[test]
fn test_rgb_to_hsl_white() {
    let hsl = hsl_of_rgb(Rgb::new(255, 255, 255));
    assert_eq!(hsl.s, 0);
    assert_eq!(hsl.l, 100_000);
}

#[test]
fn test_rgb_to_hsl_black() {
    let hsl = hsl_of_rgb(Rgb::new(0, 0, 0));
    assert_eq!(hsl.s, 0);
    assert_eq!(hsl.l, 0);
}

#[test]
fn test_rgb_to_hsl_gray() {
    let hsl = hsl_of_rgb(Rgb::new(128, 128, 128));
    assert_eq!(hsl.s, 0);
    // about 50.2 percent
    assert!((hsl.l as i64 - 50_200).abs() < 500);
}

#[test]
fn test_hsl_to_rgb_red() {
    let rgb = Hsl::new(0, 100_000, 50_000).to_rgb();
    assert_eq!(rgb, Rgb::new(255, 0, 0));
}

#[test]
fn test_hsl_to_rgb_green() {
    let rgb = Hsl::new(120_000, 100_000, 50_000).to_rgb();
    assert_eq!(rgb, Rgb::new(0, 255, 0));
}

#[test]
fn test_hsl_to_rgb_blue() {
    let rgb = Hsl::new(240_000, 100_000, 50_000).to_rgb();
    assert_eq!(rgb, Rgb::new(0, 0, 255));
}

#[test]
fn test_hsl_to_rgb_white() {
    let rgb = Hsl::new(0, 0, 100_000).to_rgb();
    assert_eq!(rgb, Rgb::new(255, 255, 255));
}

#[test]
fn test_hsl_to_rgb_black() {
    let rgb = Hsl::new(0, 0, 0).to_rgb();
    assert_eq!(rgb, Rgb::new(0, 0, 0));
}

#[test]
fn test_hsl_to_rgb_gray() {
    let rgb = Hsl::new(0, 0, 50_000).to_rgb();
    assert!((rgb.r as i16 - 128).abs() <= 2);
    assert!((rgb.g as i16 - 128).abs() <= 2);
    assert!((rgb.b as i16 - 128).abs() <= 2);
}

#[test]
fn test_hsl_roundtrip() {
    let original = Rgb::new(200, 100, 50);
    let hsl = hsl_of_rgb(original);
    let restored = hsl.to_rgb();
    assert!((original.r as i16 - restored.r as i16).abs() <= 2);
    assert!((original.g as i16 - restored.g as i16).abs() <= 2);
    assert!((original.b as i16 - restored.b as i16).abs() <= 2);
}

#[test]
fn test_hsl_to_cmyk_cyan() {
    let cmyk = Hsl::new(180_000, 100_000, 50_000).to_cmyk();
    assert!((cmyk.c as i64 - 1_000_000).abs() < 10_000);
    assert!((cmyk.m as i64).abs() < 10_000);
    assert!((cmyk.y as i64).abs() < 10_000);
    assert!((cmyk.k as i64).abs() < 10_000);
}

#[test]
fn test_hsl_to_cmyk_gray() {
    let cmyk = Hsl::new(0, 0, 50_000).to_cmyk();
    assert_eq!(cmyk.c, 0);
    assert_eq!(cmyk.m, 0);
    assert_eq!(cmyk.y, 0);
    assert!((cmyk.k as i64 - 500_000).abs() < 10_000);
}

#[test]
fn test_hue_wraparound() {
    let rgb1 = Hsl::new(0, 100_000, 50_000).to_rgb();
    let rgb2 = Hsl::new(360_000, 100_000, 50_000).to_rgb();
    assert_eq!(rgb1, rgb2);
}

#[test]
fn test_cielab_creation() {
    let lab = CieLab::new(5_000_000, 2_500_000, -5_000_000);
    assert_eq!(lab.l, 5_000_000);
    assert_eq!(lab.a, 2_500_000);
    assert_eq!(lab.b, -5_000_000);
}

#[test]
fn test_rgb_to_cielab_white() {
    // L close to 100, a and b close to 0 (Lab units are scaled by 100000).
    let lab = CieLab::from_rgb(Rgb::new(255, 255, 255));
    assert!((lab.l - 10_000_000).abs() < 10_000);
    assert!(lab.a.abs() < 50_000);
    assert!(lab.b.abs() < 50_000);
}

#[test]
fn test_rgb_to_cielab_black() {
    let lab = CieLab::from_rgb(Rgb::new(0, 0, 0));
    assert!(lab.l.abs() < 10_000);
}

#[test]
fn test_rgb_to_cielab_red() {
    let lab = CieLab::from_rgb(Rgb::new(255, 0, 0));
    assert!(lab.l > 5_000_000 && lab.l < 5_500_000);
    assert!(lab.a > 7_500_000);
}

#[test]
fn test_rgb_to_cielab_green() {
    let lab = CieLab::from_rgb(Rgb::new(0, 255, 0));
    assert!(lab.l > 8_500_000 && lab.l < 9_000_000);
    assert!(lab.a < -7_500_000);
}

#[test]
fn test_rgb_to_cielab_blue() {
    let lab = CieLab::from_rgb(Rgb::new(0, 0, 255));
    assert!(lab.l > 3_000_000 && lab.l < 3_500_000);
    assert!(lab.b < -10_000_000);
}

#[test]
fn test_delta_e_same_color() {
    let color = CieLab::from_rgb(Rgb::new(128, 64, 200));
    assert_eq!(color.delta_e_sq(&color), 0);
    assert_eq!(color.delta_e(&color), 0);
}

#[test]
fn test_delta_e_symmetry() {
    let red = CieLab::from_rgb(Rgb::new(255, 0, 0));
    let green = CieLab::from_rgb(Rgb::new(0, 255, 0));
    assert_eq!(red.delta_e_sq(&green), green.delta_e_sq(&red));
}

#[test]
fn test_delta_e_different_colors() {
    // Red and green are very different: Delta E over 80 Lab units.
    let red = CieLab::from_rgb(Rgb::new(255, 0, 0));
    let green = CieLab::from_rgb(Rgb::new(0, 255, 0));
    assert!(red.delta_e(&green) > 8_000_000);
}

#[test]
fn test_delta_e_similar_colors() {
    // Neighboring grays: Delta E below 2 Lab units.
    let c1 = CieLab::from_rgb(Rgb::new(100, 100, 100));
    let c2 = CieLab::from_rgb(Rgb::new(101, 101, 101));
    assert!(c1.delta_e(&c2) < 200_000);
}

#[test]
fn test_delta_e_white_black() {
    let white = CieLab::from_rgb(Rgb::new(255, 255, 255));
    let black = CieLab::from_rgb(Rgb::new(0, 0, 0));
    assert!(white.delta_e(&black) > 9_900_000);
}

#[test]
fn test_delta_e_triangle_inequality() {
    let a = CieLab::from_rgb(Rgb::new(255, 0, 0));
    let b = CieLab::from_rgb(Rgb::new(0, 255, 0));
    let c = CieLab::from_rgb(Rgb::new(0, 0, 255));
    let d_ac = a.delta_e(&c);
    let d_ab = a.delta_e(&b);
    let d_bc = b.delta_e(&c);
    assert!(d_ac <= d_ab + d_bc + 1);
}

#[test]
fn test_cielab_gray_scale() {
    for gray in [0u8, 32, 64, 128, 192, 255] {
        let lab = CieLab::from_rgb(Rgb::new(gray, gray, gray));
        assert!(lab.a.abs() < 100_000, "gray {} has a = {}", gray, lab.a);
        assert!(lab.b.abs() < 100_000, "gray {} has b = {}", gray, lab.b);
    }
}

#[test]
fn test_color_distance_method_from_str() {
    assert_eq!(
        ColorDistanceMethod::from_str("RGB").unwrap(),
        ColorDistanceMethod::Rgb
    );
    assert_eq!(
        ColorDistanceMethod::from_str("CIELab").unwrap(),
        ColorDistanceMethod::CieLab
    );
    assert!(ColorDistanceMethod::from_str("Invalid").is_err());
}

#[test]
fn test_color_distance_method_as_str() {
    assert_eq!(ColorDistanceMethod::Rgb.as_str(), "RGB");
    assert_eq!(ColorDistanceMethod::CieLab.as_str(), "CIELab");
}

#[test]
fn test_color_distance_method_default() {
    assert_eq!(ColorDistanceMethod::default(), ColorDistanceMethod::CieLab);
}

#[test]
fn test_rgb_distance_same_color() {
    let color = Rgb::new(128, 64, 200);
    assert_eq!(color.distance(&color), 0);
}

#[test]
fn test_rgb_distance_symmetry() {
    let color1 = Rgb::new(100, 150, 200);
    let color2 = Rgb::new(110, 140, 210);
    assert_eq!(color1.distance(&color2), color2.distance(&color1));
}

#[test]
fn test_rgb_distance_values() {
    let black = Rgb::new(0, 0, 0);
    let white = Rgb::new(255, 255, 255);
    // 255^2 * 3 = 195075
    assert_eq!(black.distance(&white), 195075);
}

#[test]
fn test_find_closest_color_rgb() {
    let target = Rgb::new(100, 100, 100);
    let palette = vec![
        Rgb::new(0, 0, 0),
        Rgb::new(128, 128, 128),
        Rgb::new(255, 255, 255),
    ];
    let closest = find_closest_color(&target, &palette, ColorDistanceMethod::Rgb).unwrap();
    assert_eq!(closest, Rgb::new(128, 128, 128));
}

#[test]
fn test_find_closest_color_cielab() {
    let target = Rgb::new(200, 50, 50);
    let palette = vec![
        Rgb::new(255, 0, 0), // Red
        Rgb::new(0, 255, 0), // Green
        Rgb::new(0, 0, 255), // Blue
    ];
    let closest = find_closest_color(&target, &palette, ColorDistanceMethod::CieLab).unwrap();
    assert_eq!(closest, Rgb::new(255, 0, 0));
}

#[test]
fn test_find_closest_color_exact_match() {
    let target = Rgb::new(128, 64, 200);
    let palette = vec![
        Rgb::new(0, 0, 0),
        Rgb::new(128, 64, 200), // Exact match
        Rgb::new(255, 255, 255),
    ];
    let closest_rgb = find_closest_color(&target, &palette, ColorDistanceMethod::Rgb).unwrap();
    let closest_lab = find_closest_color(&target, &palette, ColorDistanceMethod::CieLab).unwrap();
    assert_eq!(closest_rgb, target);
    assert_eq!(closest_lab, target);
}

#[test]
fn test_find_closest_color_empty_palette() {
    let target = Rgb::new(128, 128, 128);
    let palette: Vec<Rgb> = vec![];
    let result = find_closest_color(&target, &palette, ColorDistanceMethod::Rgb);
    assert!(result.is_err());
}

#[test]
fn test_rgb_vs_cielab_difference() {
    let target = Rgb::new(128, 128, 0);
    let palette = vec![Rgb::new(255, 0, 0), Rgb::new(0, 255, 0)];
    let closest_rgb = find_closest_color(&target, &palette, ColorDistanceMethod::Rgb).unwrap();
    let closest_lab = find_closest_color(&target, &palette, ColorDistanceMethod::CieLab).unwrap();
    assert!(palette.contains(&closest_rgb));
    assert!(palette.contains(&closest_lab));
}

#[test]
fn test_find_closest_precomputed_matches_direct() {
    let palette = vec![Rgb::new(10, 20, 30), Rgb::new(200, 100, 50), Rgb::new(0, 0, 0)];
    let labs = palette_labs_of(&palette);
    for target in [Rgb::new(12, 22, 28), Rgb::new(190, 90, 60), Rgb::new(5, 5, 5)] {
        let direct = find_closest_color(&target, &palette, ColorDistanceMethod::CieLab).unwrap();
        let pre = find_closest_color_precomputed(
            &target,
            &palette,
            &labs,
            ColorDistanceMethod::CieLab,
        )
        .unwrap();
        assert_eq!(direct, pre);
    }
}
