//! Tests of the palette model: layers, stacks, the generator, the loader,
//! the palette store, and quantization.

use pixestl::color::cmyk::CMYK_ONE;
use pixestl::color::distance::ColorDistanceMethod;
use pixestl::color::rgb::Rgb;
use pixestl::palette::color_combi::ColorCombi;
use pixestl::palette::color_layer::ColorLayer;
use pixestl::palette::generator::{combine_combi_groups, compute_combination, create_multi_combi};
use pixestl::palette::loader::{
    LayerDefinition, PaletteColorEntry, PaletteLoader, PaletteLoaderConfig, PixelCreationMethod,
};
use pixestl::palette::quantize::{quantize_image, quantize_pixels, quantize_with_stats};
use pixestl::palette::store::Palette;
use std::cmp::Ordering;

fn create_red_layer(layers: u32) -> ColorLayer {
    ColorLayer::from_cmyk("#FF0000".to_string(), layers, 0, CMYK_ONE, CMYK_ONE, 0)
}

fn create_green_layer(layers: u32) -> ColorLayer {
    ColorLayer::from_cmyk("#00FF00".to_string(), layers, CMYK_ONE, 0, CMYK_ONE, 0)
}

fn create_blue_layer(layers: u32) -> ColorLayer {
    ColorLayer::from_cmyk("#0000FF".to_string(), layers, CMYK_ONE, CMYK_ONE, 0, 0)
}

fn create_white_layer(layers: u32) -> ColorLayer {
    ColorLayer::from_cmyk("#FFFFFF".to_string(), layers, 0, 0, 0, 0)
}

#[test]
fn test_color_layer_creation_from_hsl() {
    let layer = ColorLayer::new("#FF0000".to_string(), 5, 0, 100_000, 50_000);
    assert_eq!(layer.hex_code(), "#FF0000");
    assert_eq!(layer.layer(), 5);
    // Red: M = 1, Y = 1, K = 0.
    assert!((layer.m() as i64 - CMYK_ONE as i64).abs() < 10_000);
    assert!((layer.y() as i64 - CMYK_ONE as i64).abs() < 10_000);
    assert!((layer.k() as i64).abs() < 10_000);
}

#[test]
fn test_color_layer_from_cmyk() {
    let layer = ColorLayer::from_cmyk("#00FF00".to_string(), 3, 500_000, 0, 500_000, 200_000);
    assert_eq!(layer.hex_code(), "#00FF00");
    assert_eq!(layer.layer(), 3);
    assert_eq!(layer.c(), 500_000);
    assert_eq!(layer.m(), 0);
    assert_eq!(layer.y(), 500_000);
    assert_eq!(layer.k(), 200_000);
}

#[test]
fn test_color_layer_white() {
    let white = ColorLayer::new("#FFFFFF".to_string(), 5, 0, 0, 100_000);
    assert!((white.c() as i64).abs() < 10_000);
    assert!((white.m() as i64).abs() < 10_000);
    assert!((white.y() as i64).abs() < 10_000);
    assert!((white.k() as i64).abs() < 10_000);
}

#[test]
fn test_color_layer_black() {
    let black = ColorLayer::new("#000000".to_string(), 5, 0, 0, 0);
    assert!((black.k() as i64 - CMYK_ONE as i64).abs() < 10_000);
}

#[test]
fn test_compare_by_k_descending() {
    let darker = ColorLayer::from_cmyk("#000000".to_string(), 1, 0, 0, 0, 800_000);
    let lighter = ColorLayer::from_cmyk("#AAAAAA".to_string(), 1, 0, 0, 0, 200_000);
    assert_eq!(darker.compare_by_k(&lighter), Ordering::Less);
    assert_eq!(lighter.compare_by_k(&darker), Ordering::Greater);
}

#[test]
fn test_compare_by_k_equal() {
    let layer1 = ColorLayer::from_cmyk("#FF0000".to_string(), 1, 0, CMYK_ONE, CMYK_ONE, 0);
    let layer2 = ColorLayer::from_cmyk("#00FF00".to_string(), 1, CMYK_ONE, 0, CMYK_ONE, 0);
    assert_eq!(layer1.compare_by_k(&layer2), Ordering::Equal);
}

#[test]
fn test_combine_with() {
    let layer1 = create_red_layer(2);
    let layer2 = create_red_layer(3);
    let combined = layer1.combine_with(&layer2);
    assert_eq!(combined.hex_code(), "#FF0000");
    assert_eq!(combined.layer(), 5);
    assert_eq!(combined.m(), CMYK_ONE);
}

#[test]
fn color_layer_test_display() {
    let layer = ColorLayer::new("#FF0000".to_string(), 5, 0, 100_000, 50_000);
    assert_eq!(layer.display_string(), "#FF0000[5]");
}

#[test]
fn test_color_combi_creation() {
    let combi = ColorCombi::new(create_red_layer(5));
    assert_eq!(combi.total_colors(), 1);
    assert_eq!(combi.total_layers(), 5);
}

#[test]
fn test_combine_with_layer_success() {
    let combi = ColorCombi::new(create_red_layer(3));
    let new_combi = combi.combine_with_layer(create_green_layer(2), 10);
    assert!(new_combi.is_some());
    let new_combi = new_combi.unwrap();
    assert_eq!(new_combi.total_colors(), 2);
    assert_eq!(new_combi.total_layers(), 5);
}

#[test]
fn test_combine_with_layer_duplicate_hex() {
    let combi = ColorCombi::new(create_red_layer(3));
    assert!(combi.combine_with_layer(create_red_layer(2), 10).is_none());
}

#[test]
fn test_combine_with_layer_exceeds_max() {
    let combi = ColorCombi::new(create_red_layer(8));
    assert!(combi.combine_with_layer(create_green_layer(3), 10).is_none());
}

#[test]
fn test_combine_with_combi() {
    let combi1 = ColorCombi::new(create_red_layer(3));
    let combi2 = ColorCombi::new(create_green_layer(2));
    let combined = combi1.combine_with_combi(&combi2);
    assert_eq!(combined.total_colors(), 2);
    assert_eq!(combined.total_layers(), 5);
}

#[test]
fn test_compute_rgb_single_color() {
    let combi = ColorCombi::new(create_red_layer(5));
    let rgb = combi.compute_rgb();
    assert!(rgb.r > 200);
}

#[test]
fn test_compute_rgb_additive() {
    let layer1 = ColorLayer::from_cmyk(
        "#COLOR1".to_string(),
        1,
        500_000,
        300_000,
        200_000,
        100_000,
    );
    let layer2 = ColorLayer::from_cmyk(
        "#COLOR2".to_string(),
        1,
        300_000,
        500_000,
        400_000,
        200_000,
    );
    let mut combi = ColorCombi::new(layer1);
    combi.add_layer(layer2);
    // sums: c = 0.8, m = 0.8, y = 0.6, k = 0.3
    let rgb = combi.compute_rgb();
    assert_eq!(rgb, Rgb::new(36, 36, 71));
}

#[test]
fn test_factorize_consecutive_same_color() {
    let mut combi = ColorCombi::empty();
    combi.add_layer(create_red_layer(2));
    combi.add_layer(create_red_layer(3));
    assert_eq!(combi.total_colors(), 2);
    assert_eq!(combi.total_layers(), 5);
    combi.factorize();
    assert_eq!(combi.total_colors(), 1);
    assert_eq!(combi.total_layers(), 5);
    assert_eq!(combi.layers()[0].layer(), 5);
}

#[test]
fn test_factorize_non_consecutive() {
    let mut combi = ColorCombi::empty();
    combi.add_layer(create_red_layer(2));
    combi.add_layer(create_green_layer(3));
    combi.add_layer(create_red_layer(1));
    combi.factorize();
    assert_eq!(combi.total_colors(), 3);
}

#[test]
fn test_layers_with_hex() {
    let mut combi = ColorCombi::empty();
    combi.add_layer(create_red_layer(2));
    combi.add_layer(create_green_layer(3));
    combi.add_layer(create_red_layer(1));
    assert_eq!(combi.layers_with_hex("#FF0000").len(), 2);
    assert_eq!(combi.layers_with_hex("#00FF00").len(), 1);
}

#[test]
fn test_layer_position() {
    let mut combi = ColorCombi::empty();
    combi.add_layer(create_red_layer(2));
    combi.add_layer(create_green_layer(3));
    combi.add_layer(create_red_layer(1));
    assert_eq!(combi.layer_position("#FF0000", 0), Some(0));
    assert_eq!(combi.layer_position("#00FF00", 0), Some(2));
    assert_eq!(combi.layer_position("#FF0000", 1), Some(5));
    assert_eq!(combi.layer_position("#FF0000", 2), None);
}

#[test]
fn test_optimize_white_layers() {
    let mut combi = ColorCombi::empty();
    combi.add_layer(create_white_layer(1));
    combi.add_layer(create_red_layer(3));
    combi.add_layer(create_white_layer(1));
    combi.optimize_white_layers(2);
    assert_eq!(combi.layers()[0].hex_code(), "#FFFFFF");
    assert_eq!(combi.layers()[1].hex_code(), "#FF0000");
    assert_eq!(combi.layers()[2].hex_code(), "#FFFFFF");
}

#[test]
fn color_combi_test_display() {
    let mut combi = ColorCombi::new(create_red_layer(3));
    combi.add_layer(create_green_layer(2));
    let display = combi.display_string();
    assert!(display.contains("#FF0000[3]"));
    assert!(display.contains("#00FF00[2]"));
}

#[test]
fn test_create_multi_combi_single_layer() {
    let layers = vec![create_red_layer(5)];
    let combis = create_multi_combi(None, &layers, 5);
    assert_eq!(combis.len(), 1);
    assert_eq!(combis[0].total_layers(), 5);
    assert_eq!(combis[0].total_colors(), 1);
}

#[test]
fn test_create_multi_combi_two_layers() {
    let layers = vec![create_red_layer(3), create_green_layer(2)];
    let combis = create_multi_combi(None, &layers, 5);
    assert_eq!(combis.len(), 1);
    assert_eq!(combis[0].total_layers(), 5);
    assert_eq!(combis[0].total_colors(), 2);
}

#[test]
fn test_create_multi_combi_multiple_combinations() {
    let layers = vec![
        create_red_layer(1),
        create_green_layer(2),
        create_blue_layer(2),
    ];
    let combis = create_multi_combi(None, &layers, 5);
    assert!(combis.len() >= 1);
    assert!(combis.iter().all(|c| c.total_layers() == 5));
}

#[test]
fn test_create_multi_combi_with_restriction() {
    let layers = vec![
        create_red_layer(3),
        create_green_layer(2),
        create_blue_layer(2),
    ];
    let restrict = vec!["#FF0000".to_string(), "#00FF00".to_string()];
    let combis = create_multi_combi(Some(&restrict), &layers, 5);
    assert!(combis.iter().all(|c| {
        c.layers()
            .iter()
            .all(|l| l.hex_code() == "#FF0000" || l.hex_code() == "#00FF00")
    }));
}

#[test]
fn test_create_multi_combi_filters_exact_count() {
    let layers = vec![create_red_layer(3), create_green_layer(1)];
    let combis = create_multi_combi(None, &layers, 5);
    assert!(combis.iter().all(|c| c.total_layers() == 5));
}

#[test]
fn test_combine_combi_groups() {
    let group1 = vec![ColorCombi::new(create_red_layer(5))];
    let group2 = vec![ColorCombi::new(create_green_layer(5))];
    let combined = combine_combi_groups(&group1, &group2);
    assert_eq!(combined.len(), 1);
    assert_eq!(combined[0].total_colors(), 2);
    assert_eq!(combined[0].total_layers(), 10);
}

#[test]
fn test_combine_combi_groups_multiple() {
    let group1 = vec![
        ColorCombi::new(create_red_layer(3)),
        ColorCombi::new(create_green_layer(2)),
    ];
    let group2 = vec![
        ColorCombi::new(create_blue_layer(3)),
        ColorCombi::new(create_white_layer(2)),
    ];
    let combined = combine_combi_groups(&group1, &group2);
    assert_eq!(combined.len(), 4);
    assert!(combined.iter().all(|c| c.total_colors() == 2));
    let layer_counts: Vec<u32> = combined.iter().map(|c| c.total_layers()).collect();
    assert!(layer_counts.contains(&6));
    assert!(layer_counts.contains(&5));
    assert!(layer_counts.contains(&4));
}

#[test]
fn test_compute_combination_no_duplicates() {
    let layers = vec![create_red_layer(2), create_red_layer(3)];
    let base = ColorCombi::new(create_red_layer(1));
    let mut out: Vec<ColorCombi> = Vec::new();
    compute_combination(None, &base, &layers, 0, 5, &mut out);
    assert_eq!(out.len(), 0);
}

#[test]
fn test_compute_combination_respects_max_layers() {
    let layers = vec![create_green_layer(4)];
    let base = ColorCombi::new(create_red_layer(3));
    let mut out: Vec<ColorCombi> = Vec::new();
    compute_combination(None, &base, &layers, 0, 5, &mut out);
    assert_eq!(out.len(), 0);
}

#[test]
fn test_realistic_palette_scenario() {
    let layers = vec![
        create_red_layer(1),
        create_red_layer(2),
        create_green_layer(1),
        create_green_layer(2),
        create_white_layer(1),
        create_white_layer(2),
    ];
    let combis = create_multi_combi(None, &layers, 5);
    assert!(combis.len() > 0);
    assert!(combis.iter().all(|c| c.total_layers() == 5));
}

#[test]
fn test_partition_enumeration_one_filament_plus_white() {
    // One filament plus white: exactly the distinct (filament, white)
    // partitions of the budget drawn from the measured layer counts.
    let layers = vec![
        create_red_layer(2),
        create_red_layer(3),
        create_red_layer(5),
        create_white_layer(5),
        create_white_layer(2),
        create_white_layer(3),
    ];
    let combis = create_multi_combi(None, &layers, 5);
    let mut shapes: Vec<Vec<(String, u32)>> = combis
        .iter()
        .map(|c| {
            c.layers()
                .iter()
                .map(|l| (l.hex_code().to_string(), l.layer()))
                .collect()
        })
        .collect();
    shapes.sort();
    let mut expected = vec![
        vec![("#FF0000".to_string(), 2), ("#FFFFFF".to_string(), 3)],
        vec![("#FF0000".to_string(), 3), ("#FFFFFF".to_string(), 2)],
        vec![("#FF0000".to_string(), 5)],
        vec![("#FFFFFF".to_string(), 5)],
    ];
    expected.sort();
    assert_eq!(shapes, expected);
}

fn red_white_entries() -> Vec<(String, PaletteColorEntry)> {
    vec![
        (
            "#FF0000".to_string(),
            PaletteColorEntry {
                name: "Red".to_string(),
                active: true,
                layers: Some(vec![
                    (
                        "5".to_string(),
                        LayerDefinition::Hsl { h: 0, s: 100_000, l: 50_000 },
                    ),
                    (
                        "3".to_string(),
                        LayerDefinition::Hsl { h: 0, s: 100_000, l: 60_000 },
                    ),
                    (
                        "2".to_string(),
                        LayerDefinition::Hsl { h: 0, s: 100_000, l: 70_000 },
                    ),
                ]),
            },
        ),
        (
            "#00FF00".to_string(),
            PaletteColorEntry {
                name: "Green".to_string(),
                active: true,
                layers: Some(vec![
                    (
                        "5".to_string(),
                        LayerDefinition::Hsl { h: 120_000, s: 100_000, l: 50_000 },
                    ),
                    (
                        "3".to_string(),
                        LayerDefinition::Hsl { h: 120_000, s: 100_000, l: 60_000 },
                    ),
                ]),
            },
        ),
        (
            "#FFFFFF".to_string(),
            PaletteColorEntry {
                name: "White".to_string(),
                active: true,
                layers: Some(vec![(
                    "5".to_string(),
                    LayerDefinition::Hsl { h: 0, s: 0, l: 100_000 },
                )]),
            },
        ),
        (
            "#0000FF".to_string(),
            PaletteColorEntry {
                name: "Blue (Inactive)".to_string(),
                active: false,
                layers: Some(vec![(
                    "5".to_string(),
                    LayerDefinition::Hsl { h: 240_000, s: 100_000, l: 50_000 },
                )]),
            },
        ),
    ]
}

#[test]
fn test_load_palette_basic() {
    let entries = red_white_entries();
    let config = PaletteLoaderConfig::default();
    let palette = PaletteLoader::load_from_entries(&entries, &config).unwrap();
    assert!(palette.color_count() > 0);
    assert_eq!(
        palette.get_color_name("#FF0000").map(|s| s.as_str()),
        Some("Red")
    );
    assert_eq!(
        palette.get_color_name("#00FF00").map(|s| s.as_str()),
        Some("Green")
    );
    assert_eq!(
        palette.get_color_name("#FFFFFF").map(|s| s.as_str()),
        Some("White")
    );
    assert_eq!(
        palette.get_color_name("#0000FF").map(|s| s.as_str()),
        Some("Blue (Inactive)")
    );
}

#[test]
fn test_load_palette_requires_white() {
    let entries = vec![(
        "#FF0000".to_string(),
        PaletteColorEntry {
            name: "Red".to_string(),
            active: true,
            layers: Some(vec![(
                "5".to_string(),
                LayerDefinition::Hsl { h: 0, s: 100_000, l: 50_000 },
            )]),
        },
    )];
    let config = PaletteLoaderConfig::default();
    let result = PaletteLoader::load_from_entries(&entries, &config);
    assert!(result.is_err());
    assert!(result
        .unwrap_err()
        .message()
        .contains("\"#FFFFFF\" not found"));
}

#[test]
fn test_load_palette_hexcode_layer_def() {
    let entries = vec![
        (
            "#FF0000".to_string(),
            PaletteColorEntry {
                name: "Red".to_string(),
                active: true,
                layers: Some(vec![(
                    "5".to_string(),
                    LayerDefinition::Hexcode { hexcode: "#FF0000".to_string() },
                )]),
            },
        ),
        (
            "#FFFFFF".to_string(),
            PaletteColorEntry {
                name: "White".to_string(),
                active: true,
                layers: Some(vec![(
                    "5".to_string(),
                    LayerDefinition::Hsl { h: 0, s: 0, l: 100_000 },
                )]),
            },
        ),
    ];
    let config = PaletteLoaderConfig::default();
    let palette = PaletteLoader::load_from_entries(&entries, &config).unwrap();
    assert!(palette.color_count() > 0);
}

#[test]
fn test_create_color_layers() {
    let entries = vec![(
        "#FF0000".to_string(),
        PaletteColorEntry {
            name: "Red".to_string(),
            active: true,
            layers: Some(vec![(
                "5".to_string(),
                LayerDefinition::Hsl { h: 0, s: 100_000, l: 50_000 },
            )]),
        },
    )];
    let config = PaletteLoaderConfig::default();
    let color_layers = PaletteLoader::create_color_layers(&entries, &config).unwrap();
    assert_eq!(color_layers.len(), 1);
    assert_eq!(color_layers[0].hex_code(), "#FF0000");
    assert_eq!(color_layers[0].layer(), 5);
}

#[test]
fn loader_test_palette_groups() {
    let entries = red_white_entries();
    let config = PaletteLoaderConfig::default();
    let palette = PaletteLoader::load_from_entries(&entries, &config).unwrap();
    assert!(palette.nb_groups() > 0);
    assert!(!palette.hex_color_groups().is_empty());
}

#[test]
fn test_loader_layer_budget_invariant() {
    // Every stored stack carries exactly nb_layers * nb_groups layers.
    let entries = red_white_entries();
    let config = PaletteLoaderConfig::default();
    let palette = PaletteLoader::load_from_entries(&entries, &config).unwrap();
    let budget = palette.layer_count() as u32;
    for (_, combi) in &palette.quantized_colors {
        assert_eq!(combi.total_layers(), budget);
    }
}

#[test]
fn test_loader_invalid_layer_key() {
    let mut entries = red_white_entries();
    entries[0]
        .1
        .layers
        .as_mut()
        .unwrap()
        .push(("abc".to_string(), LayerDefinition::Hsl { h: 0, s: 0, l: 0 }));
    let config = PaletteLoaderConfig::default();
    let result = PaletteLoader::load_from_entries(&entries, &config);
    assert!(result.is_err());
}

#[test]
fn test_loader_invalid_hex_key() {
    let mut entries = red_white_entries();
    entries.push((
        "nonsense".to_string(),
        PaletteColorEntry { name: "Broken".to_string(), active: false, layers: None },
    ));
    let config = PaletteLoaderConfig::default();
    let result = PaletteLoader::load_from_entries(&entries, &config);
    assert!(result.is_err());
}

#[test]
fn test_two_slot_groups() {
    // Four filaments with a slot quota of two: two groups, each closed by
    // white, and one slot list per quota slot plus the white slot.
    let mk = |hex: &str, name: &str, h: u64| {
        (
            hex.to_string(),
            PaletteColorEntry {
                name: name.to_string(),
                active: true,
                layers: Some(vec![(
                    "5".to_string(),
                    LayerDefinition::Hsl { h, s: 100_000, l: 50_000 },
                )]),
            },
        )
    };
    let mut entries = vec![
        mk("#FF0000", "Red", 0),
        mk("#00FF00", "Green", 120_000),
        mk("#0000FF", "Blue", 240_000),
    ];
    entries.push((
        "#FFFFFF".to_string(),
        PaletteColorEntry {
            name: "White".to_string(),
            active: true,
            layers: Some(vec![(
                "5".to_string(),
                LayerDefinition::Hsl { h: 0, s: 0, l: 100_000 },
            )]),
        },
    ));
    let config = PaletteLoaderConfig {
        nb_layers: 5,
        creation_method: PixelCreationMethod::Additive,
        color_number: 3,
        distance_method: ColorDistanceMethod::CieLab,
    };
    let palette = PaletteLoader::load_from_entries(&entries, &config).unwrap();
    assert_eq!(palette.nb_groups(), 2);
    assert_eq!(palette.layer_count(), 10);
    // two quota slots plus the white slot
    assert_eq!(palette.hex_color_groups().len(), 3);
    assert_eq!(
        palette.hex_color_groups().last().unwrap(),
        &vec!["#FFFFFF".to_string()]
    );
    // every combined stack spans both groups
    let budget = palette.layer_count() as u32;
    for (_, combi) in &palette.quantized_colors {
        assert_eq!(combi.total_layers(), budget);
    }
}

#[test]
fn test_palette_creation() {
    let palette = Palette::new(5);
    assert_eq!(palette.color_count(), 0);
    assert_eq!(palette.nb_groups(), 0);
    assert_eq!(palette.layer_count(), 0);
}

#[test]
fn test_palette_add_combi() {
    let mut palette = Palette::new(5);
    let layer = ColorLayer::new("#FF0000".to_string(), 5, 0, 100_000, 50_000);
    palette.add_combi(ColorCombi::new(layer));
    assert_eq!(palette.color_count(), 1);
}

#[test]
fn test_palette_find_closest() {
    let mut palette = Palette::new(5);
    let red_layer = ColorLayer::new("#FF0000".to_string(), 5, 0, 100_000, 50_000);
    palette.add_combi(ColorCombi::new(red_layer));
    let target = Rgb::new(250, 10, 10);
    let closest = palette.find_closest(&target, ColorDistanceMethod::Rgb);
    assert!(closest.is_some());
}

#[test]
fn test_palette_hex_codes() {
    let mut palette = Palette::new(5);
    palette.set_hex_codes(vec![
        ("#FF0000".to_string(), "Red".to_string()),
        ("#00FF00".to_string(), "Green".to_string()),
    ]);
    assert_eq!(
        palette.get_color_name("#FF0000").map(|s| s.as_str()),
        Some("Red")
    );
    assert_eq!(
        palette.get_color_name("#00FF00").map(|s| s.as_str()),
        Some("Green")
    );
    assert!(palette.get_color_name("#0000FF").is_none());
}

#[test]
fn mod_test_palette_groups() {
    let mut palette = Palette::new(5);
    palette.set_nb_groups(3);
    assert_eq!(palette.nb_groups(), 3);
    assert_eq!(palette.layer_count(), 15);
}

#[test]
fn test_quantize_pixels_basic() {
    let pixels = vec![
        Rgb::new(255, 0, 0),
        Rgb::new(128, 128, 0),
        Rgb::new(0, 255, 0),
    ];
    let palette = vec![Rgb::new(255, 0, 0), Rgb::new(0, 255, 0)];
    let quantized = quantize_pixels(&pixels, &palette, ColorDistanceMethod::Rgb).unwrap();
    assert_eq!(quantized.len(), pixels.len());
    assert_eq!(quantized[0], Rgb::new(255, 0, 0));
    assert_eq!(quantized[2], Rgb::new(0, 255, 0));
}

#[test]
fn test_quantize_pixels_empty_palette() {
    let pixels = vec![Rgb::new(128, 128, 128)];
    let palette = vec![];
    let result = quantize_pixels(&pixels, &palette, ColorDistanceMethod::Rgb);
    assert!(matches!(
        result,
        Err(pixestl::error::PixestlError::InvalidPalette(_))
    ));
}

#[test]
fn test_quantize_image_empty_palette() {
    let image = vec![vec![Rgb::new(10, 20, 30)]];
    let palette = vec![];
    let result = quantize_image(&image, &palette, ColorDistanceMethod::Rgb);
    assert!(matches!(
        result,
        Err(pixestl::error::PixestlError::InvalidPalette(_))
    ));
}

#[test]
fn test_quantize_image_2d() {
    let image = vec![
        vec![Rgb::new(255, 0, 0), Rgb::new(128, 0, 0)],
        vec![Rgb::new(0, 255, 0), Rgb::new(0, 128, 0)],
    ];
    let palette = vec![Rgb::new(255, 0, 0), Rgb::new(0, 255, 0)];
    let quantized = quantize_image(&image, &palette, ColorDistanceMethod::Rgb).unwrap();
    assert_eq!(quantized.len(), image.len());
    assert_eq!(quantized[0].len(), image[0].len());
}

#[test]
fn test_quantize_with_stats() {
    let pixels = vec![
        Rgb::new(255, 0, 0),
        Rgb::new(255, 0, 0),
        Rgb::new(0, 255, 0),
    ];
    let palette = vec![Rgb::new(255, 0, 0), Rgb::new(0, 255, 0)];
    let (quantized, stats) =
        quantize_with_stats(&pixels, &palette, ColorDistanceMethod::Rgb).unwrap();
    assert_eq!(quantized.len(), 3);
    assert_eq!(stats.total_pixels, 3);
    assert_eq!(stats.colors_used, 2);
    assert_eq!(stats.count_for(&Rgb::new(255, 0, 0)), 2);
    assert_eq!(stats.count_for(&Rgb::new(0, 255, 0)), 1);
}

#[test]
fn test_quantize_large_image_parallel() {
    let pixels: Vec<Rgb> = (0..10000)
        .map(|i| Rgb::new((i % 256) as u8, ((i / 256) % 256) as u8, 128))
        .collect();
    let palette = vec![
        Rgb::new(0, 0, 128),
        Rgb::new(128, 0, 128),
        Rgb::new(255, 0, 128),
        Rgb::new(0, 128, 128),
        Rgb::new(128, 128, 128),
    ];
    let quantized = quantize_pixels(&pixels, &palette, ColorDistanceMethod::Rgb).unwrap();
    assert_eq!(quantized.len(), pixels.len());
    assert!(quantized.iter().all(|c| palette.contains(c)));
}

#[test]
fn test_quantize_cielab_vs_rgb() {
    let pixel = Rgb::new(200, 100, 50);
    let palette = vec![
        Rgb::new(255, 0, 0),
        Rgb::new(0, 255, 0),
        Rgb::new(0, 0, 255),
        Rgb::new(255, 128, 0),
    ];
    let q_rgb = quantize_pixels(&[pixel].to_vec(), &palette, ColorDistanceMethod::Rgb).unwrap();
    let q_lab =
        quantize_pixels(&[pixel].to_vec(), &palette, ColorDistanceMethod::CieLab).unwrap();
    assert!(palette.contains(&q_rgb[0]));
    assert!(palette.contains(&q_lab[0]));
}

#[test]
fn test_pixel_creation_method() {
    let method = pixestl::lithophane::PixelCreationMethod::Additive;
    assert_eq!(method, pixestl::lithophane::PixelCreationMethod::Additive);
    let method = pixestl::lithophane::PixelCreationMethod::Full;
    assert_eq!(method, pixestl::lithophane::PixelCreationMethod::Full);
}
