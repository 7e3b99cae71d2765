//! Tests of the lithophane pipeline: configuration, geometry, the window
//! clip, the synthesizers, the calibration pattern, and full scenarios.

use pixestl::color::distance::ColorDistanceMethod;
use pixestl::image::{PixelGrid, Rgba};
use pixestl::lithophane::calibration::{
    calibration_grid_dimensions, generate_calibration_pattern, sanitize_filename,
};
use pixestl::lithophane::color_layer::{
    apply_layer_offset, collect_color_prisms, generate_color_layer, has_transparent_neighbor,
    prisms_to_mesh, Prism,
};
use pixestl::lithophane::config::LithophaneConfig;
use pixestl::lithophane::geometry::{Mesh, Triangle, Vector3};
use pixestl::lithophane::generator::LithophaneGenerator;
use pixestl::lithophane::support_plate::generate_support_plate;
use pixestl::lithophane::texture_layer::{generate_texture_layer, get_pixel_height};
use pixestl::palette::loader::{
    LayerDefinition, PaletteColorEntry, PaletteLoader, PaletteLoaderConfig,
};

fn grid_from_fn(width: usize, height: usize, f: impl Fn(usize, usize) -> Rgba) -> PixelGrid {
    let mut pixels = Vec::new();
    for y in 0..height {
        for x in 0..width {
            pixels.push(f(x, y));
        }
    }
    PixelGrid::from_pixels(width, height, pixels).unwrap()
}

fn uniform_grid(width: usize, height: usize, c: [u8; 3]) -> PixelGrid {
    grid_from_fn(width, height, |_, _| Rgba::new(c[0], c[1], c[2], 255))
}

// --- configuration ---

#[test]
fn test_default_config_is_valid() {
    assert!(LithophaneConfig::default().validate().is_ok());
}

#[test]
fn test_invalid_color_pixel_width() {
    let config = LithophaneConfig { color_pixel_width: 0, ..LithophaneConfig::default() };
    assert!(config.validate().is_err());
}

#[test]
fn test_invalid_texture_pixel_width() {
    let config = LithophaneConfig { texture_pixel_width: 0, ..LithophaneConfig::default() };
    assert!(config.validate().is_err());
}

#[test]
fn test_invalid_layer_thickness() {
    let config =
        LithophaneConfig { color_pixel_layer_thickness: 0, ..LithophaneConfig::default() };
    assert!(config.validate().is_err());
}

#[test]
fn test_invalid_layer_number() {
    let config = LithophaneConfig { color_pixel_layer_number: 0, ..LithophaneConfig::default() };
    assert!(config.validate().is_err());
}

#[test]
fn test_invalid_texture_thickness_range() {
    let defaults = LithophaneConfig::default();
    let config =
        LithophaneConfig { texture_max_thickness: defaults.texture_min_thickness, ..defaults };
    assert!(config.validate().is_err());
}

#[test]
fn test_invalid_no_layers_enabled() {
    let config = LithophaneConfig {
        color_layer: false,
        texture_layer: false,
        ..LithophaneConfig::default()
    };
    assert!(config.validate().is_err());
}

#[test]
fn config_test_total_color_layer_height() {
    let config = LithophaneConfig {
        color_pixel_layer_thickness: 100,
        color_pixel_layer_number: 5,
        ..LithophaneConfig::default()
    };
    assert_eq!(config.total_color_layer_height(), 500);
}

#[test]
fn test_valid_curve_zero() {
    let config = LithophaneConfig { curve: 0, ..LithophaneConfig::default() };
    assert!(config.validate().is_ok());
}

#[test]
fn test_valid_curve_360() {
    let config = LithophaneConfig { curve: 360, ..LithophaneConfig::default() };
    assert!(config.validate().is_ok());
}

#[test]
fn test_valid_curve_90() {
    let config = LithophaneConfig { curve: 90, ..LithophaneConfig::default() };
    assert!(config.validate().is_ok());
}

#[test]
fn test_invalid_curve_over_360() {
    let config = LithophaneConfig { curve: 400, ..LithophaneConfig::default() };
    assert!(config.validate().is_err());
}

#[test]
fn test_config_defaults() {
    let config = LithophaneConfig::default();
    assert_eq!(config.color_pixel_width, 800);
    assert_eq!(config.color_pixel_layer_thickness, 100);
    assert_eq!(config.color_pixel_layer_number, 5);
    assert_eq!(config.texture_pixel_width, 250);
    assert_eq!(config.texture_min_thickness, 300);
    assert_eq!(config.texture_max_thickness, 1800);
    assert_eq!(config.plate_thickness, 200);
    assert!(config.color_layer);
    assert!(config.texture_layer);
}

#[test]
fn test_config_validation() {
    let config = LithophaneConfig {
        color_layer: false,
        texture_layer: false,
        ..LithophaneConfig::default()
    };
    assert!(config.validate().is_err());

    let config = LithophaneConfig { color_pixel_width: 0, ..LithophaneConfig::default() };
    assert!(config.validate().is_err());

    let config = LithophaneConfig {
        texture_min_thickness: 2000,
        texture_max_thickness: 1000,
        ..LithophaneConfig::default()
    };
    assert!(config.validate().is_err());

    assert!(LithophaneConfig::default().validate().is_ok());
}

// --- geometry ---

#[test]
fn test_vector3_creation() {
    let v = Vector3::new(1, 2, 3);
    assert_eq!(v.x, 1);
    assert_eq!(v.y, 2);
    assert_eq!(v.z, 3);
}

#[test]
fn test_vector3_zero() {
    let v = Vector3::zero();
    assert_eq!(v, Vector3::new(0, 0, 0));
}

#[test]
fn test_vector3_add() {
    let v3 = Vector3::new(1, 2, 3).add(&Vector3::new(4, 5, 6));
    assert_eq!(v3, Vector3::new(5, 7, 9));
}

#[test]
fn test_vector3_sub() {
    let v3 = Vector3::new(4, 5, 6).sub(&Vector3::new(1, 2, 3));
    assert_eq!(v3, Vector3::new(3, 3, 3));
}

#[test]
fn test_vector3_dot() {
    let dot = Vector3::new(1, 2, 3).dot(&Vector3::new(4, 5, 6));
    assert_eq!(dot, 32);
}

#[test]
fn test_vector3_cross() {
    let cross = Vector3::new(1, 0, 0).cross(&Vector3::new(0, 1, 0));
    assert_eq!(cross, (0, 0, 1));
}

#[test]
fn test_vector3_length() {
    let v = Vector3::new(3, 4, 0);
    assert_eq!(v.length(), 5);
}

#[test]
fn test_triangle_translate() {
    let t = Triangle::new(
        Vector3::new(0, 0, 0),
        Vector3::new(1, 0, 0),
        Vector3::new(0, 1, 0),
    );
    let translated = t.translate(Vector3::new(10, 20, 30));
    assert_eq!(translated.v0, Vector3::new(10, 20, 30));
    assert_eq!(translated.v1, Vector3::new(11, 20, 30));
    assert_eq!(translated.v2, Vector3::new(10, 21, 30));
}

#[test]
fn test_mesh_creation() {
    let mesh = Mesh::new();
    assert_eq!(mesh.triangle_count(), 0);
}

#[test]
fn test_mesh_add_triangle() {
    let mut mesh = Mesh::new();
    mesh.add_triangle(Triangle::new(
        Vector3::zero(),
        Vector3::new(1, 0, 0),
        Vector3::new(0, 1, 0),
    ));
    assert_eq!(mesh.triangle_count(), 1);
}

#[test]
fn test_mesh_cube() {
    let mesh = Mesh::cube(2000, 2000, 2000, Vector3::zero());
    assert_eq!(mesh.triangle_count(), 12);
}

#[test]
fn test_mesh_translate() {
    let mesh = Mesh::cube(2000, 2000, 2000, Vector3::zero());
    let translated = mesh.translate(Vector3::new(10, 20, 30));
    assert_eq!(translated.triangle_count(), mesh.triangle_count());
}

#[test]
fn test_mesh_merge() {
    let mut mesh1 = Mesh::cube(1000, 1000, 1000, Vector3::zero());
    let mesh2 = Mesh::cube(1000, 1000, 1000, Vector3::new(2000, 0, 0));
    mesh1.merge(&mesh2);
    assert_eq!(mesh1.triangle_count(), 24);
}

// --- window clip ---

#[test]
fn test_apply_layer_offset_no_offset() {
    let (h, b) = apply_layer_offset(3, 0, 0, 5);
    assert_eq!(h, 3);
    assert_eq!(b, 0);
}

#[test]
fn test_apply_layer_offset_entirely_above_range() {
    let (h, _) = apply_layer_offset(3, 10, 0, 5);
    assert_eq!(h, 0);
}

#[test]
fn test_apply_layer_offset_entirely_below_offset() {
    let (h, _) = apply_layer_offset(2, 0, 5, 5);
    assert_eq!(h, 0);
}

#[test]
fn test_apply_layer_offset_partial_clip_from_bottom() {
    let (h, b) = apply_layer_offset(4, 1, 3, 5);
    assert_eq!(h, 2);
    assert_eq!(b, 0);
}

#[test]
fn test_apply_layer_offset_partial_clip_from_top() {
    let (h, b) = apply_layer_offset(5, 3, 0, 5);
    assert_eq!(h, 2);
    assert_eq!(b, 3);
}

#[test]
fn test_apply_layer_offset_exact_boundary() {
    let (h, b) = apply_layer_offset(5, 0, 0, 5);
    assert_eq!(h, 5);
    assert_eq!(b, 0);
}

#[test]
fn test_apply_layer_offset_clamp_to_max() {
    let (h, b) = apply_layer_offset(10, 0, 2, 3);
    assert_eq!(h, 3);
    assert_eq!(b, 0);
}

// --- transparency moat ---

fn image_with_transparent_center(width: usize, height: usize) -> PixelGrid {
    grid_from_fn(width, height, |x, y| {
        if x == width / 2 && y == height / 2 {
            Rgba::new(0, 0, 0, 0)
        } else {
            Rgba::new(255, 0, 0, 255)
        }
    })
}

#[test]
fn test_has_transparent_neighbor_all_opaque() {
    let image = uniform_grid(3, 3, [255, 0, 0]);
    assert!(!has_transparent_neighbor(&image, 1, 1));
}

#[test]
fn test_has_transparent_neighbor_with_transparent() {
    let image = image_with_transparent_center(3, 3);
    assert!(has_transparent_neighbor(&image, 0, 0));
}

#[test]
fn test_has_transparent_neighbor_corner_pixel() {
    let image = uniform_grid(3, 3, [255, 0, 0]);
    assert!(!has_transparent_neighbor(&image, 0, 0));
}

#[test]
fn test_has_transparent_neighbor_edge_pixel() {
    let image = uniform_grid(3, 3, [255, 0, 0]);
    assert!(!has_transparent_neighbor(&image, 1, 0));
}

// --- texture synthesizer ---

#[test]
fn test_get_pixel_height_white() {
    let image = uniform_grid(1, 1, [255, 255, 255]);
    assert_eq!(get_pixel_height(&image, 0, 0, 300, 1800), 300);
}

#[test]
fn test_get_pixel_height_black() {
    let image = uniform_grid(1, 1, [0, 0, 0]);
    assert_eq!(get_pixel_height(&image, 0, 0, 300, 1800), 1800);
}

#[test]
fn test_get_pixel_height_gray() {
    let image = uniform_grid(1, 1, [128, 128, 128]);
    let height = get_pixel_height(&image, 0, 0, 300, 1800);
    assert!(height > 300 && height < 1800);
}

#[test]
fn test_get_pixel_height_mid_gray_exact() {
    // K of (128,128,128) is 127/255; 300 + 498039 * 1500 / 1000000 = 1047.
    let image = uniform_grid(8, 8, [128, 128, 128]);
    for y in 0..8 {
        for x in 0..8 {
            assert_eq!(get_pixel_height(&image, x, y, 300, 1800), 1047);
        }
    }
}

#[test]
fn test_generate_texture_layer_2x2() {
    let image = uniform_grid(2, 2, [128, 128, 128]);
    let config = LithophaneConfig::default();
    let mesh = generate_texture_layer(&image, &config).unwrap();
    assert_eq!(mesh.triangle_count(), 10);
}

#[test]
fn test_generate_texture_layer_3x3() {
    let image = uniform_grid(3, 3, [128, 128, 128]);
    let config = LithophaneConfig::default();
    let mesh = generate_texture_layer(&image, &config).unwrap();
    assert_eq!(mesh.triangle_count(), 24);
}

#[test]
fn test_generate_texture_layer_8x8() {
    // 2 * 7 * 7 top triangles plus 4 * 2 * 7 wall triangles.
    let image = uniform_grid(8, 8, [128, 128, 128]);
    let config = LithophaneConfig::default();
    let mesh = generate_texture_layer(&image, &config).unwrap();
    assert_eq!(mesh.triangle_count(), 154);
}

#[test]
fn test_texture_heights_monotonic_with_darkness() {
    let light = uniform_grid(1, 1, [200, 200, 200]);
    let dark = uniform_grid(1, 1, [50, 50, 50]);
    let h_light = get_pixel_height(&light, 0, 0, 300, 1800);
    let h_dark = get_pixel_height(&dark, 0, 0, 300, 1800);
    assert!(h_dark > h_light);
}

// --- support plate ---

#[test]
fn test_support_plate_dimensions() {
    let image = uniform_grid(4, 2, [255, 255, 255]);
    let config = LithophaneConfig::default();
    let mesh = generate_support_plate(&image, &config).unwrap();
    assert_eq!(mesh.triangle_count(), 12);
    // plate spans 3.2 mm x 1.6 mm, half a plate below zero
    let mut max_z = i64::MIN;
    let mut min_z = i64::MAX;
    for t in &mesh.triangles {
        for v in [t.v0, t.v1, t.v2] {
            max_z = max_z.max(v.z);
            min_z = min_z.min(v.z);
        }
    }
    assert_eq!(max_z, 0);
    assert_eq!(min_z, -200);
}

// --- calibration pattern ---

fn calibration_entries() -> Vec<(String, PaletteColorEntry)> {
    let mut data = Vec::new();
    let mut red_layers = Vec::new();
    for i in 1..=5u32 {
        red_layers.push((
            i.to_string(),
            LayerDefinition::Hsl { h: 0, s: 100_000, l: 50_000 + (i as u64) * 5_000 },
        ));
    }
    data.push((
        "#FF0000".to_string(),
        PaletteColorEntry { name: "Red".to_string(), active: true, layers: Some(red_layers) },
    ));
    data.push((
        "#FFFFFF".to_string(),
        PaletteColorEntry {
            name: "White".to_string(),
            active: true,
            layers: Some(vec![(
                "5".to_string(),
                LayerDefinition::Hsl { h: 0, s: 0, l: 100_000 },
            )]),
        },
    ));
    data.push((
        "#0000FF".to_string(),
        PaletteColorEntry {
            name: "Blue".to_string(),
            active: false,
            layers: Some(vec![(
                "5".to_string(),
                LayerDefinition::Hsl { h: 240_000, s: 100_000, l: 50_000 },
            )]),
        },
    ));
    data
}

#[test]
fn test_generate_calibration_pattern_basic() {
    let layers =
        generate_calibration_pattern(&calibration_entries(), &LithophaneConfig::default())
            .unwrap();
    assert_eq!(layers.len(), 3);
    assert_eq!(layers[0].0, "calibration-plate");
    assert!(layers[0].1.triangle_count() > 0);
}

#[test]
fn test_calibration_pattern_correct_filament_count() {
    let layers =
        generate_calibration_pattern(&calibration_entries(), &LithophaneConfig::default())
            .unwrap();
    let filament_layers: Vec<_> = layers
        .iter()
        .filter(|(name, _)| name != "calibration-plate")
        .collect();
    assert_eq!(filament_layers.len(), 2);
}

#[test]
fn test_calibration_pattern_squares_per_filament() {
    let config =
        LithophaneConfig { color_pixel_layer_number: 5, ..LithophaneConfig::default() };
    let layers = generate_calibration_pattern(&calibration_entries(), &config).unwrap();
    for (name, mesh) in &layers {
        if name != "calibration-plate" {
            assert_eq!(mesh.triangle_count(), 60, "filament '{}'", name);
        }
    }
}

#[test]
fn test_calibration_plate_has_triangles() {
    let layers =
        generate_calibration_pattern(&calibration_entries(), &LithophaneConfig::default())
            .unwrap();
    assert_eq!(layers[0].0, "calibration-plate");
    assert_eq!(layers[0].1.triangle_count(), 12);
}

#[test]
fn test_sanitize_filename() {
    assert_eq!(sanitize_filename("Red PLA+", "#FF0000"), "Red_PLA_");
    assert_eq!(sanitize_filename("Cyan-V2", "#00FFFF"), "Cyan-V2");
    assert_eq!(sanitize_filename("", "#AABBCC"), "AABBCC");
    assert_eq!(sanitize_filename("White", "#FFFFFF"), "White");
}

#[test]
fn test_calibration_grid_dimensions() {
    let (width, depth) = calibration_grid_dimensions(3, 5);
    // 5 columns: 5 * 10 + 4 * 2 = 58 mm; 3 rows: 3 * 10 + 2 * 2 = 34 mm.
    assert_eq!(width, 58_000);
    assert_eq!(depth, 34_000);
}

#[test]
fn test_calibration_two_filaments_grid() {
    // Two active filaments at five layers: a 58 mm x 22 mm grid.
    let (width, depth) = calibration_grid_dimensions(2, 5);
    assert_eq!(width, 58_000);
    assert_eq!(depth, 22_000);
}

#[test]
fn test_calibration_single_layer() {
    let data = vec![(
        "#FF0000".to_string(),
        PaletteColorEntry {
            name: "Red".to_string(),
            active: true,
            layers: Some(vec![(
                "1".to_string(),
                LayerDefinition::Hsl { h: 0, s: 100_000, l: 50_000 },
            )]),
        },
    )];
    let config =
        LithophaneConfig { color_pixel_layer_number: 1, ..LithophaneConfig::default() };
    let result = generate_calibration_pattern(&data, &config).unwrap();
    assert_eq!(result.len(), 2);
    assert_eq!(result[1].1.triangle_count(), 12);
}

// --- end-to-end color scenarios ---

fn red_white_palette() -> pixestl::palette::store::Palette {
    let entries = vec![
        (
            "#FF0000".to_string(),
            PaletteColorEntry {
                name: "Red".to_string(),
                active: true,
                layers: Some(vec![(
                    "5".to_string(),
                    LayerDefinition::Hsl { h: 0, s: 100_000, l: 50_000 },
                )]),
            },
        ),
        (
            "#FFFFFF".to_string(),
            PaletteColorEntry {
                name: "White".to_string(),
                active: true,
                layers: Some(vec![(
                    "5".to_string(),
                    LayerDefinition::Hsl { h: 0, s: 0, l: 100_000 },
                )]),
            },
        ),
    ];
    PaletteLoader::load_from_entries(&entries, &PaletteLoaderConfig::default()).unwrap()
}

#[test]
fn test_single_red_pixel_additive() {
    // One red pixel, five layers: the red slot holds one 0.8 x 0.8 x 0.5 mm
    // prism centered at (0.4, 0, 0.25) mm; the white slot stays empty.
    let palette = red_white_palette();
    let grid = uniform_grid(1, 1, [255, 0, 0]);
    let config = LithophaneConfig::default();

    let red_group = vec!["#FF0000".to_string()];
    let prisms = collect_color_prisms(&grid, &palette, &red_group, &config, -1, -1);
    assert_eq!(prisms.len(), 1);
    assert_eq!(
        prisms[0],
        Prism {
            width: 800,
            depth: 800,
            height: 500,
            center: Vector3::new(400, 0, 250),
        }
    );
    let mesh = prisms_to_mesh(&prisms);
    assert_eq!(mesh.triangle_count(), 12);

    let white_group = vec!["#FFFFFF".to_string()];
    let white_prisms = collect_color_prisms(&grid, &palette, &white_group, &config, -1, -1);
    assert_eq!(white_prisms.len(), 0);
}

#[test]
fn test_two_pixel_row_red_then_white() {
    // A 2 x 1 grid, red then white: one red prism at x = 0.4 mm and one
    // white prism at x = 1.2 mm, both at z = 0.25 mm.
    let palette = red_white_palette();
    let grid = grid_from_fn(2, 1, |x, _| {
        if x == 0 {
            Rgba::new(255, 0, 0, 255)
        } else {
            Rgba::new(255, 255, 255, 255)
        }
    });
    let config = LithophaneConfig::default();

    let red_prisms = collect_color_prisms(
        &grid,
        &palette,
        &vec!["#FF0000".to_string()],
        &config,
        -1,
        -1,
    );
    assert_eq!(red_prisms.len(), 1);
    assert_eq!(red_prisms[0].center, Vector3::new(400, 0, 250));

    let white_prisms = collect_color_prisms(
        &grid,
        &palette,
        &vec!["#FFFFFF".to_string()],
        &config,
        -1,
        -1,
    );
    assert_eq!(white_prisms.len(), 1);
    assert_eq!(white_prisms[0].center, Vector3::new(1200, 0, 250));
}

#[test]
fn test_run_length_merging() {
    // Three equal pixels in a row merge into one triple-width prism.
    let palette = red_white_palette();
    let grid = uniform_grid(3, 1, [255, 0, 0]);
    let config = LithophaneConfig::default();
    let prisms = collect_color_prisms(
        &grid,
        &palette,
        &vec!["#FF0000".to_string()],
        &config,
        -1,
        -1,
    );
    assert_eq!(prisms.len(), 1);
    assert_eq!(prisms[0].width, 2400);
    assert_eq!(prisms[0].center, Vector3::new(1200, 0, 250));
}

#[test]
fn test_generate_color_layer_triangle_multiple() {
    let palette = red_white_palette();
    let grid = uniform_grid(2, 2, [255, 0, 0]);
    let config = LithophaneConfig::default();
    let mesh = generate_color_layer(
        &grid,
        &palette,
        &vec!["#FF0000".to_string()],
        &config,
        -1,
        -1,
    )
    .unwrap();
    assert!(mesh.triangle_count() > 0);
    assert_eq!(mesh.triangle_count() % 12, 0);
}

#[test]
fn test_orchestrator_single_red_pixel() {
    let palette = red_white_palette();
    let grid = uniform_grid(1, 1, [255, 0, 0]);
    let config = LithophaneConfig { texture_layer: false, ..LithophaneConfig::default() };
    let generator = LithophaneGenerator::new(config).unwrap();
    let layers = generator.generate(Some(&grid), None, &palette).unwrap();

    // fully opaque: plate first, then one mesh per slot
    assert_eq!(layers[0].0, "layer-plate");
    let red = layers.iter().find(|(n, _)| n == "layer-Red").unwrap();
    assert_eq!(red.1.triangle_count(), 12);
    let white = layers.iter().find(|(n, _)| n == "layer-White").unwrap();
    assert_eq!(white.1.triangle_count(), 0);
}

#[test]
fn test_orchestrator_texture_only() {
    let palette = red_white_palette();
    let grid = uniform_grid(8, 8, [128, 128, 128]);
    let config = LithophaneConfig { color_layer: false, ..LithophaneConfig::default() };
    let generator = LithophaneGenerator::new(config).unwrap();
    let layers = generator.generate(None, Some(&grid), &palette).unwrap();
    assert_eq!(layers.len(), 1);
    assert_eq!(layers[0].0, "layer-texture");
    assert_eq!(layers[0].1.triangle_count(), 154);
}

#[test]
fn test_orchestrator_both_layers() {
    let palette = red_white_palette();
    let grid = grid_from_fn(8, 8, |_, y| {
        if y < 4 {
            Rgba::new(255, 0, 0, 255)
        } else {
            Rgba::new(255, 255, 255, 255)
        }
    });
    let config = LithophaneConfig::default();
    let generator = LithophaneGenerator::new(config).unwrap();
    let layers = generator.generate(Some(&grid), Some(&grid), &palette).unwrap();
    assert!(layers.len() >= 3);
    assert!(layers.iter().any(|(n, _)| n == "layer-plate"));
    assert!(layers.iter().any(|(n, _)| n == "layer-texture"));
    for (name, mesh) in &layers {
        if name != "layer-White" {
            assert!(mesh.triangle_count() > 0, "layer '{}' has no triangles", name);
        }
    }
}

#[test]
fn test_transparent_moat_skips_boundary() {
    // With a transparent pixel anywhere, its 8-neighbors are skipped.
    let palette = red_white_palette();
    let grid = grid_from_fn(3, 1, |x, _| {
        if x == 2 {
            Rgba::new(0, 0, 0, 0)
        } else {
            Rgba::new(255, 0, 0, 255)
        }
    });
    let config = LithophaneConfig::default();
    let prisms = collect_color_prisms(
        &grid,
        &palette,
        &vec!["#FF0000".to_string()],
        &config,
        -1,
        -1,
    );
    // pixel 1 is adjacent to the transparent pixel 2; only pixel 0 remains
    assert_eq!(prisms.len(), 1);
    assert_eq!(prisms[0].width, 800);
    assert_eq!(prisms[0].center, Vector3::new(400, 0, 250));
}

#[test]
fn test_window_clip_in_synthesizer() {
    // Clipping the red stack to the window [0, 2) shortens the prism.
    let palette = red_white_palette();
    let grid = uniform_grid(1, 1, [255, 0, 0]);
    let config = LithophaneConfig::default();
    let prisms = collect_color_prisms(
        &grid,
        &palette,
        &vec!["#FF0000".to_string()],
        &config,
        0,
        2,
    );
    assert_eq!(prisms.len(), 1);
    assert_eq!(prisms[0].height, 200);
    assert_eq!(prisms[0].center, Vector3::new(400, 0, 100));
}

#[test]
fn test_orchestrator_palette_without_colors_is_invalid() {
    let mut palette = pixestl::palette::store::Palette::new(5);
    palette.set_hex_color_groups(vec![vec!["#FF0000".to_string()]]);
    let grid = uniform_grid(1, 1, [255, 0, 0]);
    let config = LithophaneConfig { texture_layer: false, ..LithophaneConfig::default() };
    let generator = LithophaneGenerator::new(config).unwrap();
    let result = generator.generate(Some(&grid), None, &palette);
    assert!(matches!(
        result,
        Err(pixestl::error::PixestlError::InvalidPalette(_))
    ));
}

#[test]
fn test_orchestrator_group_name_fallback() {
    // A palette whose name map is emptied falls back to the one-based
    // group number for the mesh name.
    let mut palette = red_white_palette();
    palette.set_hex_codes(Vec::new());
    let grid = uniform_grid(1, 1, [255, 0, 0]);
    let config = LithophaneConfig { texture_layer: false, ..LithophaneConfig::default() };
    let generator = LithophaneGenerator::new(config).unwrap();
    let layers = generator.generate(Some(&grid), None, &palette).unwrap();
    assert!(layers.iter().any(|(n, _)| n == "layer-1"));
    assert!(layers.iter().any(|(n, _)| n == "layer-2"));
}
