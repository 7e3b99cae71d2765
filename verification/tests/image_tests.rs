//! Tests of the pixel grid utilities.

use pixestl::color::rgb::Rgb;
use pixestl::image::{
    convert_to_grayscale, extract_pixels, extract_pixels_flat, flip_vertical,
    has_transparent_pixel, is_pixel_transparent, pixels_to_image, PixelGrid, Rgba,
};

fn grid_from_fn(width: usize, height: usize, f: impl Fn(usize, usize) -> Rgba) -> PixelGrid {
    let mut pixels = Vec::new();
    for y in 0..height {
        for x in 0..width {
            pixels.push(f(x, y));
        }
    }
    PixelGrid::from_pixels(width, height, pixels).unwrap()
}

fn create_test_image(width: usize, height: usize) -> PixelGrid {
    grid_from_fn(width, height, |x, _y| {
        if x < width / 2 {
            Rgba::new(255, 0, 0, 255)
        } else {
            Rgba::new(0, 255, 0, 255)
        }
    })
}

fn create_transparent_image(width: usize, height: usize) -> PixelGrid {
    grid_from_fn(width, height, |x, _y| {
        if x < width / 2 {
            Rgba::new(255, 0, 0, 255)
        } else {
            Rgba::new(0, 255, 0, 0)
        }
    })
}

#[test]
fn test_has_transparent_pixel_opaque() {
    let img = create_test_image(10, 10);
    assert!(!has_transparent_pixel(&img));
}

#[test]
fn test_has_transparent_pixel_transparent() {
    let img = create_transparent_image(10, 10);
    assert!(has_transparent_pixel(&img));
}

#[test]
fn test_is_pixel_transparent() {
    assert!(is_pixel_transparent(&Rgba::new(255, 0, 0, 0)));
    assert!(is_pixel_transparent(&Rgba::new(255, 0, 0, 128)));
    assert!(!is_pixel_transparent(&Rgba::new(255, 0, 0, 255)));
}

#[test]
fn test_convert_to_grayscale() {
    let mut img = grid_from_fn(2, 1, |_, _| Rgba::new(0, 0, 0, 255));
    img.pixels[0] = Rgba::new(255, 0, 0, 255); // Red
    img.pixels[1] = Rgba::new(0, 255, 0, 255); // Green

    let gray = convert_to_grayscale(&img);
    let pixel0 = gray.get_pixel(0, 0);
    let pixel1 = gray.get_pixel(1, 0);

    // Red: luminance about 54
    assert!((pixel0.r as i32 - 54).abs() < 2);
    assert_eq!(pixel0.r, pixel0.g);
    assert_eq!(pixel0.r, pixel0.b);

    // Green: luminance about 182
    assert!((pixel1.r as i32 - 182).abs() < 2);
    assert_eq!(pixel1.r, pixel1.g);
    assert_eq!(pixel1.r, pixel1.b);
}

#[test]
fn test_convert_to_grayscale_preserves_transparency() {
    let mut img = grid_from_fn(2, 1, |_, _| Rgba::new(255, 0, 0, 255));
    img.pixels[1] = Rgba::new(255, 0, 0, 0);

    let gray = convert_to_grayscale(&img);
    assert_eq!(gray.get_pixel(0, 0).a, 255);
    assert_eq!(gray.get_pixel(1, 0).a, 0);
}

#[test]
fn test_flip_vertical() {
    let mut img = grid_from_fn(2, 2, |_, _| Rgba::new(0, 0, 0, 255));
    img.pixels[0] = Rgba::new(255, 0, 0, 255); // Top-left: Red
    img.pixels[1] = Rgba::new(0, 255, 0, 255); // Top-right: Green
    img.pixels[2] = Rgba::new(0, 0, 255, 255); // Bottom-left: Blue
    img.pixels[3] = Rgba::new(255, 255, 0, 255); // Bottom-right: Yellow

    let flipped = flip_vertical(&img);

    // After flip: bottom becomes top
    assert_eq!(flipped.get_pixel(0, 0).r, 0); // Was blue
    assert_eq!(flipped.get_pixel(0, 0).b, 255);
    assert_eq!(flipped.get_pixel(0, 1).r, 255); // Was red
    assert_eq!(flipped.get_pixel(0, 1).g, 0);
}

#[test]
fn test_extract_pixels() {
    let mut img = grid_from_fn(2, 2, |_, _| Rgba::new(0, 0, 0, 255));
    img.pixels[0] = Rgba::new(255, 0, 0, 255);
    img.pixels[1] = Rgba::new(0, 255, 0, 0); // Transparent
    img.pixels[2] = Rgba::new(0, 0, 255, 255);
    img.pixels[3] = Rgba::new(255, 255, 0, 255);

    let pixels = extract_pixels(&img);

    assert_eq!(pixels.len(), 2);
    assert_eq!(pixels[0].len(), 2);
    assert!(pixels[0][0].is_some());
    assert!(pixels[0][1].is_none());
    assert!(pixels[1][0].is_some());
    assert!(pixels[1][1].is_some());
    assert_eq!(pixels[0][0].unwrap(), Rgb::new(255, 0, 0));
}

#[test]
fn test_extract_pixels_flat() {
    let mut img = grid_from_fn(2, 2, |_, _| Rgba::new(0, 0, 0, 255));
    img.pixels[0] = Rgba::new(255, 0, 0, 255);
    img.pixels[1] = Rgba::new(0, 255, 0, 0); // Transparent
    img.pixels[2] = Rgba::new(0, 0, 255, 255);
    img.pixels[3] = Rgba::new(255, 255, 0, 255);

    let pixels = extract_pixels_flat(&img);

    assert_eq!(pixels.len(), 3);
    assert!(pixels.contains(&Rgb::new(255, 0, 0)));
    assert!(pixels.contains(&Rgb::new(0, 0, 255)));
    assert!(pixels.contains(&Rgb::new(255, 255, 0)));
}

#[test]
fn test_pixels_to_image() {
    let rows = vec![
        vec![Rgb::new(1, 2, 3), Rgb::new(4, 5, 6)],
        vec![Rgb::new(7, 8, 9)],
    ];
    let grid = pixels_to_image(&rows);
    assert_eq!(grid.width(), 2);
    assert_eq!(grid.height(), 2);
    assert_eq!(grid.get_pixel(0, 0), Rgba::new(1, 2, 3, 255));
    assert_eq!(grid.get_pixel(1, 0), Rgba::new(4, 5, 6, 255));
    assert_eq!(grid.get_pixel(0, 1), Rgba::new(7, 8, 9, 255));
    // the ragged position is filled transparent
    assert_eq!(grid.get_pixel(1, 1), Rgba::new(0, 0, 0, 0));
}

#[test]
fn test_from_pixels_size_mismatch() {
    let pixels = vec![Rgba::new(0, 0, 0, 255); 3];
    assert!(PixelGrid::from_pixels(2, 2, pixels).is_err());
}

#[test]
fn test_resize_dimensions_both_given() {
    let (w, h) = pixestl::image::resize_dimensions(100, 50, 80_000, 40_000, 800).unwrap();
    assert_eq!((w, h), (100, 50));
}

#[test]
fn test_resize_dimensions_width_drives_height() {
    // 100x50 source, 80 mm wide at 0.8 mm pixels: height follows the
    // aspect ratio, 50 * 80000 / 100 = 40000 um -> 50 pixels.
    let (w, h) = pixestl::image::resize_dimensions(100, 50, 80_000, 0, 800).unwrap();
    assert_eq!((w, h), (100, 50));
}

#[test]
fn test_resize_dimensions_height_drives_width() {
    let (w, h) = pixestl::image::resize_dimensions(100, 50, 0, 40_000, 800).unwrap();
    assert_eq!((w, h), (100, 50));
}

#[test]
fn test_resize_dimensions_zero_is_error() {
    // 0.4 mm destination at 0.8 mm pixels floors to zero pixels.
    let result = pixestl::image::resize_dimensions(100, 50, 400, 0, 800);
    assert!(matches!(
        result,
        Err(pixestl::error::PixestlError::ImageProcess(_))
    ));
}

#[test]
fn test_resize_dimensions_floor() {
    // 1.9 mm / 0.8 mm floors to 2 pixels on each side.
    let (w, h) = pixestl::image::resize_dimensions(10, 10, 1_900, 1_900, 800).unwrap();
    assert_eq!((w, h), (2, 2));
}
