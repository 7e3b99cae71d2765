//! Pixel grids: transparency, grayscale, flipping, pixel extraction.
//!
//! The library works on its own RGBA grid type. Decoding and resampling of
//! image files happen outside the library; a grid arrives here as plain
//! bytes in row-major order.

use vstd::prelude::*;
use crate::color::rgb::Rgb;
use crate::error::PixestlError;

verus! {

/// One RGBA pixel; an alpha below 255 means (partially) transparent.
#[derive(Debug, Clone, Copy, PartialEq, Eq, Structural)]
pub struct Rgba {
    /// Red channel.
    pub r: u8,
    /// Green channel.
    pub g: u8,
    /// Blue channel.
    pub b: u8,
    /// Alpha channel; 255 is fully opaque.
    pub a: u8,
}

impl Rgba {
    /// Builds a pixel from its four channels.
    pub fn new(r: u8, g: u8, b: u8, a: u8) -> (p: Self)
        ensures
            p == (Rgba { r, g, b, a }),
    {
        Rgba { r, g, b, a }
    }

    /// The color channels of the pixel.
    pub open spec fn rgb_spec(&self) -> Rgb {
        Rgb { r: self.r, g: self.g, b: self.b }
    }

    /// Drops the alpha channel.
    pub fn rgb(&self) -> (c: Rgb)
        ensures
            c == self.rgb_spec(),
    {
        Rgb { r: self.r, g: self.g, b: self.b }
    }
}

/// Whether a pixel is anything but fully opaque.
pub open spec fn is_transparent_spec(p: Rgba) -> bool {
    p.a < 255
}

/// Checks whether a pixel is (partially) transparent.
pub fn is_pixel_transparent(pixel: &Rgba) -> (r: bool)
    ensures
        r == is_transparent_spec(*pixel),
{
    pixel.a < 255
}

/// A rectangular grid of RGBA pixels, row-major.
#[derive(Debug, Clone)]
pub struct PixelGrid {
    /// Width in pixels.
    pub width: usize,
    /// Height in pixels.
    pub height: usize,
    /// Row-major pixel storage, `width * height` entries.
    pub pixels: Vec<Rgba>,
}

/// The product of a pixel count and a pixel size fits 128-bit arithmetic.
pub proof fn lemma_grid_extent_fits(n: int, pw: int)
    requires
        0 <= n <= 0xFFFF_FFFF_FFFF_FFFF,
        0 <= pw <= 0xFFFF_FFFF_FFFF_FFFF,
    ensures
        n * pw <= 0xFFFF_FFFF_FFFF_FFFE_0000_0000_0000_0001,
{
    assert(n * pw <= 0xFFFF_FFFF_FFFF_FFFE_0000_0000_0000_0001) by (nonlinear_arith)
        requires
            0 <= n <= 0xFFFF_FFFF_FFFF_FFFF,
            0 <= pw <= 0xFFFF_FFFF_FFFF_FFFF,
    ;
}

/// A row-major index within a finished row lies below the start of the
/// current row.
proof fn lemma_row_index_bound(yy: int, xx: int, y: int, width: int)
    requires
        0 <= xx < width,
        0 <= yy < y,
    ensures
        0 <= yy * width + xx < y * width,
{
    assert(0 <= yy * width + xx && yy * width + xx < y * width) by (nonlinear_arith)
        requires
            0 <= xx < width,
            0 <= yy < y,
    ;
}

/// The grayscale replacement of one pixel: transparent pixels become fully
/// transparent black; opaque pixels take the floor luminance
/// `(2126 R + 7152 G + 722 B) / 10000` on every channel.
pub open spec fn gray_pixel_spec(p: Rgba) -> Rgba {
    if is_transparent_spec(p) {
        Rgba { r: 0, g: 0, b: 0, a: 0 }
    } else {
        let l = ((2126 * p.r + 7152 * p.g + 722 * p.b) / 10000) as u8;
        Rgba { r: l, g: l, b: l, a: 255 }
    }
}

/// The opaque pixels among the first `n`, in order, as colors.
pub open spec fn opaque_prefix_spec(pixels: Seq<Rgba>, n: int) -> Seq<Rgb>
    decreases n,
{
    if n <= 0 {
        Seq::empty()
    } else {
        opaque_prefix_spec(pixels, n - 1) + if is_transparent_spec(pixels[n - 1]) {
            Seq::empty()
        } else {
            seq![pixels[n - 1].rgb_spec()]
        }
    }
}

impl PixelGrid {
    /// The grid's pixel storage matches its dimensions.
    pub open spec fn wf(&self) -> bool {
        self.pixels@.len() == self.width * self.height
    }

    /// The pixel at column `x` of row `y`.
    pub open spec fn pixel_at(&self, x: int, y: int) -> Rgba {
        self.pixels@[y * self.width + x]
    }

    /// The grid width in pixels.
    pub open spec fn width_spec(&self) -> int {
        self.width as int
    }

    /// The grid height in pixels.
    pub open spec fn height_spec(&self) -> int {
        self.height as int
    }

    /// The raw pixel sequence, row-major.
    pub open spec fn pixels_spec(&self) -> Seq<Rgba> {
        self.pixels@
    }

    /// Builds a grid from row-major pixels; the pixel count must match the
    /// dimensions, anything else is an [`PixestlError::ImageProcess`].
    pub fn from_pixels(width: usize, height: usize, pixels: Vec<Rgba>) -> (r: Result<
        PixelGrid,
        PixestlError,
    >)
        ensures
            match r {
                Ok(g) => g.wf() && g.width_spec() == width && g.height_spec() == height
                    && g.pixels_spec() == pixels@,
                Err(e) => pixels@.len() != width * height && e is ImageProcess,
            },
    {
        proof {
            assert((width as u128) * (height as u128)
                <= 0xFFFF_FFFF_FFFF_FFFE_0000_0000_0000_0001u128) by (nonlinear_arith)
                requires
                    (width as u128) <= 0xFFFF_FFFF_FFFF_FFFFu128,
                    (height as u128) <= 0xFFFF_FFFF_FFFF_FFFFu128,
            ;
        }
        let need: u128 = (width as u128) * (height as u128);
        if (pixels.len() as u128) != need {
            return Err(
                PixestlError::ImageProcess(
                    String::from_str("pixel count does not match the grid dimensions"),
                ),
            );
        }
        Ok(PixelGrid { width, height, pixels })
    }

    /// The grid width in pixels.
    pub fn width(&self) -> (r: usize)
        ensures
            r == self.width_spec(),
    {
        self.width
    }

    /// The grid height in pixels.
    pub fn height(&self) -> (r: usize)
        ensures
            r == self.height_spec(),
    {
        self.height
    }

    /// Reads the pixel at column `x` of row `y`.
    pub fn get_pixel(&self, x: usize, y: usize) -> (p: Rgba)
        requires
            self.wf(),
            x < self.width_spec(),
            y < self.height_spec(),
        ensures
            p == self.pixel_at(x as int, y as int),
    {
        let n = self.pixels.len();
        proof {
            assert(y * self.width + x < self.width * self.height) by (nonlinear_arith)
                requires
                    0 <= x < self.width,
                    0 <= y < self.height,
            ;
            assert(0 <= y * self.width + x) by (nonlinear_arith)
                requires
                    0 <= x,
                    0 <= y,
                    0 <= self.width,
            ;
            assert(y * self.width + x < n);
        }
        self.pixels[y * self.width + x]
    }
}

/// Whether a grid holds any transparent pixel.
pub open spec fn has_transparent_spec(g: &PixelGrid) -> bool {
    exists|i: int| 0 <= i < g.pixels_spec().len() && is_transparent_spec(#[trigger] g.pixels_spec()[i])
}

/// Checks whether any pixel of the grid is transparent.
pub fn has_transparent_pixel(image: &PixelGrid) -> (r: bool)
    ensures
        r == has_transparent_spec(image),
{
    let pixels = image.pixels_len();
    let mut i: usize = 0;
    while i < pixels
        invariant
            i <= pixels,
            pixels == image.pixels_spec().len(),
            forall|j: int| 0 <= j < i ==> !is_transparent_spec(#[trigger] image.pixels_spec()[j]),
        decreases pixels - i,
    {
        if image.pixel_linear(i).a < 255 {
            return true;
        }
        i = i + 1;
    }
    false
}

impl PixelGrid {
    /// The number of pixels in the grid.
    pub fn pixels_len(&self) -> (r: usize)
        ensures
            r == self.pixels_spec().len(),
    {
        self.pixels.len()
    }

    /// Reads a pixel by its row-major index.
    pub fn pixel_linear(&self, i: usize) -> (p: Rgba)
        requires
            i < self.pixels_spec().len(),
        ensures
            p == self.pixels_spec()[i as int],
    {
        self.pixels[i]
    }
}

/// Converts a grid to grayscale by floor luminance, pixel for pixel;
/// transparent pixels become fully transparent black.
pub fn convert_to_grayscale(image: &PixelGrid) -> (r: PixelGrid)
    requires
        image.wf(),
    ensures
        r.wf(),
        r.width_spec() == image.width_spec(),
        r.height_spec() == image.height_spec(),
        r.pixels_spec().len() == image.pixels_spec().len(),
        forall|i: int|
            0 <= i < image.pixels_spec().len() ==> #[trigger] r.pixels_spec()[i]
                == gray_pixel_spec(image.pixels_spec()[i]),
{
    let n = image.pixels_len();
    let mut out: Vec<Rgba> = Vec::new();
    let mut i: usize = 0;
    while i < n
        invariant
            i <= n,
            n == image.pixels_spec().len(),
            out@.len() == i,
            forall|j: int|
                0 <= j < i ==> #[trigger] out@[j] == gray_pixel_spec(image.pixels_spec()[j]),
        decreases n - i,
    {
        let p = image.pixel_linear(i);
        if p.a < 255 {
            out.push(Rgba { r: 0, g: 0, b: 0, a: 0 });
        } else {
            let l = ((2126 * (p.r as u32) + 7152 * (p.g as u32) + 722 * (p.b as u32)) / 10000)
                as u8;
            out.push(Rgba { r: l, g: l, b: l, a: 255 });
        }
        i = i + 1;
    }
    let width = image.width();
    let height = image.height();
    PixelGrid { width, height, pixels: out }
}

/// Flips a grid upside down: row `y` of the result is row `height - 1 - y`
/// of the input.
pub fn flip_vertical(image: &PixelGrid) -> (r: PixelGrid)
    requires
        image.wf(),
    ensures
        r.wf(),
        r.width_spec() == image.width_spec(),
        r.height_spec() == image.height_spec(),
        forall|x: int, y: int|
            0 <= x < image.width_spec() && 0 <= y < image.height_spec() ==> #[trigger] r.pixel_at(
                x,
                y,
            ) == image.pixel_at(x, image.height_spec() - 1 - y),
{
    let width = image.width();
    let height = image.height();
    let mut out: Vec<Rgba> = Vec::new();
    let mut y: usize = 0;
    while y < height
        invariant
            y <= height,
            image.wf(),
            width == image.width_spec(),
            height == image.height_spec(),
            out@.len() == y * width,
            forall|xx: int, yy: int|
                0 <= xx < width && 0 <= yy < y ==> #[trigger] out@[yy * width + xx]
                    == image.pixel_at(xx, height - 1 - yy),
        decreases height - y,
    {
        let src_y = height - 1 - y;
        let mut x: usize = 0;
        while x < width
            invariant
                x <= width,
                y < height,
                src_y == height - 1 - y,
                image.wf(),
                width == image.width_spec(),
                height == image.height_spec(),
                out@.len() == y * width + x,
                forall|xx: int, yy: int|
                    0 <= xx < width && 0 <= yy < y ==> #[trigger] out@[yy * width + xx]
                        == image.pixel_at(xx, height - 1 - yy),
                forall|xx: int|
                    0 <= xx < x ==> #[trigger] out@[y * width + xx] == image.pixel_at(
                        xx,
                        height - 1 - y,
                    ),
            decreases width - x,
        {
            out.push(image.get_pixel(x, src_y));
            proof {
                assert forall|xx: int, yy: int|
                    0 <= xx < width && 0 <= yy < y implies #[trigger] out@[yy * width + xx]
                    == image.pixel_at(xx, height - 1 - yy) by {
                    lemma_row_index_bound(yy, xx, y as int, width as int);
                }
            }
            x = x + 1;
        }
        proof {
            assert((y + 1) * width == y * width + width) by (nonlinear_arith);
        }
        y = y + 1;
    }
    proof {
        assert(out@.len() == height * width);
        assert(height * width == width * height) by (nonlinear_arith);
    }
    PixelGrid { width, height, pixels: out }
}

/// Extracts the pixels of a grid as rows of optional colors: `None` stands
/// for a transparent pixel.
pub fn extract_pixels(image: &PixelGrid) -> (r: Vec<Vec<Option<Rgb>>>)
    requires
        image.wf(),
    ensures
        r@.len() == image.height_spec(),
        forall|y: int| 0 <= y < r@.len() ==> #[trigger] r@[y]@.len() == image.width_spec(),
        forall|x: int, y: int|
            0 <= y < r@.len() && 0 <= x < image.width_spec() ==> #[trigger] r@[y]@[x] == (
            if is_transparent_spec(image.pixel_at(x, y)) {
                Option::<Rgb>::None
            } else {
                Option::Some(image.pixel_at(x, y).rgb_spec())
            }),
{
    let width = image.width();
    let height = image.height();
    let mut rows: Vec<Vec<Option<Rgb>>> = Vec::new();
    let mut y: usize = 0;
    while y < height
        invariant
            y <= height,
            image.wf(),
            width == image.width_spec(),
            height == image.height_spec(),
            rows@.len() == y,
            forall|yy: int| 0 <= yy < y ==> #[trigger] rows@[yy]@.len() == width,
            forall|xx: int, yy: int|
                0 <= yy < y && 0 <= xx < width ==> #[trigger] rows@[yy]@[xx] == (
                if is_transparent_spec(image.pixel_at(xx, yy)) {
                    Option::<Rgb>::None
                } else {
                    Option::Some(image.pixel_at(xx, yy).rgb_spec())
                }),
        decreases height - y,
    {
        let mut row: Vec<Option<Rgb>> = Vec::new();
        let mut x: usize = 0;
        while x < width
            invariant
                x <= width,
                y < height,
                image.wf(),
                width == image.width_spec(),
                height == image.height_spec(),
                row@.len() == x,
                forall|xx: int|
                    0 <= xx < x ==> #[trigger] row@[xx] == (
                    if is_transparent_spec(image.pixel_at(xx, y as int)) {
                        Option::<Rgb>::None
                    } else {
                        Option::Some(image.pixel_at(xx, y as int).rgb_spec())
                    }),
            decreases width - x,
        {
            let p = image.get_pixel(x, y);
            if is_pixel_transparent(&p) {
                row.push(None);
            } else {
                row.push(Some(p.rgb()));
            }
            x = x + 1;
        }
        rows.push(row);
        y = y + 1;
    }
    rows
}

/// Extracts the opaque pixels of a grid as a flat color list, row-major.
pub fn extract_pixels_flat(image: &PixelGrid) -> (r: Vec<Rgb>)
    ensures
        r@ == opaque_prefix_spec(image.pixels_spec(), image.pixels_spec().len() as int),
{
    let n = image.pixels_len();
    let mut out: Vec<Rgb> = Vec::new();
    let mut i: usize = 0;
    while i < n
        invariant
            i <= n,
            n == image.pixels_spec().len(),
            out@ == opaque_prefix_spec(image.pixels_spec(), i as int),
        decreases n - i,
    {
        let p = image.pixel_linear(i);
        if !is_pixel_transparent(&p) {
            out.push(p.rgb());
        }
        proof {
            assert(out@ =~= opaque_prefix_spec(image.pixels_spec(), i + 1));
        }
        i = i + 1;
    }
    out
}

/// Builds an opaque grid from quantized color rows. The width is the length
/// of the first row; a position outside its (possibly ragged) row becomes a
/// fully transparent pixel.
pub fn pixels_to_image(pixels: &Vec<Vec<Rgb>>) -> (r: PixelGrid)
    ensures
        r.wf(),
        r.height_spec() == pixels@.len(),
        pixels@.len() > 0 ==> r.width_spec() == pixels@[0]@.len(),
        pixels@.len() == 0 ==> r.width_spec() == 0,
        forall|x: int, y: int|
            0 <= y < r.height_spec() && 0 <= x < r.width_spec() ==> #[trigger] r.pixel_at(x, y)
                == (if x < pixels@[y]@.len() {
                let c = pixels@[y]@[x];
                Rgba { r: c.r, g: c.g, b: c.b, a: 255 }
            } else {
                Rgba { r: 0, g: 0, b: 0, a: 0 }
            }),
{
    let height = pixels.len();
    let width = if height > 0 {
        pixels[0].len()
    } else {
        0
    };
    let mut out: Vec<Rgba> = Vec::new();
    let mut y: usize = 0;
    while y < height
        invariant
            y <= height,
            height == pixels@.len(),
            out@.len() == y * width,
            forall|xx: int, yy: int|
                0 <= yy < y && 0 <= xx < width ==> #[trigger] out@[yy * width + xx] == (
                if xx < pixels@[yy]@.len() {
                    let c = pixels@[yy]@[xx];
                    Rgba { r: c.r, g: c.g, b: c.b, a: 255 }
                } else {
                    Rgba { r: 0, g: 0, b: 0, a: 0 }
                }),
        decreases height - y,
    {
        let row = &pixels[y];
        let mut x: usize = 0;
        while x < width
            invariant
                x <= width,
                y < height,
                height == pixels@.len(),
                row == &pixels@[y as int],
                out@.len() == y * width + x,
                forall|xx: int, yy: int|
                    0 <= yy < y && 0 <= xx < width ==> #[trigger] out@[yy * width + xx] == (
                    if xx < pixels@[yy]@.len() {
                        let c = pixels@[yy]@[xx];
                        Rgba { r: c.r, g: c.g, b: c.b, a: 255 }
                    } else {
                        Rgba { r: 0, g: 0, b: 0, a: 0 }
                    }),
                forall|xx: int|
                    0 <= xx < x ==> #[trigger] out@[y * width + xx] == (
                    if xx < pixels@[y as int]@.len() {
                        let c = pixels@[y as int]@[xx];
                        Rgba { r: c.r, g: c.g, b: c.b, a: 255 }
                    } else {
                        Rgba { r: 0, g: 0, b: 0, a: 0 }
                    }),
            decreases width - x,
        {
            if x < row.len() {
                let c = row[x];
                out.push(Rgba { r: c.r, g: c.g, b: c.b, a: 255 });
            } else {
                out.push(Rgba { r: 0, g: 0, b: 0, a: 0 });
            }
            proof {
                assert forall|xx: int, yy: int|
                    0 <= yy < y && 0 <= xx < width implies #[trigger] out@[yy * width + xx] == (
                    if xx < pixels@[yy]@.len() {
                        let c = pixels@[yy]@[xx];
                        Rgba { r: c.r, g: c.g, b: c.b, a: 255 }
                    } else {
                        Rgba { r: 0, g: 0, b: 0, a: 0 }
                    }) by {
                    lemma_row_index_bound(yy, xx, y as int, width as int);
                }
            }
            x = x + 1;
        }
        proof {
            assert((y + 1) * width == y * width + width) by (nonlinear_arith);
        }
        y = y + 1;
    }
    proof {
        assert(out@.len() == height * width);
        assert(height * width == width * height) by (nonlinear_arith);
    }
    PixelGrid { width, height, pixels: out }
}

/// The grid dimensions of a resample target: a given destination side is
/// divided by the pixel pitch; a zero side is first derived from the other
/// through the source aspect ratio.
pub open spec fn resize_dims_spec(
    src_w: int,
    src_h: int,
    dest_w: int,
    dest_h: int,
    pixel: int,
) -> (int, int) {
    if dest_w > 0 && dest_h <= 0 {
        (dest_w / pixel, (src_h * dest_w / src_w) / pixel)
    } else if dest_w <= 0 && dest_h > 0 {
        ((src_w * dest_h / src_h) / pixel, dest_h / pixel)
    } else {
        (dest_w / pixel, dest_h / pixel)
    }
}

/// Computes the grid dimensions a source image is resampled to, from the
/// destination size and the pixel pitch in micrometers. Succeeds exactly
/// when both computed dimensions are positive; a zero dimension is an
/// image-processing error.
pub fn resize_dimensions(
    src_w: u64,
    src_h: u64,
    dest_w_um: u64,
    dest_h_um: u64,
    pixel_um: u64,
) -> (r: Result<(u64, u64), PixestlError>)
    requires
        1 <= src_w <= 4_294_967_295,
        1 <= src_h <= 4_294_967_295,
        dest_w_um <= 10_000_000,
        dest_h_um <= 10_000_000,
        pixel_um >= 1,
    ensures
        ({
            let dims = resize_dims_spec(
                src_w as int,
                src_h as int,
                dest_w_um as int,
                dest_h_um as int,
                pixel_um as int,
            );
            match r {
                Ok(d) => d.0 == dims.0 && d.1 == dims.1 && d.0 > 0 && d.1 > 0,
                Err(e) => (dims.0 == 0 || dims.1 == 0) && e is ImageProcess,
            }
        }),
{
    let (px_w, px_h): (u64, u64) = if dest_w_um > 0 && dest_h_um == 0 {
        let w: u64 = dest_w_um / pixel_um;
        proof {
            assert((src_h as u128) * (dest_w_um as u128) <= 0xFFFF_FFFFu128 * 10_000_000)
                by (nonlinear_arith)
                requires
                    src_h <= 4_294_967_295u64,
                    dest_w_um <= 10_000_000u64,
            ;
        }
        let cross: u128 = (src_h as u128) * (dest_w_um as u128);
        proof {
            assert(cross / (src_w as u128) <= cross) by (nonlinear_arith)
                requires
                    src_w >= 1,
                    cross >= 0,
            ;
            assert(cross / (src_w as u128) / (pixel_um as u128) <= cross / (src_w as u128))
                by (nonlinear_arith)
                requires
                    pixel_um >= 1,
                    cross / (src_w as u128) >= 0,
            ;
        }
        let h: u64 = (cross / (src_w as u128) / (pixel_um as u128)) as u64;
        (w, h)
    } else if dest_w_um == 0 && dest_h_um > 0 {
        let h: u64 = dest_h_um / pixel_um;
        proof {
            assert((src_w as u128) * (dest_h_um as u128) <= 0xFFFF_FFFFu128 * 10_000_000)
                by (nonlinear_arith)
                requires
                    src_w <= 4_294_967_295u64,
                    dest_h_um <= 10_000_000u64,
            ;
        }
        let cross: u128 = (src_w as u128) * (dest_h_um as u128);
        proof {
            assert(cross / (src_h as u128) <= cross) by (nonlinear_arith)
                requires
                    src_h >= 1,
                    cross >= 0,
            ;
            assert(cross / (src_h as u128) / (pixel_um as u128) <= cross / (src_h as u128))
                by (nonlinear_arith)
                requires
                    pixel_um >= 1,
                    cross / (src_h as u128) >= 0,
            ;
        }
        let w: u64 = (cross / (src_h as u128) / (pixel_um as u128)) as u64;
        (w, h)
    } else {
        (dest_w_um / pixel_um, dest_h_um / pixel_um)
    };
    if px_w == 0 || px_h == 0 {
        return Err(
            PixestlError::ImageProcess(
                String::from_str("Calculated image dimensions are zero"),
            ),
        );
    }
    Ok((px_w, px_h))
}

} // verus!
