//! Parallel quantization of pixels to palette colors.

use vstd::prelude::*;
use crate::color::cielab::{lab_of_rgb_spec, CieLab};
use crate::color::distance::{
    closest_color_spec, find_closest_color_precomputed, lemma_closest_in_palette,
    palette_labs_of, ColorDistanceMethod,
};
use crate::color::rgb::Rgb;
use crate::error::PixestlError;
use rayon::iter::IntoParallelRefIterator;
use rayon::iter::ParallelIterator;

verus! {

/// The nearest palette color of one pixel.
pub fn closest_pixel(
    pixel: &Rgb,
    colors: &Vec<Rgb>,
    palette_labs: &Vec<CieLab>,
    method: ColorDistanceMethod,
) -> (r: Rgb)
    requires
        colors@.len() > 0,
        palette_labs@.len() == colors@.len(),
        forall|i: int|
            0 <= i < colors@.len() ==> #[trigger] palette_labs@[i] == lab_of_rgb_spec(colors@[i])
                && palette_labs@[i].in_range(),
    ensures
        r == closest_color_spec(method, *pixel, colors@),
{
    match find_closest_color_precomputed(
        pixel,
        colors.as_slice(),
        palette_labs.as_slice(),
        method,
    ) {
        Ok(c) => c,
        Err(_) => {
            proof {
                assert(false);
            }
            *pixel
        },
    }
}

/// Maps every pixel to its nearest palette color, one rayon task per pixel.
///
/// Relies on rayon's `par_iter().map(..).collect()` over a `Vec`: an indexed
/// parallel iterator collects into a vector in input order, applying the
/// closure to every element exactly once. The closure only calls
/// [`closest_pixel`].
#[verifier::external_body]
fn par_map_closest(
    pixels: &Vec<Rgb>,
    colors: &Vec<Rgb>,
    palette_labs: &Vec<CieLab>,
    method: ColorDistanceMethod,
) -> (r: Vec<Rgb>)
    requires
        colors@.len() > 0,
        palette_labs@.len() == colors@.len(),
        forall|i: int|
            0 <= i < colors@.len() ==> #[trigger] palette_labs@[i] == lab_of_rgb_spec(colors@[i])
                && palette_labs@[i].in_range(),
    ensures
        r@.len() == pixels@.len(),
        forall|i: int|
            0 <= i < pixels@.len() ==> #[trigger] r@[i] == closest_color_spec(
                method,
                pixels@[i],
                colors@,
            ),
{
    pixels.par_iter().map(|p| closest_pixel(p, colors, palette_labs, method)).collect()
}

/// Quantizes a flat pixel list to the closest palette colors, in parallel.
/// An empty palette is invalid. Every quantized pixel is one of the
/// palette colors.
pub fn quantize_pixels(
    pixels: &Vec<Rgb>,
    palette_colors: &Vec<Rgb>,
    method: ColorDistanceMethod,
) -> (res: Result<Vec<Rgb>, PixestlError>)
    ensures
        match res {
            Ok(r) => {
                &&& palette_colors@.len() > 0
                &&& r@.len() == pixels@.len()
                &&& forall|i: int|
                    0 <= i < pixels@.len() ==> #[trigger] r@[i] == closest_color_spec(
                        method,
                        pixels@[i],
                        palette_colors@,
                    ) && palette_colors@.contains(r@[i])
            },
            Err(e) => palette_colors@.len() == 0 && e is InvalidPalette,
        },
{
    if palette_colors.len() == 0 {
        return Err(
            PixestlError::InvalidPalette(String::from_str("Color list cannot be empty")),
        );
    }
    let labs = palette_labs_of(palette_colors.as_slice());
    let out = par_map_closest(pixels, palette_colors, &labs, method);
    proof {
        assert forall|i: int| 0 <= i < pixels@.len() implies palette_colors@.contains(
            #[trigger] out@[i],
        ) by {
            lemma_closest_in_palette(method, pixels@[i], palette_colors@);
        }
    }
    Ok(out)
}

/// Quantizes a two-dimensional pixel array row by row; within each row the
/// pixels are processed in parallel. An empty palette is invalid.
pub fn quantize_image(
    image_data: &Vec<Vec<Rgb>>,
    palette_colors: &Vec<Rgb>,
    method: ColorDistanceMethod,
) -> (res: Result<Vec<Vec<Rgb>>, PixestlError>)
    ensures
        match res {
            Ok(r) => {
                &&& palette_colors@.len() > 0
                &&& r@.len() == image_data@.len()
                &&& forall|y: int| 0 <= y < r@.len() ==> #[trigger] r@[y]@.len()
                    == image_data@[y]@.len()
                &&& forall|y: int, x: int|
                    0 <= y < r@.len() && 0 <= x < r@[y]@.len() ==> #[trigger] r@[y]@[x]
                        == closest_color_spec(method, image_data@[y]@[x], palette_colors@)
            },
            Err(e) => palette_colors@.len() == 0 && e is InvalidPalette,
        },
{
    if palette_colors.len() == 0 {
        return Err(
            PixestlError::InvalidPalette(String::from_str("Color list cannot be empty")),
        );
    }
    let mut out: Vec<Vec<Rgb>> = Vec::new();
    let mut y: usize = 0;
    while y < image_data.len()
        invariant
            palette_colors@.len() > 0,
            y <= image_data@.len(),
            out@.len() == y,
            forall|yy: int| 0 <= yy < y ==> #[trigger] out@[yy]@.len() == image_data@[yy]@.len(),
            forall|yy: int, x: int|
                0 <= yy < y && 0 <= x < out@[yy]@.len() ==> #[trigger] out@[yy]@[x]
                    == closest_color_spec(method, image_data@[yy]@[x], palette_colors@),
        decreases image_data@.len() - y,
    {
        let row = match quantize_pixels(&image_data[y], palette_colors, method) {
            Ok(r) => r,
            Err(e) => {
                proof {
                    assert(false);
                }
                return Err(e);
            },
        };
        out.push(row);
        y = y + 1;
    }
    Ok(out)
}

/// How quantization went: the quantized pixel count and which palette
/// colors were used.
#[derive(Debug)]
pub struct QuantizationStats {
    /// Number of distinct palette colors that appear in the output.
    pub colors_used: usize,
    /// Total pixels processed.
    pub total_pixels: usize,
    /// Usage counts per color, first occurrence first.
    pub color_usage: Vec<(Rgb, usize)>,
}

/// A usage table after counting one more color: the first entry carrying
/// the color gains one (saturating at the machine maximum), else a fresh
/// entry with count one is appended.
pub open spec fn bump_usage_spec(table: Seq<(Rgb, usize)>, c: Rgb) -> Seq<(Rgb, usize)>
    decreases table.len(),
{
    if table.len() == 0 {
        seq![(c, 1usize)]
    } else if table[0].0 == c {
        seq![
            (c, if table[0].1 < usize::MAX {
                (table[0].1 + 1) as usize
            } else {
                table[0].1
            }),
        ] + table.drop_first()
    } else {
        seq![table[0]] + bump_usage_spec(table.drop_first(), c)
    }
}

/// The usage table of the first `i` quantized pixels, colors in first
/// occurrence order.
pub open spec fn usage_fold_spec(pixels: Seq<Rgb>, i: int) -> Seq<(Rgb, usize)>
    decreases i,
{
    if i <= 0 {
        Seq::empty()
    } else {
        bump_usage_spec(usage_fold_spec(pixels, i - 1), pixels[i - 1])
    }
}

/// If no entry before `j` carries the color and the `j`-th does, the bump
/// updates exactly position `j`.
proof fn lemma_bump_at(table: Seq<(Rgb, usize)>, c: Rgb, j: int)
    requires
        0 <= j < table.len(),
        forall|m: int| 0 <= m < j ==> (#[trigger] table[m]).0 != c,
        table[j].0 == c,
    ensures
        bump_usage_spec(table, c) =~= table.update(
            j,
            (c, if table[j].1 < usize::MAX {
                (table[j].1 + 1) as usize
            } else {
                table[j].1
            }),
        ),
    decreases table.len(),
{
    if j == 0 {
        assert(bump_usage_spec(table, c) =~= table.update(
            0,
            (c, if table[0].1 < usize::MAX {
                (table[0].1 + 1) as usize
            } else {
                table[0].1
            }),
        ));
    } else {
        lemma_bump_at(table.drop_first(), c, j - 1);
        assert(seq![table[0]] + table.drop_first().update(
            j - 1,
            (c, if table[j].1 < usize::MAX {
                (table[j].1 + 1) as usize
            } else {
                table[j].1
            }),
        ) =~= table.update(
            j,
            (c, if table[j].1 < usize::MAX {
                (table[j].1 + 1) as usize
            } else {
                table[j].1
            }),
        ));
    }
}

/// If no entry carries the color, the bump appends a fresh count of one.
proof fn lemma_bump_append(table: Seq<(Rgb, usize)>, c: Rgb)
    requires
        forall|m: int| 0 <= m < table.len() ==> (#[trigger] table[m]).0 != c,
    ensures
        bump_usage_spec(table, c) =~= table.push((c, 1usize)),
    decreases table.len(),
{
    if table.len() > 0 {
        lemma_bump_append(table.drop_first(), c);
        assert(seq![table[0]] + table.drop_first().push((c, 1usize)) =~= table.push(
            (c, 1usize),
        ));
    }
}

impl QuantizationStats {
    /// The recorded count for a color, or zero.
    pub fn count_for(&self, color: &Rgb) -> (r: usize)
        ensures
            (exists|i: int|
                0 <= i < self.color_usage@.len() && #[trigger] self.color_usage@[i].0 == *color
                    && r == self.color_usage@[i].1) || (r == 0 && forall|i: int|
                0 <= i < self.color_usage@.len() ==> #[trigger] self.color_usage@[i].0 != *color),
    {
        let mut i: usize = 0;
        while i < self.color_usage.len()
            invariant
                i <= self.color_usage@.len(),
                forall|j: int| 0 <= j < i ==> #[trigger] self.color_usage@[j].0 != *color,
            decreases self.color_usage@.len() - i,
        {
            let e = &self.color_usage[i];
            if e.0.r == color.r && e.0.g == color.g && e.0.b == color.b {
                return e.1;
            }
            i = i + 1;
        }
        0
    }
}

/// Quantizes pixels and tallies how often each palette color was used: the
/// usage table is exactly the first-occurrence counting fold of the
/// quantized pixels.
pub fn quantize_with_stats(
    pixels: &Vec<Rgb>,
    palette_colors: &Vec<Rgb>,
    method: ColorDistanceMethod,
) -> (res: Result<(Vec<Rgb>, QuantizationStats), PixestlError>)
    ensures
        match res {
            Ok(r) => {
                &&& palette_colors@.len() > 0
                &&& r.0@.len() == pixels@.len()
                &&& forall|i: int|
                    0 <= i < pixels@.len() ==> #[trigger] r.0@[i] == closest_color_spec(
                        method,
                        pixels@[i],
                        palette_colors@,
                    )
                &&& r.1.total_pixels == pixels@.len()
                &&& r.1.color_usage@ == usage_fold_spec(r.0@, r.0@.len() as int)
                &&& r.1.colors_used == r.1.color_usage@.len()
            },
            Err(e) => palette_colors@.len() == 0 && e is InvalidPalette,
        },
{
    let quantized = match quantize_pixels(pixels, palette_colors, method) {
        Ok(q) => q,
        Err(e) => {
            return Err(e);
        },
    };
    let mut usage: Vec<(Rgb, usize)> = Vec::new();
    let mut i: usize = 0;
    while i < quantized.len()
        invariant
            i <= quantized@.len(),
            usage@ == usage_fold_spec(quantized@, i as int),
        decreases quantized@.len() - i,
    {
        let c = quantized[i];
        let mut found = false;
        let mut j: usize = 0;
        while j < usage.len() && !found
            invariant
                j <= usage@.len(),
                found ==> j < usage@.len() && usage@[j as int].0 == c,
                forall|m: int| 0 <= m < j ==> (#[trigger] usage@[m]).0 != c,
            decreases usage@.len() - j + (if found {
                0int
            } else {
                1int
            }),
        {
            let e = &usage[j];
            if e.0.r == c.r && e.0.g == c.g && e.0.b == c.b {
                found = true;
            } else {
                j = j + 1;
            }
        }
        if found {
            proof {
                lemma_bump_at(usage@, c, j as int);
            }
            let count = usage[j].1;
            let _ = usage.remove(j);
            if count < usize::MAX {
                usage.insert(j, (c, count + 1));
            } else {
                usage.insert(j, (c, count));
            }
            proof {
                assert(usage@ =~= usage_fold_spec(quantized@, i + 1));
            }
        } else {
            proof {
                lemma_bump_append(usage@, c);
            }
            usage.push((c, 1));
            proof {
                assert(usage@ =~= usage_fold_spec(quantized@, i + 1));
            }
        }
        i = i + 1;
    }
    proof {
        assert(usage@ == usage_fold_spec(quantized@, quantized@.len() as int));
    }
    let colors_used = usage.len();
    let total_pixels = pixels.len();
    Ok((quantized, QuantizationStats { colors_used, total_pixels, color_usage: usage }))
}

} // verus!
