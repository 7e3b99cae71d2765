//! The orchestrator: validates the configuration, quantizes the color
//! grid, dispatches the synthesizers, and names the output meshes.
//!
//! Image decoding and physical resampling happen outside the library; the
//! orchestrator receives the two resized grids (color and texture) as plain
//! pixel grids. The cylindrical curve transform is a floating-point
//! post-pass applied outside the library as well.

use vstd::prelude::*;
use crate::color::rgb::Rgb;
use crate::error::PixestlError;
use crate::image::{
    convert_to_grayscale, extract_pixels, flip_vertical, has_transparent_pixel, pixels_to_image,
    PixelGrid,
};
use crate::lithophane::color_layer::generate_color_layer;
use crate::lithophane::config::LithophaneConfig;
use crate::lithophane::geometry::Mesh;
use crate::lithophane::support_plate::generate_support_plate;
use crate::lithophane::texture_layer::generate_texture_layer;
use crate::lithophane::geometry::{cube_spec, Vector3};
use crate::palette::generator::strs_view;
use crate::palette::quantize::quantize_image;
use crate::palette::store::{name_lookup_spec, Palette};
use crate::text::{dec_spec, u64_to_string};
use vstd::string::StringExecFns;

verus! {

/// Drives one generation run over pre-resized pixel grids.
pub struct LithophaneGenerator {
    /// The validated configuration.
    pub config: LithophaneConfig,
}

/// The opaque colors of row `y` of a grid, from column `x` onward:
/// transparent pixels are dropped and the row compacts leftward.
pub open spec fn row_opaque_colors_spec(g: &PixelGrid, y: int, x: int) -> Seq<Rgb>
    decreases g.width_spec() - x,
{
    if x >= g.width_spec() || x < 0 {
        Seq::empty()
    } else {
        (if crate::image::is_transparent_spec(g.pixel_at(x, y)) {
            Seq::empty()
        } else {
            seq![g.pixel_at(x, y).rgb_spec()]
        }) + row_opaque_colors_spec(g, y, x + 1)
    }
}

/// The width of the quantized color grid: the opaque pixel count of the
/// source's first row, or zero for an empty source.
pub open spec fn quantized_width_spec(img: &PixelGrid) -> int {
    if img.height_spec() > 0 {
        row_opaque_colors_spec(img, 0, 0).len() as int
    } else {
        0
    }
}

/// One pixel of the quantized, vertically flipped color grid: the source
/// row is compacted to its opaque colors, each mapped to its closest
/// palette color; positions past a short row are fully transparent.
pub open spec fn quantized_pixel_spec(
    img: &PixelGrid,
    keys: Seq<Rgb>,
    method: crate::color::distance::ColorDistanceMethod,
    x: int,
    y: int,
) -> crate::image::Rgba {
    let sy = img.height_spec() - 1 - y;
    let row = row_opaque_colors_spec(img, sy, 0);
    if x < row.len() {
        let c = if keys.len() == 0 {
            row[x]
        } else {
            crate::color::distance::closest_color_spec(method, row[x], keys)
        };
        crate::image::Rgba { r: c.r, g: c.g, b: c.b, a: 255 }
    } else {
        crate::image::Rgba { r: 0, g: 0, b: 0, a: 0 }
    }
}

/// Whether `g` is the quantized, flipped color grid of the source image
/// under the palette.
pub open spec fn quantized_grid_spec(
    img: &PixelGrid,
    palette: &Palette,
    method: crate::color::distance::ColorDistanceMethod,
    g: &PixelGrid,
) -> bool {
    &&& g.wf()
    &&& g.height_spec() == img.height_spec()
    &&& g.width_spec() == quantized_width_spec(img)
    &&& forall|x: int, y: int|
        0 <= x < g.width_spec() && 0 <= y < g.height_spec() ==> #[trigger] g.pixel_at(x, y)
            == quantized_pixel_spec(img, palette.keys_spec(), method, x, y)
}

/// Whether the grids fit the geometry bounds and, when the color pipeline
/// runs, the palette offers at least one slot group: exactly the
/// conditions under which generation succeeds.
pub open spec fn generate_ok_spec(
    config: &LithophaneConfig,
    color_image: Option<&PixelGrid>,
    texture_image: Option<&PixelGrid>,
    palette: &Palette,
) -> bool {
    &&& (config.color_layer && color_image is Some) ==> {
        &&& color_image.unwrap().width_spec() * config.color_pixel_width <= 10_000_000
        &&& color_image.unwrap().height_spec() * config.color_pixel_width <= 10_000_000
        &&& palette.hex_color_group_list@.len() > 0
        &&& palette.quantized_colors@.len() > 0
    }
    &&& (config.texture_layer && texture_image is Some) ==> {
        &&& texture_image.unwrap().width_spec() * config.texture_pixel_width <= 10_000_000
        &&& texture_image.unwrap().height_spec() * config.texture_pixel_width <= 10_000_000
    }
}

/// The grid the texture synthesizer reads: the texture grid grayscaled
/// and flipped vertically, pixel for pixel.
pub open spec fn texture_source_spec(orig: &PixelGrid, g: &PixelGrid) -> bool {
    &&& g.wf()
    &&& g.width_spec() == orig.width_spec()
    &&& g.height_spec() == orig.height_spec()
    &&& forall|x: int, y: int|
        0 <= x < orig.width_spec() && 0 <= y < orig.height_spec() ==> #[trigger] g.pixel_at(x, y)
            == crate::image::gray_pixel_spec(orig.pixel_at(x, orig.height_spec() - 1 - y))
}

/// The display names the palette's name map holds for a group's hex codes
/// from index `i` onward, in group order; codes without a recorded name
/// are skipped.
pub open spec fn group_names_from_spec(
    entries: Seq<(String, String)>,
    hexes: Seq<String>,
    i: int,
) -> Seq<Seq<char>>
    decreases hexes.len() - i,
{
    if i < 0 || i >= hexes.len() {
        Seq::empty()
    } else {
        (match name_lookup_spec(entries, hexes[i]@) {
            Some(n) => seq![n],
            None => Seq::<Seq<char>>::empty(),
        }) + group_names_from_spec(entries, hexes, i + 1)
    }
}

/// Display names from index `i` onward joined by `+`.
pub open spec fn joined_names_from_spec(names: Seq<Seq<char>>, i: int) -> Seq<char>
    decreases names.len() - i,
{
    if i < 0 || i >= names.len() {
        Seq::empty()
    } else {
        (if i > 0 {
            seq!['+']
        } else {
            Seq::<char>::empty()
        }) + names[i] + joined_names_from_spec(names, i + 1)
    }
}

/// The name of slot group `g`'s mesh: `layer-` followed by the group's
/// display names joined by `+`, or by the one-based group number when no
/// hex code of the group has a recorded name.
pub open spec fn group_layer_name_spec(palette: &Palette, g: int) -> Seq<char> {
    let names = group_names_from_spec(
        palette.hex_codes_map@,
        palette.hex_color_group_list@[g]@,
        0,
    );
    if names.len() == 0 {
        "layer-"@ + dec_spec(g + 1)
    } else {
        "layer-"@ + joined_names_from_spec(names, 0)
    }
}

/// A compacted row is never longer than the grid row it came from.
proof fn lemma_row_opaque_len(g: &PixelGrid, y: int, x: int)
    requires
        0 <= x <= g.width_spec(),
    ensures
        row_opaque_colors_spec(g, y, x).len() <= g.width_spec() - x,
    decreases g.width_spec() - x,
{
    if x < g.width_spec() {
        lemma_row_opaque_len(g, y, x + 1);
    }
}

impl LithophaneGenerator {
    /// Accepts a configuration after validation.
    pub fn new(config: LithophaneConfig) -> (r: Result<Self, PixestlError>)
        ensures
            match r {
                Ok(g) => g.config == config && config.valid_spec(),
                Err(e) => !config.valid_spec() && e is Config,
            },
    {
        match config.validate() {
            Ok(_) => Ok(LithophaneGenerator { config }),
            Err(e) => Err(e),
        }
    }

    /// Generates the named meshes of one run. When the color pipeline
    /// runs, the source grid is compacted to its opaque colors, quantized
    /// to the palette, and flipped; the support plate - the box spanning
    /// the grid's physical extent, centered half a plate thickness below
    /// the base plane - leads exactly when that grid is fully opaque,
    /// followed by one mesh per slot group tied to the synthesizer's
    /// prism enumeration and named by the group's display names; the
    /// texture relief comes last. Succeeds exactly when the grids fit the
    /// geometry bounds and, with color on, the palette offers at least
    /// one slot group and one realizable color.
    pub fn generate(
        &self,
        color_image: Option<&PixelGrid>,
        texture_image: Option<&PixelGrid>,
        palette: &Palette,
    ) -> (r: Result<Vec<(String, Mesh)>, PixestlError>)
        requires
            self.config.valid_spec(),
            match color_image {
                Some(g) => g.wf(),
                None => true,
            },
            match texture_image {
                Some(g) => g.wf(),
                None => true,
            },
        ensures
            ({
                let col_on = self.config.color_layer && color_image is Some;
                let tex_on = self.config.texture_layer && texture_image is Some;
                match r {
                    Ok(layers) => {
                        &&& generate_ok_spec(&self.config, color_image, texture_image, palette)
                        &&& col_on ==> exists|g: PixelGrid|
                            {
                                &&& #[trigger] quantized_grid_spec(
                                    color_image.unwrap(),
                                    palette,
                                    self.config.color_distance_method,
                                    &g,
                                )
                                &&& ({
                                    let plate = !crate::image::has_transparent_spec(&g);
                                    let base: int = if plate {
                                        1
                                    } else {
                                        0
                                    };
                                    &&& layers@.len() == base
                                        + palette.hex_color_group_list@.len() + (if tex_on {
                                        1int
                                    } else {
                                        0int
                                    })
                                    &&& plate ==> layers@[0].0@ == "layer-plate"@
                                        && layers@[0].1.triangles@.len() == 12
                                        && layers@[0].1.triangles@ == cube_spec(
                                        g.width_spec() * self.config.color_pixel_width,
                                        g.height_spec() * self.config.color_pixel_width,
                                        self.config.plate_thickness as int,
                                        Vector3 {
                                            x: (g.width_spec() * self.config.color_pixel_width
                                                / 2) as i64,
                                            y: (g.height_spec() * self.config.color_pixel_width
                                                / 2) as i64,
                                            z: (0 - self.config.plate_thickness / 2) as i64,
                                        },
                                    )
                                    &&& forall|k: int|
                                        base <= k < base + palette.hex_color_group_list@.len()
                                            ==> (#[trigger] layers@[k]).1.triangles@.len() == 12
                                            * crate::lithophane::color_layer::color_prisms_spec(
                                            &g,
                                            palette,
                                            palette.hex_color_group_list@[k - base]@,
                                            &self.config,
                                            -1,
                                            -1,
                                        ).len()
                                    &&& forall|k: int|
                                        base <= k < base + palette.hex_color_group_list@.len()
                                            ==> (#[trigger] layers@[k]).0@
                                            == group_layer_name_spec(palette, k - base)
                                })
                            }
                        &&& (!col_on && tex_on) ==> layers@.len() == 1
                        &&& tex_on ==> {
                            let tg = texture_image.unwrap();
                            &&& layers@.len() >= 1
                            &&& layers@[layers@.len() - 1].0@ == "layer-texture"@
                            &&& exists|g: PixelGrid|
                                #[trigger] texture_source_spec(tg, &g) && layers@[layers@.len()
                                    - 1].1.triangles@
                                    == crate::lithophane::texture_layer::texture_tris_spec(
                                    &g,
                                    &self.config,
                                )
                            &&& (tg.width_spec() >= 2 && tg.height_spec() >= 2)
                                ==> layers@[layers@.len() - 1].1.triangles@.len() == 2 * (
                            tg.width_spec() - 1) * (tg.height_spec() - 1) + 4 * (tg.width_spec()
                                - 1) + 4 * (tg.height_spec() - 1)
                            &&& (tg.width_spec() < 2 || tg.height_spec() < 2)
                                ==> layers@[layers@.len() - 1].1.triangles@.len() == 0
                        }
                    },
                    Err(e) => {
                        &&& !generate_ok_spec(&self.config, color_image, texture_image, palette)
                        &&& (e is ImageProcess || e is InvalidPalette)
                    },
                }
            }),
    {
        let mut layers: Vec<(String, Mesh)> = Vec::new();
        let ghost method = self.config.color_distance_method;

        let quantized_color: Option<PixelGrid> = match color_image {
            Some(img) => {
                if self.config.color_layer {
                    proof {
                        crate::image::lemma_grid_extent_fits(
                            img.width_spec(),
                            self.config.color_pixel_width as int,
                        );
                        crate::image::lemma_grid_extent_fits(
                            img.height_spec(),
                            self.config.color_pixel_width as int,
                        );
                    }
                    let extent_w: u128 = (img.width() as u128) * (
                    self.config.color_pixel_width as u128);
                    let extent_h: u128 = (img.height() as u128) * (
                    self.config.color_pixel_width as u128);
                    if extent_w > 10_000_000 || extent_h > 10_000_000 {
                        return Err(
                            PixestlError::ImageProcess(
                                String::from_str("the color grid does not fit the build volume"),
                            ),
                        );
                    }
                    if palette.hex_color_groups().len() == 0 {
                        return Err(
                            PixestlError::InvalidPalette(
                                String::from_str("No color groups found in palette"),
                            ),
                        );
                    }
                    if palette.color_count() == 0 {
                        return Err(
                            PixestlError::InvalidPalette(
                                String::from_str("Color list cannot be empty"),
                            ),
                        );
                    }
                    let rows = extract_pixels(img);
                    let mut pixels: Vec<Vec<Rgb>> = Vec::new();
                    let mut y: usize = 0;
                    while y < rows.len()
                        invariant
                            img.wf(),
                            rows@.len() == img.height_spec(),
                            forall|yy: int|
                                0 <= yy < rows@.len() ==> #[trigger] rows@[yy]@.len()
                                    == img.width_spec(),
                            forall|xx: int, yy: int|
                                0 <= yy < rows@.len() && 0 <= xx < img.width_spec()
                                    ==> #[trigger] rows@[yy]@[xx] == (
                                if crate::image::is_transparent_spec(img.pixel_at(xx, yy)) {
                                    Option::<Rgb>::None
                                } else {
                                    Option::Some(img.pixel_at(xx, yy).rgb_spec())
                                }),
                            y <= rows@.len(),
                            pixels@.len() == y,
                            forall|yy: int|
                                0 <= yy < y ==> #[trigger] pixels@[yy]@
                                    == row_opaque_colors_spec(img, yy, 0),
                        decreases rows@.len() - y,
                    {
                        let row = &rows[y];
                        let mut out_row: Vec<Rgb> = Vec::new();
                        let mut x: usize = 0;
                        while x < row.len()
                            invariant
                                img.wf(),
                                y < img.height_spec(),
                                row@.len() == img.width_spec(),
                                forall|xx: int|
                                    0 <= xx < img.width_spec() ==> #[trigger] row@[xx] == (
                                    if crate::image::is_transparent_spec(
                                        img.pixel_at(xx, y as int),
                                    ) {
                                        Option::<Rgb>::None
                                    } else {
                                        Option::Some(img.pixel_at(xx, y as int).rgb_spec())
                                    }),
                                x <= row@.len(),
                                row_opaque_colors_spec(img, y as int, 0) == out_row@
                                    + row_opaque_colors_spec(img, y as int, x as int),
                            decreases row@.len() - x,
                        {
                            let ghost pre = out_row@;
                            match &row[x] {
                                Some(c) => {
                                    out_row.push(*c);
                                    proof {
                                        assert(out_row@ =~= pre + seq![
                                            img.pixel_at(x as int, y as int).rgb_spec(),
                                        ]);
                                    }
                                },
                                None => {
                                    proof {
                                        assert(out_row@ =~= pre + Seq::<Rgb>::empty());
                                    }
                                },
                            }
                            x = x + 1;
                        }
                        proof {
                            assert(row_opaque_colors_spec(img, y as int, img.width_spec())
                                =~= Seq::<Rgb>::empty());
                            assert(out_row@ + Seq::<Rgb>::empty() =~= out_row@);
                        }
                        pixels.push(out_row);
                        y = y + 1;
                    }
                    let palette_colors = palette.colors();
                    let quantized = match quantize_image(&pixels, &palette_colors, self.config.color_distance_method) {
                        Ok(q) => q,
                        Err(_) => {
                            proof {
                                assert(false);
                            }
                            return Err(
                                PixestlError::ImageProcess(
                                    String::from_str("quantization failed"),
                                ),
                            );
                        },
                    };
                    let qgrid = pixels_to_image(&quantized);
                    let flipped = flip_vertical(&qgrid);
                    proof {
                        lemma_row_opaque_len(img, 0, 0);
                        assert forall|x: int, yy: int|
                            0 <= x < flipped.width_spec() && 0 <= yy < flipped.height_spec()
                                implies #[trigger] flipped.pixel_at(x, yy)
                            == quantized_pixel_spec(
                            img,
                            palette.keys_spec(),
                            method,
                            x,
                            yy,
                        ) by {
                            let sy = img.height_spec() - 1 - yy;
                            assert(flipped.pixel_at(x, yy) == qgrid.pixel_at(x, sy));
                            assert(quantized@[sy]@.len() == pixels@[sy]@.len());
                            assert(pixels@[sy]@ == row_opaque_colors_spec(img, sy, 0));
                        }
                        assert(quantized_grid_spec(img, palette, method, &flipped));
                    }
                    Some(flipped)
                } else {
                    None
                }
            },
            None => None,
        };

        match &quantized_color {
            Some(grid) => {
                let ghost img = color_image.unwrap();
                proof {
                    lemma_row_opaque_len(img, 0, 0);
                    assert(grid.width_spec() <= img.width_spec());
                    assert(grid.width_spec() * self.config.color_pixel_width <= img.width_spec()
                        * self.config.color_pixel_width) by (nonlinear_arith)
                        requires
                            grid.width_spec() <= img.width_spec(),
                            self.config.color_pixel_width >= 0,
                    ;
                }
                if !has_transparent_pixel(grid) {
                    let plate = match generate_support_plate(grid, &self.config) {
                        Ok(p) => p,
                        Err(_) => {
                            proof {
                                assert(false);
                            }
                            return Err(
                                PixestlError::ImageProcess(
                                    String::from_str("support plate generation failed"),
                                ),
                            );
                        },
                    };
                    proof {
                        reveal_strlit("layer-plate");
                    }
                    layers.push((String::from_str("layer-plate"), plate));
                }
                let ghost base: int = layers@.len() as int;
                let group_count = palette.hex_color_groups().len();
                let mut g: usize = 0;
                while g < group_count
                    invariant
                        self.config.valid_spec(),
                        grid.wf(),
                        group_count == palette.hex_color_group_list@.len(),
                        grid.width_spec() * self.config.color_pixel_width <= 10_000_000,
                        grid.height_spec() * self.config.color_pixel_width <= 10_000_000,
                        g <= group_count,
                        base == 0 || base == 1,
                        layers@.len() == base + g,
                        forall|k: int|
                            base <= k < base + g ==> (#[trigger] layers@[k]).1.triangles@.len()
                                == 12 * crate::lithophane::color_layer::color_prisms_spec(
                                grid,
                                palette,
                                palette.hex_color_group_list@[k - base]@,
                                &self.config,
                                -1,
                                -1,
                            ).len(),
                        forall|k: int|
                            base <= k < base + g ==> (#[trigger] layers@[k]).0@
                                == group_layer_name_spec(palette, k - base),
                        base == 1 ==> layers@[0].0@ == "layer-plate"@
                            && layers@[0].1.triangles@.len() == 12
                            && layers@[0].1.triangles@ == cube_spec(
                            grid.width_spec() * self.config.color_pixel_width,
                            grid.height_spec() * self.config.color_pixel_width,
                            self.config.plate_thickness as int,
                            Vector3 {
                                x: (grid.width_spec() * self.config.color_pixel_width
                                    / 2) as i64,
                                y: (grid.height_spec() * self.config.color_pixel_width
                                    / 2) as i64,
                                z: (0 - self.config.plate_thickness / 2) as i64,
                            },
                        ),
                    decreases group_count - g,
                {
                    let hex_codes = &palette.hex_color_groups()[g];
                    let ghost hexes = palette.hex_color_group_list@[g as int]@;
                    let ghost nmap = palette.hex_codes_map@;
                    let mut color_names: Vec<String> = Vec::new();
                    let mut hc: usize = 0;
                    while hc < hex_codes.len()
                        invariant
                            hc <= hex_codes@.len(),
                            g < palette.hex_color_group_list@.len(),
                            hex_codes@ == hexes,
                            hexes == palette.hex_color_group_list@[g as int]@,
                            nmap == palette.hex_codes_map@,
                            group_names_from_spec(nmap, hexes, 0) == strs_view(color_names@)
                                + group_names_from_spec(nmap, hexes, hc as int),
                        decreases hex_codes@.len() - hc,
                    {
                        let ghost pre = color_names@;
                        match palette.get_color_name(hex_codes[hc].as_str()) {
                            Some(name) => {
                                color_names.push(name.clone());
                                proof {
                                    assert(strs_view(color_names@) =~= strs_view(pre)
                                        + seq![name@]);
                                    assert(strs_view(color_names@) + group_names_from_spec(
                                        nmap,
                                        hexes,
                                        hc + 1,
                                    ) =~= strs_view(pre) + group_names_from_spec(
                                        nmap,
                                        hexes,
                                        hc as int,
                                    ));
                                }
                            },
                            None => {
                                proof {
                                    assert(group_names_from_spec(nmap, hexes, hc as int)
                                        =~= group_names_from_spec(nmap, hexes, hc + 1));
                                }
                            },
                        }
                        hc = hc + 1;
                    }
                    proof {
                        reveal_strlit("layer-");
                        reveal_strlit("+");
                        assert(group_names_from_spec(nmap, hexes, hexes.len() as int)
                            =~= Seq::<Seq<char>>::empty());
                        assert(strs_view(color_names@) + Seq::<Seq<char>>::empty()
                            =~= strs_view(color_names@));
                    }
                    let ghost nview = strs_view(color_names@);
                    let mut layer_name = String::from_str("layer-");
                    if color_names.len() == 0 {
                        let num = u64_to_string((g as u64) + 1);
                        layer_name.append(num.as_str());
                        proof {
                            assert(nview.len() == 0);
                            assert(layer_name@ == "layer-"@ + dec_spec(g as int + 1));
                        }
                    } else {
                        let mut n: usize = 0;
                        while n < color_names.len()
                            invariant
                                n <= color_names@.len(),
                                color_names@.len() >= 1,
                                nview == strs_view(color_names@),
                                "layer-"@ + joined_names_from_spec(nview, 0) == layer_name@
                                    + joined_names_from_spec(nview, n as int),
                            decreases color_names@.len() - n,
                        {
                            let ghost pre_name = layer_name@;
                            if n > 0 {
                                layer_name.append("+");
                            }
                            layer_name.append(color_names[n].as_str());
                            proof {
                                reveal_strlit("+");
                                assert("+"@ =~= seq!['+']);
                                assert(nview[n as int] == color_names@[n as int]@);
                                if n > 0 {
                                    assert(layer_name@ =~= pre_name + seq!['+']
                                        + color_names@[n as int]@);
                                } else {
                                    assert(layer_name@ =~= pre_name
                                        + color_names@[n as int]@);
                                }
                                assert(layer_name@ + joined_names_from_spec(nview, n + 1)
                                    =~= pre_name + joined_names_from_spec(nview, n as int));
                            }
                            n = n + 1;
                        }
                        proof {
                            assert(joined_names_from_spec(nview, color_names@.len() as int)
                                =~= Seq::<char>::empty());
                            assert(layer_name@ + Seq::<char>::empty() =~= layer_name@);
                            assert(nview.len() > 0);
                        }
                    }
                    proof {
                        assert(layer_name@ == group_layer_name_spec(palette, g as int));
                    }
                    let mesh = match generate_color_layer(
                        grid,
                        palette,
                        hex_codes,
                        &self.config,
                        -1,
                        -1,
                    ) {
                        Ok(m) => m,
                        Err(_) => {
                            proof {
                                assert(false);
                            }
                            return Err(
                                PixestlError::ImageProcess(
                                    String::from_str("color layer generation failed"),
                                ),
                            );
                        },
                    };
                    layers.push((layer_name, mesh));
                    g = g + 1;
                }
            },
            None => {},
        }

        match texture_image {
            Some(img) => {
                if self.config.texture_layer {
                    proof {
                        crate::image::lemma_grid_extent_fits(
                            img.width_spec(),
                            self.config.texture_pixel_width as int,
                        );
                        crate::image::lemma_grid_extent_fits(
                            img.height_spec(),
                            self.config.texture_pixel_width as int,
                        );
                    }
                    let extent_w: u128 = (img.width() as u128) * (
                    self.config.texture_pixel_width as u128);
                    let extent_h: u128 = (img.height() as u128) * (
                    self.config.texture_pixel_width as u128);
                    if extent_w > 10_000_000 || extent_h > 10_000_000 {
                        return Err(
                            PixestlError::ImageProcess(
                                String::from_str(
                                    "the texture grid does not fit the build volume",
                                ),
                            ),
                        );
                    }
                    let gray = convert_to_grayscale(img);
                    let flipped = flip_vertical(&gray);
                    let mesh = match generate_texture_layer(&flipped, &self.config) {
                        Ok(m) => m,
                        Err(_) => {
                            proof {
                                assert(false);
                            }
                            return Err(
                                PixestlError::ImageProcess(
                                    String::from_str("texture layer generation failed"),
                                ),
                            );
                        },
                    };
                    proof {
                        reveal_strlit("layer-texture");
                    }
                    layers.push((String::from_str("layer-texture"), mesh));
                    proof {
                        let w = img.width_spec();
                        let h = img.height_spec();
                        assert forall|x: int, y: int| 0 <= x < w && 0 <= y < h implies (
                        #[trigger] flipped.pixel_at(x, y)) == crate::image::gray_pixel_spec(
                            img.pixel_at(x, h - 1 - y),
                        ) by {
                            let yy = h - 1 - y;
                            assert(0 <= yy * w + x < h * w) by (nonlinear_arith)
                                requires
                                    0 <= x < w,
                                    0 <= yy < h,
                            ;
                            assert(w * h == h * w) by (nonlinear_arith);
                            assert(img.pixels_spec().len() == w * h);
                            assert(gray.pixels_spec().len() == img.pixels_spec().len());
                            assert(gray.pixels_spec()[yy * w + x] == crate::image::gray_pixel_spec(
                                img.pixels_spec()[yy * w + x],
                            ));
                            assert(gray.pixel_at(x, yy) == gray.pixels_spec()[yy * w + x]);
                            assert(img.pixel_at(x, yy) == img.pixels_spec()[yy * w + x]);
                            assert(flipped.pixel_at(x, y) == gray.pixel_at(x, yy));
                        }
                        assert(texture_source_spec(img, &flipped));
                        assert(layers@[layers@.len() - 1].1.triangles@
                            == crate::lithophane::texture_layer::texture_tris_spec(
                            &flipped,
                            &self.config,
                        ));
                    }
                }
            },
            None => {},
        }
        Ok(layers)
    }
}

} // verus!
