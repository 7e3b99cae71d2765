//! The color-layer synthesizer: row-parallel cube stacking with run-length
//! merging and per-slot-group window clipping.
//!
//! For every row, every filament of the slot group, and every run of equal
//! opaque pixels, the synthesizer emits one rectangular prism per layer that
//! the filament contributes to the pixel's stack, clipped to the group's
//! vertical window. Each prism later becomes twelve triangles.

use vstd::prelude::*;
use crate::error::PixestlError;
use crate::image::{
    has_transparent_pixel, has_transparent_spec, is_pixel_transparent, is_transparent_spec,
    PixelGrid,
};
use crate::lithophane::config::LithophaneConfig;
use crate::lithophane::geometry::{cube_spec, Mesh, Vector3};
use crate::color::rgb::Rgb;
use crate::palette::color_combi::{capped_position_spec, filter_hex_spec, ColorCombi};
use crate::palette::color_layer::{ColorLayer, LayerModel};
use crate::palette::store::Palette;

verus! {

/// A rectangular prism: the intermediate form of one emitted cube.
#[derive(Debug, Clone, Copy, PartialEq, Eq, Structural)]
pub struct Prism {
    /// Extent along X in micrometers.
    pub width: u64,
    /// Extent along Y in micrometers.
    pub depth: u64,
    /// Extent along Z in micrometers.
    pub height: u64,
    /// Center of the prism.
    pub center: Vector3,
}

impl Prism {
    /// Dimensions and position small enough for the geometry kernel.
    pub open spec fn in_bounds(&self) -> bool {
        &&& self.width <= 10_000_000
        &&& self.depth <= 10_000_000
        &&& self.height <= 10_000_000
        &&& -20_000_000 <= self.center.x <= 20_000_000
        &&& -20_000_000 <= self.center.y <= 20_000_000
        &&& -20_000_000 <= self.center.z <= 20_000_000
    }
}

/// Whether one of the eight neighbors of `(x, y)` is transparent.
pub open spec fn transparent_neighbor_spec(g: &PixelGrid, x: int, y: int) -> bool {
    exists|dx: int, dy: int|
        -1 <= dx <= 1 && -1 <= dy <= 1 && !(dx == 0 && dy == 0) && 0 <= x + dx < g.width_spec()
            && 0 <= y + dy < g.height_spec() && is_transparent_spec(
            #[trigger] g.pixel_at(x + dx, y + dy),
        )
}

/// Checks whether a pixel has a transparent 8-neighbor.
pub fn has_transparent_neighbor(image: &PixelGrid, x: usize, y: usize) -> (r: bool)
    requires
        image.wf(),
        x < image.width_spec(),
        y < image.height_spec(),
        image.width_spec() <= 100_000_000,
        image.height_spec() <= 100_000_000,
    ensures
        r == transparent_neighbor_spec(image, x as int, y as int),
{
    let width = image.width();
    let height = image.height();
    let mut dy: i64 = -1;
    while dy <= 1
        invariant
            image.wf(),
            width == image.width_spec(),
            height == image.height_spec(),
            x < width,
            y < height,
            width <= 100_000_000,
            height <= 100_000_000,
            -1 <= dy <= 2,
            forall|ddx: int, ddy: int|
                -1 <= ddx <= 1 && -1 <= ddy < dy && !(ddx == 0 && ddy == 0) && 0 <= x + ddx
                    < width && 0 <= y + ddy < height ==> !is_transparent_spec(
                    #[trigger] image.pixel_at(x + ddx, y + ddy),
                ),
        decreases 2 - dy,
    {
        let mut dx: i64 = -1;
        while dx <= 1
            invariant
                image.wf(),
                width == image.width_spec(),
                height == image.height_spec(),
                x < width,
                y < height,
                width <= 100_000_000,
                height <= 100_000_000,
                -1 <= dy <= 1,
                -1 <= dx <= 2,
                forall|ddx: int, ddy: int|
                    -1 <= ddx <= 1 && -1 <= ddy < dy && !(ddx == 0 && ddy == 0) && 0 <= x + ddx
                        < width && 0 <= y + ddy < height ==> !is_transparent_spec(
                        #[trigger] image.pixel_at(x + ddx, y + ddy),
                    ),
                forall|ddx: int|
                    -1 <= ddx < dx && !(ddx == 0 && dy == 0) && 0 <= x + ddx < width && 0 <= y + dy
                        < height ==> !is_transparent_spec(
                        #[trigger] image.pixel_at(x + ddx, y + dy as int),
                    ),
            decreases 2 - dx,
        {
            if !(dx == 0 && dy == 0) {
                let nx = x as i64 + dx;
                let ny = y as i64 + dy;
                if nx >= 0 && ny >= 0 && nx < width as i64 && ny < height as i64 {
                    let p = image.get_pixel(nx as usize, ny as usize);
                    if is_pixel_transparent(&p) {
                        return true;
                    }
                }
            }
            dx = dx + 1;
        }
        dy = dy + 1;
    }
    false
}

/// The window clip: a layer spanning printed positions
/// `[before, before + height)` restricted to the window
/// `[offset, offset + max)`. Entirely outside gives `(0, 0)`; a span
/// entering from below is cut at the window start and capped at the window
/// size; a span starting inside keeps its offset-relative position and is
/// cut at the window end.
pub open spec fn window_clip_spec(height: int, before: int, offset: int, max: int) -> (
    int,
    int,
) {
    if before >= offset + max {
        (0, 0)
    } else if before < offset {
        if before + height < offset {
            (0, 0)
        } else {
            let h = height - (offset - before);
            if h > max {
                (max, 0)
            } else {
                (h, 0)
            }
        }
    } else {
        let b = before - offset;
        if height + b > max {
            (max - b, b)
        } else {
            (height, b)
        }
    }
}

/// Clips a layer's height and printed position to a visible window.
pub fn apply_layer_offset(layer_height: u32, layer_before: usize, offset: i32, layer_max: i32) -> (
    r: (u32, usize))
    requires
        offset >= 0,
        layer_max >= 0,
    ensures
        r.0 == window_clip_spec(
            layer_height as int,
            layer_before as int,
            offset as int,
            layer_max as int,
        ).0,
        r.1 == window_clip_spec(
            layer_height as int,
            layer_before as int,
            offset as int,
            layer_max as int,
        ).1,
        r.0 <= layer_max,
        r.1 + r.0 <= layer_max,
{
    let before: u64 = layer_before as u64;
    let height: u64 = layer_height as u64;
    let off: u64 = offset as u64;
    let max: u64 = layer_max as u64;
    if before >= off + max {
        return (0, 0);
    }
    if before < off {
        if before + height < off {
            return (0, 0);
        }
        let mut new_height: u64 = height - (off - before);
        if new_height > max {
            new_height = max;
        }
        (new_height as u32, 0)
    } else {
        let new_before: u64 = before - off;
        let mut new_height: u64 = height;
        if new_height + new_before > max {
            new_height = max - new_before;
        }
        ((new_height as u32), new_before as usize)
    }
}

/// Whether the scan passes over the pixel at `(x, y)`: it is transparent,
/// or the grid holds transparency somewhere and the pixel touches it.
pub open spec fn skip_pixel_spec(g: &PixelGrid, has_t: bool, x: int, y: int) -> bool {
    is_transparent_spec(g.pixel_at(x, y)) || (has_t && transparent_neighbor_spec(g, x, y))
}

/// The length of the run starting at `x` in row `y`, already `k` pixels
/// long: it extends while the next pixel shows the same color, is opaque,
/// and is off the transparency moat.
pub open spec fn run_len_from_spec(
    g: &PixelGrid,
    y: int,
    x: int,
    base: Rgb,
    has_t: bool,
    k: int,
) -> int
    decreases g.width_spec() - x - k,
{
    if x + k >= g.width_spec() {
        k
    } else {
        let p = g.pixel_at(x + k, y);
        if p.rgb_spec() != base || is_transparent_spec(p) || (has_t && transparent_neighbor_spec(
            g,
            x + k,
            y,
        )) {
            k
        } else {
            run_len_from_spec(g, y, x, base, has_t, k + 1)
        }
    }
}

/// The run length at `(x, y)`: at least one pixel.
pub open spec fn run_len_spec(g: &PixelGrid, y: int, x: int, has_t: bool) -> int {
    run_len_from_spec(g, y, x, g.pixel_at(x, y).rgb_spec(), has_t, 1)
}

/// The prism of one layer occurrence of a run, or `None` when the window
/// clip leaves nothing or the geometry would reach past the printable
/// bounds. `h` is the layer's printed height, `before` its printed
/// position, `pw` the pixel width and `t` the layer thickness in
/// micrometers; the run covers columns `x .. x + k` of row `y`.
pub open spec fn layer_prism_spec(
    h: int,
    before: int,
    pw: int,
    t: int,
    x: int,
    y: int,
    k: int,
    offset: int,
    max: int,
) -> Option<Prism> {
    let clipped = if offset != -1 && max != -1 {
        window_clip_spec(h, before, offset, max)
    } else {
        (h, before)
    };
    let ah = clipped.0;
    let ab = clipped.1;
    if ah == 0 {
        None
    } else {
        let h_um = ah * t;
        let bt = if ab * t <= u64::MAX {
            ab * t
        } else {
            u64::MAX as int
        };
        let z_top = if bt + h_um <= u64::MAX {
            bt + h_um
        } else {
            u64::MAX as int
        };
        if h_um > 10_000_000 || z_top > 10_000_000 {
            None
        } else {
            Some(
                Prism {
                    width: (k * pw) as u64,
                    depth: pw as u64,
                    height: h_um as u64,
                    center: Vector3 {
                        x: (x * pw + (k * pw) / 2) as i64,
                        y: (y * pw) as i64,
                        z: (bt + h_um / 2) as i64,
                    },
                },
            )
        }
    }
}

/// The prisms one run contributes for one filament, from the `li`-th
/// occurrence of the hex code onward: each occurrence's layer, positioned
/// by the printed layers below it, clipped to the window.
pub open spec fn run_prisms_from_spec(
    combi: Seq<LayerModel>,
    hexv: Seq<char>,
    pw: int,
    t: int,
    x: int,
    y: int,
    k: int,
    offset: int,
    max: int,
    li: int,
) -> Seq<Prism>
    decreases filter_hex_spec(combi, hexv).len() - li,
{
    let layers = filter_hex_spec(combi, hexv);
    if li >= layers.len() {
        Seq::empty()
    } else {
        let rest = run_prisms_from_spec(combi, hexv, pw, t, x, y, k, offset, max, li + 1);
        if layers[li].count == 0 {
            rest
        } else {
            let before = match capped_position_spec(combi, hexv, li) {
                Some(p) => p,
                None => 0,
            };
            match layer_prism_spec(
                layers[li].count as int,
                before,
                pw,
                t,
                x,
                y,
                k,
                offset,
                max,
            ) {
                Some(pr) => seq![pr] + rest,
                None => rest,
            }
        }
    }
}

/// The prisms of one filament over one row, scanning from column `x` with
/// run-length merging: a skipped pixel advances by one; an opaque pixel
/// starts a run whose stack is looked up in the palette, and the scan
/// resumes after the run.
pub open spec fn row_prisms_from_spec(
    g: &PixelGrid,
    pal: &Palette,
    hexv: Seq<char>,
    pw: int,
    t: int,
    offset: int,
    max: int,
    has_t: bool,
    y: int,
    x: int,
) -> Seq<Prism>
    decreases g.width_spec() - x,
{
    if x >= g.width_spec() || x < 0 {
        Seq::empty()
    } else if skip_pixel_spec(g, has_t, x, y) {
        row_prisms_from_spec(g, pal, hexv, pw, t, offset, max, has_t, y, x + 1)
    } else {
        let k0 = run_len_spec(g, y, x, has_t);
        let k = if k0 < 1 {
            1
        } else {
            k0
        };
        let here = match pal.lookup_spec(g.pixel_at(x, y).rgb_spec()) {
            Some(cv) => run_prisms_from_spec(cv, hexv, pw, t, x, y, k, offset, max, 0),
            None => Seq::empty(),
        };
        let xn = if x + k > g.width_spec() {
            g.width_spec()
        } else {
            x + k
        };
        here + row_prisms_from_spec(g, pal, hexv, pw, t, offset, max, has_t, y, xn)
    }
}

/// The prisms of one row across the slot group's filaments, in list order.
pub open spec fn row_group_prisms_spec(
    g: &PixelGrid,
    pal: &Palette,
    hexes: Seq<String>,
    pw: int,
    t: int,
    offset: int,
    max: int,
    has_t: bool,
    y: int,
    hi: int,
) -> Seq<Prism>
    decreases hexes.len() - hi,
{
    if hi >= hexes.len() || hi < 0 {
        Seq::empty()
    } else {
        row_prisms_from_spec(g, pal, hexes[hi]@, pw, t, offset, max, has_t, y, 0)
            + row_group_prisms_spec(g, pal, hexes, pw, t, offset, max, has_t, y, hi + 1)
    }
}

/// The prisms of the whole grid from row `y` downward, rows in order.
pub open spec fn rows_prisms_spec(
    g: &PixelGrid,
    pal: &Palette,
    hexes: Seq<String>,
    pw: int,
    t: int,
    offset: int,
    max: int,
    has_t: bool,
    y: int,
) -> Seq<Prism>
    decreases g.height_spec() - y,
{
    if y >= g.height_spec() || y < 0 {
        Seq::empty()
    } else {
        row_group_prisms_spec(g, pal, hexes, pw, t, offset, max, has_t, y, 0)
            + rows_prisms_spec(g, pal, hexes, pw, t, offset, max, has_t, y + 1)
    }
}

/// Every prism the color synthesizer emits for one slot group: rows in
/// increasing order, filaments in group order within a row, runs left to
/// right, layer occurrences bottom up.
pub open spec fn color_prisms_spec(
    g: &PixelGrid,
    pal: &Palette,
    hexes: Seq<String>,
    config: &LithophaneConfig,
    offset: int,
    max: int,
) -> Seq<Prism> {
    rows_prisms_spec(
        g,
        pal,
        hexes,
        config.color_pixel_width as int,
        config.color_pixel_layer_thickness as int,
        offset,
        max,
        has_transparent_spec(g),
        0,
    )
}

/// Measures the run starting at `(x, y)`.
fn run_length(image: &PixelGrid, y: usize, x: usize, base: Rgb, has_t: bool) -> (k: usize)
    requires
        image.wf(),
        x < image.width_spec(),
        y < image.height_spec(),
        image.width_spec() <= 100_000_000,
        image.height_spec() <= 100_000_000,
        has_t == has_transparent_spec(image),
        base == image.pixel_at(x as int, y as int).rgb_spec(),
    ensures
        k == run_len_spec(image, y as int, x as int, has_t),
        1 <= k,
        x + k <= image.width_spec(),
{
    let width = image.width();
    let mut k: usize = 1;
    while x + k < width
        invariant
            image.wf(),
            width == image.width_spec(),
            x < width,
            y < image.height_spec(),
            width <= 100_000_000,
            image.height_spec() <= 100_000_000,
            has_t == has_transparent_spec(image),
            base == image.pixel_at(x as int, y as int).rgb_spec(),
            1 <= k,
            x + k <= width,
            run_len_spec(image, y as int, x as int, has_t) == run_len_from_spec(
                image,
                y as int,
                x as int,
                base,
                has_t,
                k as int,
            ),
        decreases width - x - k,
    {
        let next = image.get_pixel(x + k, y);
        let next_rgb = next.rgb();
        if next_rgb.r != base.r || next_rgb.g != base.g || next_rgb.b != base.b
            || is_pixel_transparent(&next) || (has_t && has_transparent_neighbor(
            image,
            x + k,
            y,
        )) {
            return k;
        }
        k = k + 1;
    }
    k
}

/// Appends the prisms one run contributes for one filament.
fn append_run_prisms(
    combi: &ColorCombi,
    hex_code: &str,
    pw: u64,
    t: u64,
    x: usize,
    y: usize,
    k: usize,
    layer_offset: i32,
    layer_max: i32,
    out: &mut Vec<Prism>,
)
    requires
        1 <= pw,
        1 <= t <= 100_000,
        1 <= k,
        (x + k) * pw <= 10_000_000,
        y * pw <= 10_000_000,
        layer_offset == -1 <==> layer_max == -1,
        layer_offset >= -1,
        layer_max >= -1,
    ensures
        final(out)@ == old(out)@ + run_prisms_from_spec(
            combi@,
            hex_code@,
            pw as int,
            t as int,
            x as int,
            y as int,
            k as int,
            layer_offset as int,
            layer_max as int,
            0,
        ),
        forall|i: int|
            old(out)@.len() <= i < final(out)@.len() ==> (#[trigger] final(out)@[i]).in_bounds(),
{
    let layers = combi.layers_with_hex(hex_code);
    let ghost base = out@;
    let mut li: usize = 0;
    while li < layers.len()
        invariant
            1 <= pw,
            1 <= t <= 100_000,
            1 <= k,
            (x + k) * pw <= 10_000_000,
            y * pw <= 10_000_000,
            layer_offset == -1 <==> layer_max == -1,
            layer_offset >= -1,
            layer_max >= -1,
            li <= layers@.len(),
            layers@.map_values(|l: ColorLayer| l@) == filter_hex_spec(combi@, hex_code@),
            run_prisms_from_spec(
                combi@,
                hex_code@,
                pw as int,
                t as int,
                x as int,
                y as int,
                k as int,
                layer_offset as int,
                layer_max as int,
                0,
            ) == out@.skip(base.len() as int) + run_prisms_from_spec(
                combi@,
                hex_code@,
                pw as int,
                t as int,
                x as int,
                y as int,
                k as int,
                layer_offset as int,
                layer_max as int,
                li as int,
            ),
            out@.len() >= base.len(),
            out@.take(base.len() as int) == base,
            forall|i: int|
                base.len() <= i < out@.len() ==> (#[trigger] out@[i]).in_bounds(),
        decreases layers@.len() - li,
    {
        let layer_height = layers[li].layer();
        if layer_height == 0 {
            li = li + 1;
            continue ;
        }
        let layer_before: usize = match combi.layer_position_capped(hex_code, li) {
            Some(p) => p,
            None => 0,
        };
        let (adjusted_height, adjusted_before) = if layer_offset != -1 && layer_max != -1 {
            apply_layer_offset(layer_height, layer_before, layer_offset, layer_max)
        } else {
            (layer_height, layer_before)
        };
        if adjusted_height == 0 {
            li = li + 1;
            continue ;
        }
        proof {
            assert((adjusted_height as int) * t <= 0xFFFF_FFFFu64 * 100_000) by (nonlinear_arith)
                requires
                    adjusted_height <= 0xFFFF_FFFFu32,
                    1 <= t <= 100_000u64,
            ;
        }
        let h_um: u64 = (adjusted_height as u64) * t;
        let bt: u64 = crate::mathx::sat_mul64(adjusted_before as u64, t);
        let z_top: u64 = crate::mathx::sat_add64(bt, h_um);
        if h_um > 10_000_000 || z_top > 10_000_000 {
            li = li + 1;
            continue ;
        }
        proof {
            assert(x * pw + k * pw <= (x + k) * pw && 0 <= x * pw && 0 <= k * pw && k * pw <= (x
                + k) * pw) by (nonlinear_arith)
                requires
                    1 <= pw,
                    0 <= x,
                    1 <= k,
            ;
        }
        let cube_width: u64 = (k as u64) * pw;
        let center_x: i64 = ((x as u64) * pw + cube_width / 2) as i64;
        let center_y: i64 = ((y as u64) * pw) as i64;
        let center_z: i64 = (bt + h_um / 2) as i64;
        let new_prism = Prism {
            width: cube_width,
            depth: pw,
            height: h_um,
            center: Vector3 { x: center_x, y: center_y, z: center_z },
        };
        proof {
            assert(pw <= 10_000_000) by (nonlinear_arith)
                requires
                    (x + k) * pw <= 10_000_000,
                    x + k >= 1,
                    pw >= 1,
            ;
            assert(new_prism.in_bounds());
        }
        out.push(new_prism);
        li = li + 1;
    }
    proof {
        assert(out@.skip(base.len() as int) + Seq::<Prism>::empty() =~= out@.skip(
            base.len() as int,
        ));
        assert(final(out)@ =~= old(out)@ + out@.skip(base.len() as int));
    }
}

/// Appends the prisms of one filament over one row.
fn append_row_prisms(
    image: &PixelGrid,
    palette: &Palette,
    hex_code: &str,
    pw: u64,
    t: u64,
    layer_offset: i32,
    layer_max: i32,
    has_t: bool,
    y: usize,
    out: &mut Vec<Prism>,
)
    requires
        image.wf(),
        y < image.height_spec(),
        1 <= pw,
        1 <= t <= 100_000,
        image.width_spec() * pw <= 10_000_000,
        image.height_spec() * pw <= 10_000_000,
        layer_offset == -1 <==> layer_max == -1,
        layer_offset >= -1,
        layer_max >= -1,
        has_t == has_transparent_spec(image),
    ensures
        final(out)@ == old(out)@ + row_prisms_from_spec(
            image,
            palette,
            hex_code@,
            pw as int,
            t as int,
            layer_offset as int,
            layer_max as int,
            has_t,
            y as int,
            0,
        ),
        forall|i: int|
            old(out)@.len() <= i < final(out)@.len() ==> (#[trigger] final(out)@[i]).in_bounds(),
{
    let width = image.width();
    proof {
        assert(width <= 10_000_000 && image.height_spec() <= 10_000_000) by (nonlinear_arith)
            requires
                width * pw <= 10_000_000,
                image.height_spec() * pw <= 10_000_000,
                pw >= 1,
                0 <= width,
                0 <= image.height_spec(),
        ;
    }
    let ghost base = out@;
    let mut x: usize = 0;
    while x < width
        invariant
            image.wf(),
            width == image.width_spec(),
            y < image.height_spec(),
            1 <= pw,
            1 <= t <= 100_000,
            width * pw <= 10_000_000,
            image.height_spec() * pw <= 10_000_000,
            width <= 10_000_000,
            image.height_spec() <= 10_000_000,
            layer_offset == -1 <==> layer_max == -1,
            layer_offset >= -1,
            layer_max >= -1,
            has_t == has_transparent_spec(image),
            x <= width,
            row_prisms_from_spec(
                image,
                palette,
                hex_code@,
                pw as int,
                t as int,
                layer_offset as int,
                layer_max as int,
                has_t,
                y as int,
                0,
            ) == out@.skip(base.len() as int) + row_prisms_from_spec(
                image,
                palette,
                hex_code@,
                pw as int,
                t as int,
                layer_offset as int,
                layer_max as int,
                has_t,
                y as int,
                x as int,
            ),
            out@.len() >= base.len(),
            out@.take(base.len() as int) == base,
            forall|i: int|
                base.len() <= i < out@.len() ==> (#[trigger] out@[i]).in_bounds(),
        decreases width - x,
    {
        let pixel = image.get_pixel(x, y);
        if is_pixel_transparent(&pixel) {
            x = x + 1;
            continue ;
        }
        if has_t && has_transparent_neighbor(image, x, y) {
            x = x + 1;
            continue ;
        }
        let pixel_rgb = pixel.rgb();
        let k = run_length(image, y, x, pixel_rgb, has_t);
        proof {
            assert((x + k) * pw <= width * pw && y * pw <= image.height_spec() * pw)
                by (nonlinear_arith)
                requires
                    x + k <= width,
                    y <= image.height_spec(),
                    pw >= 1,
                    0 <= x,
                    0 <= y,
                    0 <= k,
            ;
        }
        match palette.get_combi(&pixel_rgb) {
            Some(color_combi) => {
                append_run_prisms(
                    color_combi,
                    hex_code,
                    pw,
                    t,
                    x,
                    y,
                    k,
                    layer_offset,
                    layer_max,
                    out,
                );
            },
            None => {},
        }
        x = x + k;
    }
    proof {
        assert(final(out)@ =~= old(out)@ + out@.skip(base.len() as int));
    }
}

/// Collects the prisms of one slot group over a quantized grid: exactly
/// [`color_prisms_spec`], rows in increasing order, filaments in group
/// order within a row, runs left to right.
pub fn collect_color_prisms(
    image: &PixelGrid,
    palette: &Palette,
    hex_codes: &Vec<String>,
    config: &LithophaneConfig,
    layer_offset: i32,
    layer_max: i32,
) -> (r: Vec<Prism>)
    requires
        image.wf(),
        config.color_pixel_width >= 1,
        image.width_spec() * config.color_pixel_width <= 10_000_000,
        image.height_spec() * config.color_pixel_width <= 10_000_000,
        config.color_pixel_layer_thickness >= 1,
        config.color_pixel_layer_thickness <= 100_000,
        layer_offset == -1 <==> layer_max == -1,
        layer_offset >= -1,
        layer_max >= -1,
    ensures
        r@ == color_prisms_spec(
            image,
            palette,
            hex_codes@,
            config,
            layer_offset as int,
            layer_max as int,
        ),
        forall|i: int| 0 <= i < r@.len() ==> (#[trigger] r@[i]).in_bounds(),
{
    let mut prisms: Vec<Prism> = Vec::new();
    let height = image.height();
    let has_t = has_transparent_pixel(image);
    let pw = config.color_pixel_width;
    let t = config.color_pixel_layer_thickness;
    let ghost po = layer_offset as int;
    let ghost pm = layer_max as int;
    let mut y: usize = 0;
    while y < height
        invariant
            image.wf(),
            height == image.height_spec(),
            pw == config.color_pixel_width,
            t == config.color_pixel_layer_thickness,
            1 <= pw,
            1 <= t <= 100_000,
            image.width_spec() * pw <= 10_000_000,
            image.height_spec() * pw <= 10_000_000,
            layer_offset == -1 <==> layer_max == -1,
            layer_offset >= -1,
            layer_max >= -1,
            po == layer_offset as int,
            pm == layer_max as int,
            has_t == has_transparent_spec(image),
            y <= height,
            rows_prisms_spec(image, palette, hex_codes@, pw as int, t as int, po, pm, has_t, 0)
                == prisms@ + rows_prisms_spec(
                image,
                palette,
                hex_codes@,
                pw as int,
                t as int,
                po,
                pm,
                has_t,
                y as int,
            ),
            forall|i: int| 0 <= i < prisms@.len() ==> (#[trigger] prisms@[i]).in_bounds(),
        decreases height - y,
    {
        let ghost row_base = prisms@;
        let mut hi: usize = 0;
        while hi < hex_codes.len()
            invariant
                image.wf(),
                height == image.height_spec(),
                y < height,
                pw == config.color_pixel_width,
                t == config.color_pixel_layer_thickness,
                1 <= pw,
                1 <= t <= 100_000,
                image.width_spec() * pw <= 10_000_000,
                image.height_spec() * pw <= 10_000_000,
                layer_offset == -1 <==> layer_max == -1,
                layer_offset >= -1,
                layer_max >= -1,
                po == layer_offset as int,
                pm == layer_max as int,
                has_t == has_transparent_spec(image),
                hi <= hex_codes@.len(),
                row_group_prisms_spec(
                    image,
                    palette,
                    hex_codes@,
                    pw as int,
                    t as int,
                    po,
                    pm,
                    has_t,
                    y as int,
                    0,
                ) == prisms@.skip(row_base.len() as int) + row_group_prisms_spec(
                    image,
                    palette,
                    hex_codes@,
                    pw as int,
                    t as int,
                    po,
                    pm,
                    has_t,
                    y as int,
                    hi as int,
                ),
                prisms@.len() >= row_base.len(),
                prisms@.take(row_base.len() as int) == row_base,
                forall|i: int| 0 <= i < prisms@.len() ==> (#[trigger] prisms@[i]).in_bounds(),
            decreases hex_codes@.len() - hi,
        {
            append_row_prisms(
                image,
                palette,
                hex_codes[hi].as_str(),
                pw,
                t,
                layer_offset,
                layer_max,
                has_t,
                y,
                &mut prisms,
            );
            hi = hi + 1;
        }
        proof {
            assert(prisms@ =~= row_base + prisms@.skip(row_base.len() as int));
        }
        y = y + 1;
    }
    prisms
}

/// The twelve triangles of one prism's axis-aligned box.
pub open spec fn prism_cube_spec(p: Prism) -> Seq<crate::lithophane::geometry::Triangle> {
    cube_spec(p.width as int, p.depth as int, p.height as int, p.center)
}

/// Builds the mesh of a prism list: exactly twelve triangles per prism, in
/// prism order, each block being the prism's axis-aligned box.
pub fn prisms_to_mesh(prisms: &Vec<Prism>) -> (r: Mesh)
    requires
        forall|i: int| 0 <= i < prisms@.len() ==> (#[trigger] prisms@[i]).in_bounds(),
    ensures
        r.triangles@.len() == 12 * prisms@.len(),
        forall|i: int|
            0 <= i < prisms@.len() ==> #[trigger] r.triangles@.subrange(12 * i, 12 * i + 12)
                == cube_spec(
                prisms@[i].width as int,
                prisms@[i].depth as int,
                prisms@[i].height as int,
                prisms@[i].center,
            ),
        r.in_bounds(),
{
    let cap: u64 = crate::mathx::sat_mul64(prisms.len() as u64, 12);
    let cap: usize = if cap > usize::MAX as u64 {
        usize::MAX
    } else {
        cap as usize
    };
    let mut mesh = Mesh::with_capacity(cap);
    let mut i: usize = 0;
    while i < prisms.len()
        invariant
            i <= prisms@.len(),
            forall|j: int| 0 <= j < prisms@.len() ==> (#[trigger] prisms@[j]).in_bounds(),
            mesh.triangles@.len() == 12 * i,
            forall|j: int|
                0 <= j < i ==> #[trigger] mesh.triangles@.subrange(12 * j, 12 * j + 12)
                    == cube_spec(
                    prisms@[j].width as int,
                    prisms@[j].depth as int,
                    prisms@[j].height as int,
                    prisms@[j].center,
                ),
            mesh.in_bounds(),
        decreases prisms@.len() - i,
    {
        let p = &prisms[i];
        let cube = Mesh::cube(p.width, p.depth, p.height, p.center);
        let ghost before_tris = mesh.triangles@;
        let ghost cube_tris = cube.triangles@;
        proof {
            assert(12 * (i + 1) == 12 * i + 12) by (nonlinear_arith);
        }
        mesh.merge_owned(cube);
        proof {
            assert forall|j: int|
                0 <= j < i + 1 implies #[trigger] mesh.triangles@.subrange(
                12 * j,
                12 * j + 12,
            ) == cube_spec(
                prisms@[j].width as int,
                prisms@[j].depth as int,
                prisms@[j].height as int,
                prisms@[j].center,
            ) by {
                if j < i {
                    assert(12 * j + 12 <= 12 * i) by (nonlinear_arith)
                        requires
                            j < i,
                    ;
                    assert(mesh.triangles@.subrange(12 * j, 12 * j + 12) =~= before_tris.subrange(
                        12 * j,
                        12 * j + 12,
                    ));
                } else {
                    assert(mesh.triangles@.subrange(12 * j, 12 * j + 12) =~= cube_tris);
                }
            }
        }
        i = i + 1;
    }
    mesh
}

/// Generates the mesh of one slot group over a quantized grid: every prism
/// of [`color_prisms_spec`] as its twelve-triangle box, in prism order, so
/// the triangle count is exactly twelve times the number of prisms emitted.
pub fn generate_color_layer(
    image: &PixelGrid,
    palette: &Palette,
    hex_codes: &Vec<String>,
    config: &LithophaneConfig,
    layer_offset: i32,
    layer_max: i32,
) -> (r: Result<Mesh, PixestlError>)
    requires
        image.wf(),
        config.color_pixel_width >= 1,
        image.width_spec() * config.color_pixel_width <= 10_000_000,
        image.height_spec() * config.color_pixel_width <= 10_000_000,
        config.color_pixel_layer_thickness >= 1,
        config.color_pixel_layer_thickness <= 100_000,
        layer_offset == -1 <==> layer_max == -1,
        layer_offset >= -1,
        layer_max >= -1,
    ensures
        match r {
            Ok(m) => {
                &&& m.triangles@.len() == 12 * color_prisms_spec(
                    image,
                    palette,
                    hex_codes@,
                    config,
                    layer_offset as int,
                    layer_max as int,
                ).len()
                &&& forall|i: int|
                    0 <= i < color_prisms_spec(
                        image,
                        palette,
                        hex_codes@,
                        config,
                        layer_offset as int,
                        layer_max as int,
                    ).len() ==> #[trigger] m.triangles@.subrange(12 * i, 12 * i + 12)
                        == prism_cube_spec(
                        color_prisms_spec(
                            image,
                            palette,
                            hex_codes@,
                            config,
                            layer_offset as int,
                            layer_max as int,
                        )[i],
                    )
                &&& m.triangles@.len() % 12 == 0
                &&& m.in_bounds()
            },
            Err(_) => false,
        },
{
    let prisms = collect_color_prisms(image, palette, hex_codes, config, layer_offset, layer_max);
    let mesh = prisms_to_mesh(&prisms);
    proof {
        vstd::arithmetic::div_mod::lemma_mod_multiples_basic(prisms@.len() as int, 12);
        assert(mesh.triangles@.len() % 12 == 0) by {
            assert(12 * prisms@.len() == prisms@.len() * 12) by (nonlinear_arith);
        }
    }
    Ok(mesh)
}

} // verus!
