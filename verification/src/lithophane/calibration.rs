//! The calibration test pattern: a base plate and, for each active
//! filament, one row of sample squares at increasing layer counts.

use vstd::prelude::*;
use crate::color::rgb::{rgb_of_hex, Rgb};
use crate::error::PixestlError;
use crate::lithophane::config::LithophaneConfig;
use crate::lithophane::geometry::{cube_spec, Mesh, Vector3};
use crate::palette::loader::PaletteColorEntry;
use vstd::string::StringExecFns;

verus! {

/// The edge of one calibration square in micrometers.
pub const SQUARE_SIZE: u64 = 10_000;

/// The gap between squares in micrometers.
pub const SQUARE_GAP: u64 = 2_000;

/// Whether a character survives sanitization: ASCII letters and digits,
/// the dash and the underscore stay; everything else becomes `_`.
pub open spec fn keeps_char_spec(c: char) -> bool {
    (48 <= c as u32 <= 57) || (65 <= c as u32 <= 90) || (97 <= c as u32 <= 122) || c == '-'
        || c == '_'
}

/// The sanitized form of a name: kept characters unchanged, every other
/// character replaced by an underscore.
pub open spec fn sanitize_spec(s: Seq<char>) -> Seq<char> {
    s.map_values(
        |c: char|
            if keeps_char_spec(c) {
                c
            } else {
                '_'
            },
    )
}

/// Sanitizes a filament name into a file-safe string; an empty name falls
/// back to the hex code without its leading `#`.
pub fn sanitize_filename(name: &str, hex_code: &str) -> (r: String)
    ensures
        name@.len() > 0 ==> r@ == sanitize_spec(name@),
        name@.len() == 0 && hex_code@.len() > 0 && hex_code@[0] == '#' ==> r@
            == hex_code@.subrange(1, hex_code@.len() as int),
        name@.len() == 0 && (hex_code@.len() == 0 || hex_code@[0] != '#') ==> r@ == hex_code@,
{
    let n = name.unicode_len();
    if n == 0 {
        let hn = hex_code.unicode_len();
        if hn > 0 && hex_code.get_char(0) == '#' {
            let tail = hex_code.substring_char(1, hn);
            return tail.to_owned();
        }
        return hex_code.to_owned();
    }
    let mut out = String::new();
    let mut i: usize = 0;
    while i < n
        invariant
            i <= n,
            n == name@.len(),
            out@ =~= sanitize_spec(name@.take(i as int)),
        decreases n - i,
    {
        let c = name.get_char(i);
        let v = c as u32;
        proof {
            reveal_strlit("_");
        }
        if (48 <= v && v <= 57) || (65 <= v && v <= 90) || (97 <= v && v <= 122) || c == '-' || c
            == '_' {
            let piece = name.substring_char(i, i + 1);
            out.append(piece);
        } else {
            out.append("_");
        }
        proof {
            assert(out@ =~= sanitize_spec(name@.take(i + 1)));
        }
        i = i + 1;
    }
    proof {
        assert(name@.take(n as int) =~= name@);
    }
    out
}

/// The calibration grid extent in micrometers: `columns` (or `rows`)
/// squares with one gap between each pair.
pub open spec fn grid_extent_spec(count: int) -> int {
    if count == 0 {
        0
    } else {
        count * SQUARE_SIZE + (count - 1) * SQUARE_GAP
    }
}

/// Returns the physical calibration grid size (width, depth) in
/// micrometers for the given filament and layer-count numbers.
pub fn calibration_grid_dimensions(num_filaments: usize, nb_layers: u32) -> (r: (u64, u64))
    requires
        num_filaments <= 500,
        nb_layers <= 500,
    ensures
        r.0 == grid_extent_spec(nb_layers as int),
        r.1 == grid_extent_spec(num_filaments as int),
{
    let cols = nb_layers as u64;
    let width: u64 = if cols == 0 {
        0
    } else {
        cols * SQUARE_SIZE + (cols - 1) * SQUARE_GAP
    };
    let rows = num_filaments as u64;
    let depth: u64 = if rows == 0 {
        0
    } else {
        rows * SQUARE_SIZE + (rows - 1) * SQUARE_GAP
    };
    (width, depth)
}

/// The active, layered filaments as (color, name) pairs, names as
/// character sequences, from index `i` onward.
pub open spec fn calib_actives_from_spec(
    entries: Seq<(String, PaletteColorEntry)>,
    i: int,
) -> Seq<(Rgb, Seq<char>)>
    decreases entries.len() - i,
{
    if i >= entries.len() || i < 0 {
        Seq::empty()
    } else {
        (if entries[i].1.active && entries[i].1.layers is Some {
            seq![(crate::color::rgb::rgb_of_hex(entries[i].0@), entries[i].1.name@)]
        } else {
            Seq::empty()
        }) + calib_actives_from_spec(entries, i + 1)
    }
}

/// Inserts a filament pair into a key-sorted sequence, after equal keys.
pub open spec fn insert_active_spec(
    s: Seq<(Rgb, Seq<char>)>,
    p: (Rgb, Seq<char>),
) -> Seq<(Rgb, Seq<char>)>
    decreases s.len(),
{
    if s.len() == 0 {
        seq![p]
    } else if crate::palette::loader::rgb_key_spec(s[0].0) > crate::palette::loader::rgb_key_spec(
        p.0,
    ) {
        seq![p] + s
    } else {
        seq![s[0]] + insert_active_spec(s.drop_first(), p)
    }
}

/// The insertion sort of the filament pairs, first `i` elements.
pub open spec fn sort_actives_upto_spec(s: Seq<(Rgb, Seq<char>)>, i: int) -> Seq<(Rgb, Seq<char>)>
    decreases i,
{
    if i <= 0 {
        Seq::empty()
    } else {
        insert_active_spec(sort_actives_upto_spec(s, i - 1), s[i - 1])
    }
}

/// The active filaments of a palette file, sorted ascending by hex code.
pub open spec fn calib_actives_spec(entries: Seq<(String, PaletteColorEntry)>) -> Seq<
    (Rgb, Seq<char>),
> {
    let raw = calib_actives_from_spec(entries, 0);
    sort_actives_upto_spec(raw, raw.len() as int)
}

/// Whether the calibration input is acceptable: every active, layered
/// entry carries a parseable hex key.
pub open spec fn calib_ok_spec(entries: Seq<(String, PaletteColorEntry)>) -> bool {
    forall|i: int|
        0 <= i < entries.len() && entries[i].1.active && entries[i].1.layers is Some
            ==> crate::color::rgb::is_valid_hex(#[trigger] entries[i].0@)
}

/// The name of one calibration mesh: the sanitized filament name, falling
/// back to the canonical hex code without its hash.
pub open spec fn calib_name_spec(name: Seq<char>, color: Rgb) -> Seq<char> {
    "calibration-"@ + (if name.len() > 0 {
        sanitize_spec(name)
    } else {
        crate::color::rgb::hex_of_rgb(color).subrange(
            1,
            crate::color::rgb::hex_of_rgb(color).len() as int,
        )
    })
}

/// The center of the calibration square at column `col` of row `row`.
pub open spec fn calib_center_spec(col: int, row: int, t: int) -> Vector3 {
    Vector3 {
        x: (col * 12_000 + 5_000) as i64,
        y: (row * 12_000 + 5_000) as i64,
        z: ((col + 1) * t / 2) as i64,
    }
}

/// If the first `j` keys do not exceed the new key and the `j`-th does,
/// the insertion lands exactly at position `j`.
proof fn lemma_insert_active_at(s: Seq<(Rgb, Seq<char>)>, p: (Rgb, Seq<char>), j: int)
    requires
        0 <= j <= s.len(),
        forall|m: int|
            0 <= m < j ==> crate::palette::loader::rgb_key_spec((#[trigger] s[m]).0)
                <= crate::palette::loader::rgb_key_spec(p.0),
        j < s.len() ==> crate::palette::loader::rgb_key_spec(s[j].0)
            > crate::palette::loader::rgb_key_spec(p.0),
    ensures
        insert_active_spec(s, p) =~= s.insert(j, p),
    decreases s.len(),
{
    if j == 0 {
        assert(insert_active_spec(s, p) =~= s.insert(0, p));
    } else {
        lemma_insert_active_at(s.drop_first(), p, j - 1);
        assert(seq![s[0]] + s.drop_first().insert(j - 1, p) =~= s.insert(j, p));
    }
}

/// Generates the calibration pattern of the active filaments: the base
/// plate named `calibration-plate` (twelve triangles spanning the grid),
/// then one mesh per active filament in hex-sorted order, named after the
/// sanitized filament name, holding one 10 mm square per layer count with
/// rising height `j * layer_thickness`. Succeeds exactly when every
/// active, layered entry's hex key parses.
pub fn generate_calibration_pattern(
    palette_data: &Vec<(String, PaletteColorEntry)>,
    config: &LithophaneConfig,
) -> (r: Result<Vec<(String, Mesh)>, PixestlError>)
    requires
        1 <= config.color_pixel_layer_number <= 500,
        config.color_pixel_layer_thickness <= 10_000,
        config.plate_thickness <= 1_000_000,
        palette_data@.len() <= 500,
    ensures
        ({
            let acts = calib_actives_spec(palette_data@);
            let nb = config.color_pixel_layer_number as int;
            let t = config.color_pixel_layer_thickness as int;
            match r {
                Ok(layers) => {
                    &&& calib_ok_spec(palette_data@)
                    &&& layers@.len() == 1 + acts.len()
                    &&& layers@[0].0@ == "calibration-plate"@
                    &&& layers@[0].1.triangles@ == cube_spec(
                        grid_extent_spec(nb),
                        grid_extent_spec(acts.len() as int),
                        config.plate_thickness as int,
                        Vector3 {
                            x: (grid_extent_spec(nb) / 2) as i64,
                            y: (grid_extent_spec(acts.len() as int) / 2) as i64,
                            z: (0 - config.plate_thickness as int / 2) as i64,
                        },
                    )
                    &&& forall|a: int|
                        0 <= a < acts.len() ==> #[trigger] layers@[1 + a].0@ == calib_name_spec(
                            acts[a].1,
                            acts[a].0,
                        )
                    &&& forall|a: int|
                        0 <= a < acts.len() ==> #[trigger] layers@[1 + a].1.triangles@.len() == 12
                            * nb
                    &&& forall|a: int, c: int|
                        0 <= a < acts.len() && 0 <= c < nb ==> #[trigger] layers@[1
                            + a].1.triangles@.subrange(12 * c, 12 * c + 12) == cube_spec(
                            10_000,
                            10_000,
                            (c + 1) * t,
                            calib_center_spec(c, a, t),
                        )
                },
                Err(e) => !calib_ok_spec(palette_data@) && e is InvalidHexCode,
            }
        }),
{
    let ghost raw = calib_actives_from_spec(palette_data@, 0);
    // Active filaments, sorted ascending by hex code.
    let mut active: Vec<(Rgb, String)> = Vec::new();
    let mut i: usize = 0;
    while i < palette_data.len()
        invariant
            i <= palette_data@.len(),
            palette_data@.len() <= 500,
            raw == calib_actives_from_spec(palette_data@, 0),
            calib_actives_from_spec(palette_data@, 0) == actives_view(active@)
                + calib_actives_from_spec(palette_data@, i as int),
            active@.len() <= i,
            forall|a: int|
                0 <= a < i && palette_data@[a].1.active && palette_data@[a].1.layers is Some
                    ==> crate::color::rgb::is_valid_hex(#[trigger] palette_data@[a].0@),
        decreases palette_data@.len() - i,
    {
        let entry = &palette_data[i];
        let ghost pre = actives_view(active@);
        if entry.1.active && entry.1.layers.is_some() {
            let rgb = match Rgb::from_hex(entry.0.as_str()) {
                Ok(c) => c,
                Err(e) => {
                    proof {
                        assert(!calib_ok_spec(palette_data@)) by {
                            if calib_ok_spec(palette_data@) {
                                assert(crate::color::rgb::is_valid_hex(
                                    palette_data@[i as int].0@,
                                ));
                            }
                        }
                    }
                    return Err(e);
                },
            };
            active.push((rgb, entry.1.name.clone()));
            proof {
                assert(actives_view(active@) =~= pre + seq![
                    (rgb_of_hex(palette_data@[i as int].0@), palette_data@[i as int].1.name@),
                ]);
            }
        } else {
            proof {
                assert(actives_view(active@) =~= pre + Seq::<(Rgb, Seq<char>)>::empty());
            }
        }
        i = i + 1;
    }
    proof {
        assert(calib_actives_from_spec(palette_data@, palette_data@.len() as int) =~= Seq::<
            (Rgb, Seq<char>),
        >::empty());
        assert(actives_view(active@) + Seq::<(Rgb, Seq<char>)>::empty() =~= actives_view(
            active@,
        ));
    }
    let active = sort_actives(active);
    proof {
        assert(actives_view(active@) == calib_actives_spec(palette_data@));
    }

    let nb_layers = config.color_pixel_layer_number;
    let layer_thickness = config.color_pixel_layer_thickness;
    let plate_thickness = config.plate_thickness;
    let num_filaments = active.len();
    let (grid_width, grid_depth) = calibration_grid_dimensions(num_filaments, nb_layers);
    proof {
        lemma_grid_extent_bound(nb_layers as int);
        lemma_grid_extent_bound(num_filaments as int);
    }

    let mut layers: Vec<(String, Mesh)> = Vec::new();
    let plate_center = Vector3 {
        x: (grid_width / 2) as i64,
        y: (grid_depth / 2) as i64,
        z: 0 - (plate_thickness / 2) as i64,
    };
    let plate = Mesh::cube(grid_width, grid_depth, plate_thickness, plate_center);
    proof {
        reveal_strlit("calibration-plate");
    }
    layers.push((String::from_str("calibration-plate"), plate));

    let mut row_idx: usize = 0;
    while row_idx < num_filaments
        invariant
            num_filaments == active@.len(),
            num_filaments <= 500,
            1 <= nb_layers <= 500,
            layer_thickness <= 10_000,
            actives_view(active@) == calib_actives_spec(palette_data@),
            row_idx <= num_filaments,
            layers@.len() == 1 + row_idx,
            layers@[0] == layers@[0],
            layers@.take(1) == layers@.take(1),
            layers@[0].0@ == "calibration-plate"@,
            layers@[0].1.triangles@ == plate.triangles@,
            forall|a: int|
                0 <= a < row_idx ==> #[trigger] layers@[1 + a].0@ == calib_name_spec(
                    actives_view(active@)[a].1,
                    actives_view(active@)[a].0,
                ),
            forall|a: int|
                0 <= a < row_idx ==> #[trigger] layers@[1 + a].1.triangles@.len() == 12
                    * nb_layers,
            forall|a: int, c: int|
                0 <= a < row_idx && 0 <= c < nb_layers ==> #[trigger] layers@[1
                    + a].1.triangles@.subrange(12 * c, 12 * c + 12) == cube_spec(
                    10_000,
                    10_000,
                    (c + 1) * (layer_thickness as int),
                    calib_center_spec(c, a, layer_thickness as int),
                ),
        decreases num_filaments - row_idx,
    {
        let mut filament_mesh = Mesh::new();
        proof {
            assert((row_idx as int) * 12_000 <= 6_000_000 && 0 <= (row_idx as int) * 12_000)
                by (nonlinear_arith)
                requires
                    row_idx < 500,
            ;
        }
        let row_y: u64 = (row_idx as u64) * (SQUARE_SIZE + SQUARE_GAP);
        let mut layer_count: u32 = 1;
        while layer_count <= nb_layers
            invariant
                num_filaments <= 500,
                1 <= nb_layers <= 500,
                layer_thickness <= 10_000,
                row_idx < num_filaments,
                row_y == row_idx * (SQUARE_SIZE + SQUARE_GAP),
                1 <= layer_count <= nb_layers + 1,
                filament_mesh.triangles@.len() == 12 * (layer_count - 1),
                forall|c: int|
                    0 <= c < layer_count - 1 ==> #[trigger] filament_mesh.triangles@.subrange(
                        12 * c,
                        12 * c + 12,
                    ) == cube_spec(
                        10_000,
                        10_000,
                        (c + 1) * (layer_thickness as int),
                        calib_center_spec(c, row_idx as int, layer_thickness as int),
                    ),
            decreases nb_layers + 1 - layer_count,
        {
            let col_idx: u64 = (layer_count - 1) as u64;
            proof {
                assert(col_idx * 12_000 <= 6_000_000 && (layer_count as int) * layer_thickness
                    <= 5_000_000 && 0 <= col_idx * 12_000 && 0 <= (layer_count as int)
                    * layer_thickness && (row_idx as int) * 12_000 <= 6_000_000 && 0 <= (
                row_idx as int) * 12_000) by (nonlinear_arith)
                    requires
                        col_idx < 500u64,
                        1 <= layer_count <= 500u32,
                        layer_thickness <= 10_000u64,
                        row_idx < 500,
                ;
            }
            let col_x: u64 = col_idx * (SQUARE_SIZE + SQUARE_GAP);
            let cube_height: u64 = (layer_count as u64) * layer_thickness;
            let center = Vector3 {
                x: (col_x + SQUARE_SIZE / 2) as i64,
                y: (row_y + SQUARE_SIZE / 2) as i64,
                z: (cube_height / 2) as i64,
            };
            let cube = Mesh::cube(SQUARE_SIZE, SQUARE_SIZE, cube_height, center);
            let ghost before = filament_mesh.triangles@;
            filament_mesh.merge(&cube);
            proof {
                assert(center == calib_center_spec(
                    col_idx as int,
                    row_idx as int,
                    layer_thickness as int,
                ));
                assert(12 * (layer_count as int) == 12 * (layer_count - 1) + 12);
                assert forall|c: int|
                    0 <= c < layer_count implies #[trigger] filament_mesh.triangles@.subrange(
                    12 * c,
                    12 * c + 12,
                ) == cube_spec(
                    10_000,
                    10_000,
                    (c + 1) * (layer_thickness as int),
                    calib_center_spec(c, row_idx as int, layer_thickness as int),
                ) by {
                    if c < layer_count - 1 {
                        assert(12 * c + 12 <= 12 * (layer_count - 1)) by (nonlinear_arith)
                            requires
                                c < layer_count - 1,
                        ;
                        assert(filament_mesh.triangles@.subrange(12 * c, 12 * c + 12)
                            =~= before.subrange(12 * c, 12 * c + 12));
                    } else {
                        assert(filament_mesh.triangles@.subrange(12 * c, 12 * c + 12)
                            =~= cube.triangles@);
                    }
                }
            }
            layer_count = layer_count + 1;
        }
        let entry = &active[row_idx];
        let hex = entry.0.to_hex();
        let sanitized = sanitize_filename(entry.1.as_str(), hex.as_str());
        proof {
            reveal_strlit("calibration-");
        }
        let mut layer_name = String::from_str("calibration-");
        layer_name.append(sanitized.as_str());
        proof {
            assert(actives_view(active@)[row_idx as int]
                == (active@[row_idx as int].0, active@[row_idx as int].1@));
            assert(hex@ == crate::color::rgb::hex_of_rgb(active@[row_idx as int].0));
            assert(hex@.len() == 7 && hex@[0] == '#');
            assert(layer_name@ =~= calib_name_spec(
                actives_view(active@)[row_idx as int].1,
                actives_view(active@)[row_idx as int].0,
            ));
        }
        layers.push((layer_name, filament_mesh));
        row_idx = row_idx + 1;
    }
    proof {
        assert(calib_ok_spec(palette_data@));
    }
    Ok(layers)
}

/// The (color, name-view) pairs of a filament list.
pub open spec fn actives_view(s: Seq<(Rgb, String)>) -> Seq<(Rgb, Seq<char>)> {
    s.map_values(|p: (Rgb, String)| (p.0, p.1@))
}

/// Sorts the filament pairs ascending by hex key: exactly the insertion
/// sort of their views, equal keys keeping their incoming order.
fn sort_actives(input: Vec<(Rgb, String)>) -> (r: Vec<(Rgb, String)>)
    ensures
        r@.len() == input@.len(),
        actives_view(r@) == sort_actives_upto_spec(
            actives_view(input@),
            actives_view(input@).len() as int,
        ),
{
    let ghost iv = actives_view(input@);
    let mut out: Vec<(Rgb, String)> = Vec::new();
    let mut i: usize = 0;
    while i < input.len()
        invariant
            i <= input@.len(),
            iv == actives_view(input@),
            out@.len() == i,
            actives_view(out@) == sort_actives_upto_spec(iv, i as int),
        decreases input@.len() - i,
    {
        let c = input[i].0;
        let name = input[i].1.clone();
        let key = (c.r as u32) * 65536 + (c.g as u32) * 256 + (c.b as u32);
        let mut j: usize = 0;
        let mut found = false;
        while j < out.len() && !found
            invariant
                j <= out@.len(),
                key == crate::palette::loader::rgb_key_spec(c),
                found ==> j < out@.len() && crate::palette::loader::rgb_key_spec(
                    actives_view(out@)[j as int].0,
                ) > crate::palette::loader::rgb_key_spec(c),
                forall|m: int|
                    0 <= m < j ==> crate::palette::loader::rgb_key_spec(
                        (#[trigger] actives_view(out@)[m]).0,
                    ) <= crate::palette::loader::rgb_key_spec(c),
            decreases out@.len() - j + (if found {
                0int
            } else {
                1int
            }),
        {
            let e = &out[j].0;
            if (e.r as u32) * 65536 + (e.g as u32) * 256 + (e.b as u32) > key {
                found = true;
            } else {
                j = j + 1;
            }
        }
        proof {
            lemma_insert_active_at(actives_view(out@), (c, name@), j as int);
            assert(iv[i as int] == (input@[i as int].0, input@[i as int].1@));
        }
        out.insert(j, (c, name));
        proof {
            assert(actives_view(out@) =~= sort_actives_upto_spec(iv, i + 1));
        }
        i = i + 1;
    }
    out
}

/// A grid of at most five hundred squares stays within two meters./// A grid of at most five hundred squares stays within two meters.
proof fn lemma_grid_extent_bound(count: int)
    requires
        0 <= count <= 500,
    ensures
        0 <= grid_extent_spec(count) <= 6_000_000,
{
    if count > 0 {
        assert(count * SQUARE_SIZE <= 500 * 10_000 && (count - 1) * SQUARE_GAP <= 499 * 2_000
            && count * SQUARE_SIZE >= 0 && (count - 1) * SQUARE_GAP >= 0) by (nonlinear_arith)
            requires
                1 <= count <= 500,
        ;
    }
}

} // verus!
