//! Builds a palette from plain filament entries.
//!
//! Entries arrive as plain values (hex code, name, active flag, measured
//! layers); reading and JSON decoding of the palette file happen outside
//! the library. The loader canonicalizes hex codes, collects the active
//! filaments, groups them into printer slots, generates the per-group
//! stacks, crosses the groups, factorizes, reorders white, and fills the
//! palette. Every stack stored in the returned palette carries exactly
//! `nb_layers * nb_groups` printed layers.

use vstd::prelude::*;
use crate::color::distance::ColorDistanceMethod;
use crate::color::hsl::{hsl_of_rgb, Hsl};
use crate::color::rgb::{hex_of_rgb, is_valid_hex, rgb_of_hex, Rgb};
use crate::error::PixestlError;
use crate::palette::color_combi::{total_layers_spec, ColorCombi};
use crate::palette::color_layer::{ColorLayer, LayerModel};
use crate::palette::generator::{create_multi_combi, layers_view};
use crate::palette::store::Palette;
use crate::text::{parse_u32, str_eq};
use vstd::string::StringExecFns;

verus! {

/// One measured layer definition: either direct HSL values (hue in
/// thousandths of a degree, saturation and lightness in thousandths of a
/// percent) or a plain hex code.
#[derive(Debug)]
pub enum LayerDefinition {
    /// Measured HSL values.
    Hsl {
        /// Hue in thousandths of a degree.
        h: u64,
        /// Saturation in thousandths of a percent.
        s: u64,
        /// Lightness in thousandths of a percent.
        l: u64,
    },
    /// The color is taken from a hex string.
    Hexcode {
        /// The `#RRGGBB` color.
        hexcode: String,
    },
}

/// One filament entry of the palette file.
#[derive(Debug)]
pub struct PaletteColorEntry {
    /// Display name of the filament.
    pub name: String,
    /// Whether the filament takes part in palette generation.
    pub active: bool,
    /// Measured layer definitions, keyed by printed-layer count.
    pub layers: Option<Vec<(String, LayerDefinition)>>,
}

/// How pixel colors are realized.
#[derive(Debug, Clone, Copy, PartialEq, Eq, Structural)]
pub enum PixelCreationMethod {
    /// Stacked translucent layers mix additively; white is required.
    Additive,
    /// One filament per pixel at full height.
    Full,
}

/// Configuration of palette loading.
#[derive(Debug, Clone)]
pub struct PaletteLoaderConfig {
    /// Printed layers per pixel and slot group.
    pub nb_layers: u32,
    /// How pixel colors are realized.
    pub creation_method: PixelCreationMethod,
    /// Slot quota; 0 means all filaments in one group.
    pub color_number: usize,
    /// The metric used later by quantization.
    pub distance_method: ColorDistanceMethod,
}

impl Default for PaletteLoaderConfig {
    /// Five layers, additive mixing, a single group, perceptual matching.
    fn default() -> (r: Self)
        ensures
            r.nb_layers == 5,
            r.creation_method == PixelCreationMethod::Additive,
            r.color_number == 0,
            r.distance_method == ColorDistanceMethod::CieLab,
    {
        PaletteLoaderConfig {
            nb_layers: 5,
            creation_method: PixelCreationMethod::Additive,
            color_number: 0,
            distance_method: ColorDistanceMethod::CieLab,
        }
    }
}

/// The HSL value of one measured layer definition: the given values, or
/// the decomposition of the definition's hex color.
pub open spec fn def_hsl_spec(def: &LayerDefinition) -> Hsl {
    match def {
        LayerDefinition::Hsl { h, s, l } => Hsl { h: *h, s: *s, l: *l },
        LayerDefinition::Hexcode { hexcode } => {
            let c = rgb_of_hex(hexcode@);
            Hsl {
                h: crate::color::hsl::hue_of_rgb_spec(c) as u64,
                s: crate::color::hsl::sat_of_rgb_spec(c) as u64,
                l: crate::color::hsl::light_of_rgb_spec(c) as u64,
            }
        },
    }
}

/// Whether one layer definition is acceptable: its key a decimal number
/// within 32 bits, its color an in-range HSL triple or a valid hex code.
pub open spec fn def_wf_spec(key: Seq<char>, def: &LayerDefinition) -> bool {
    &&& key.len() > 0
    &&& crate::text::all_digits_spec(key)
    &&& crate::text::dec_value_spec(key) <= u32::MAX
    &&& match def {
        LayerDefinition::Hsl { h, s, l } => *h <= 360_000 && *s <= 100_000 && *l <= 100_000,
        LayerDefinition::Hexcode { hexcode } => is_valid_hex(hexcode@),
    }
}

/// The layer model one definition of a filament contributes.
pub open spec fn def_layer_spec(
    canonical: Seq<char>,
    key: Seq<char>,
    def: &LayerDefinition,
) -> LayerModel {
    LayerModel {
        hex: canonical,
        count: crate::text::dec_value_spec(key) as nat,
        cmyk: crate::color::hsl::hsl_to_cmyk_spec(def_hsl_spec(def)),
    }
}

/// The layers of one filament's definitions, from index `d` onward.
pub open spec fn entry_defs_layers_spec(
    canonical: Seq<char>,
    defs: Seq<(String, LayerDefinition)>,
    d: int,
) -> Seq<LayerModel>
    decreases defs.len() - d,
{
    if d >= defs.len() || d < 0 {
        Seq::empty()
    } else {
        seq![def_layer_spec(canonical, defs[d].0@, &defs[d].1)] + entry_defs_layers_spec(
            canonical,
            defs,
            d + 1,
        )
    }
}

/// The single full-height layer of a filament in full mode.
pub open spec fn full_layer_spec(hex: Seq<char>, config: &PaletteLoaderConfig) -> LayerModel {
    let c = rgb_of_hex(hex);
    LayerModel {
        hex: hex_of_rgb(c),
        count: config.nb_layers as nat,
        cmyk: crate::color::hsl::hsl_to_cmyk_spec(
            Hsl {
                h: crate::color::hsl::hue_of_rgb_spec(c) as u64,
                s: crate::color::hsl::sat_of_rgb_spec(c) as u64,
                l: crate::color::hsl::light_of_rgb_spec(c) as u64,
            },
        ),
    }
}

/// The raw, unsorted layers of the palette entries from index `i` onward:
/// inactive entries contribute nothing, active ones their definitions (or
/// one full-height layer in full mode), hex codes canonicalized.
pub open spec fn raw_layers_spec(
    entries: Seq<(String, PaletteColorEntry)>,
    config: &PaletteLoaderConfig,
    i: int,
) -> Seq<LayerModel>
    decreases entries.len() - i,
{
    if i >= entries.len() || i < 0 {
        Seq::empty()
    } else {
        let e = entries[i];
        let here: Seq<LayerModel> = if e.1.active {
            match config.creation_method {
                PixelCreationMethod::Additive => match e.1.layers {
                    Some(defs) => entry_defs_layers_spec(
                        hex_of_rgb(rgb_of_hex(e.0@)),
                        defs@,
                        0,
                    ),
                    None => Seq::empty(),
                },
                PixelCreationMethod::Full => seq![full_layer_spec(e.0@, config)],
            }
        } else {
            Seq::empty()
        };
        here + raw_layers_spec(entries, config, i + 1)
    }
}

/// Whether every definition of a list is acceptable.
pub open spec fn defs_wf_spec(defs: Seq<(String, LayerDefinition)>) -> bool {
    forall|d: int| 0 <= d < defs.len() ==> #[trigger] def_wf_spec(defs[d].0@, &defs[d].1)
}

/// Whether one palette entry is acceptable for layer construction: an
/// inactive entry always is; an active one needs a valid hex code and, in
/// additive mode, acceptable definitions throughout.
pub open spec fn entry_wf_spec(e: (String, PaletteColorEntry), config: &PaletteLoaderConfig) -> bool {
    !e.1.active || (is_valid_hex(e.0@) && (config.creation_method == PixelCreationMethod::Additive
        ==> match e.1.layers {
        Some(defs) => defs_wf_spec(defs@),
        None => true,
    }))
}

/// Whether every palette entry is acceptable for layer construction.
pub open spec fn layers_input_wf_spec(
    entries: Seq<(String, PaletteColorEntry)>,
    config: &PaletteLoaderConfig,
) -> bool {
    forall|i: int| 0 <= i < entries.len() ==> #[trigger] entry_wf_spec(entries[i], config)
}

/// The colors of the active, layered entries from index `i` onward.
pub open spec fn active_colors_from_spec(
    entries: Seq<(String, PaletteColorEntry)>,
    i: int,
) -> Seq<Rgb>
    decreases entries.len() - i,
{
    if i >= entries.len() || i < 0 {
        Seq::empty()
    } else {
        (if entries[i].1.active && entries[i].1.layers is Some {
            seq![rgb_of_hex(entries[i].0@)]
        } else {
            Seq::empty()
        }) + active_colors_from_spec(entries, i + 1)
    }
}

/// The canonical hex codes of a color list, in order.
pub open spec fn hexes_of_colors_spec(s: Seq<Rgb>) -> Seq<Seq<char>> {
    s.map_values(|c: Rgb| hex_of_rgb(c))
}

/// The working code list a palette derives from its entries: the active
/// filaments, sorted, canonicalized, with white removed.
pub open spec fn loader_working_spec(entries: Seq<(String, PaletteColorEntry)>) -> Seq<Seq<char>> {
    working_views_spec(hexes_of_colors_spec(sort_colors_spec(active_colors_from_spec(entries, 0))))
}

/// Whether every entry's hex key parses.
pub open spec fn all_hexes_ok_spec(entries: Seq<(String, PaletteColorEntry)>) -> bool {
    forall|i: int| 0 <= i < entries.len() ==> is_valid_hex(#[trigger] entries[i].0@)
}

/// Everything palette loading demands of its input: parseable hex keys,
/// well-formed definitions, white among the active filaments in additive
/// mode, a pipeline that fits the machine, and a non-empty result.
pub open spec fn loader_ok_spec(
    entries: Seq<(String, PaletteColorEntry)>,
    config: &PaletteLoaderConfig,
) -> bool {
    let w = loader_working_spec(entries);
    let lv = sort_layers_spec(raw_layers_spec(entries, config, 0));
    let pool = pool_spec(config, w.len() as int);
    let ng = ngroups_spec(pool, w.len() as int);
    &&& all_hexes_ok_spec(entries)
    &&& layers_input_wf_spec(entries, config)
    &&& (config.creation_method == PixelCreationMethod::Additive
        ==> crate::palette::generator::contains_str_spec(
        hexes_of_colors_spec(sort_colors_spec(active_colors_from_spec(entries, 0))),
        crate::palette::color_combi::white_hex_spec(),
    ))
    &&& pipeline_fits_spec(w, lv, config)
    &&& stored_fold_spec(
        products_spec(w, pool, lv, config.nb_layers as int, ng),
        pool,
        products_spec(w, pool, lv, config.nb_layers as int, ng).len() as int,
    ).len() > 0
}

/// The non-white codes of a list, from index `i` onward, in order.
pub open spec fn working_views_from_spec(hl: Seq<Seq<char>>, i: int) -> Seq<Seq<char>>
    decreases hl.len() - i,
{
    if i >= hl.len() || i < 0 {
        Seq::empty()
    } else {
        (if hl[i] != crate::palette::color_combi::white_hex_spec() {
            seq![hl[i]]
        } else {
            Seq::empty()
        }) + working_views_from_spec(hl, i + 1)
    }
}

/// The non-white codes of a list, in order.
pub open spec fn working_views_spec(hl: Seq<Seq<char>>) -> Seq<Seq<char>> {
    working_views_from_spec(hl, 0)
}

/// The slot quota: one less than the given count in additive mode (white
/// rides along implicitly), else all codes in one group.
pub open spec fn pool_spec(config: &PaletteLoaderConfig, wlen: int) -> int {
    if config.creation_method == PixelCreationMethod::Additive && config.color_number > 1 {
        config.color_number - 1
    } else {
        wlen
    }
}

/// The number of slot groups: the working codes split into quota-sized
/// chunks, at least one group.
pub open spec fn ngroups_spec(pool: int, wlen: int) -> int {
    if pool > 0 && wlen > 0 {
        (wlen - 1) / pool + 1
    } else {
        1
    }
}

/// The member codes of group `g`: its chunk of the working codes, closed
/// by white.
pub open spec fn group_views_spec(w: Seq<Seq<char>>, pool: int, g: int) -> Seq<Seq<char>> {
    let lo = g * pool;
    let hi = if (g + 1) * pool <= w.len() {
        (g + 1) * pool
    } else {
        w.len() as int
    };
    (if 0 <= lo <= hi <= w.len() {
        w.subrange(lo, hi)
    } else {
        Seq::empty()
    }) + seq![crate::palette::color_combi::white_hex_spec()]
}

/// The stacks group `g` contributes: the generator's complete output
/// restricted to the group's codes.
pub open spec fn group_combis_spec(
    w: Seq<Seq<char>>,
    pool: int,
    lv: Seq<LayerModel>,
    nbl: int,
    g: int,
) -> Seq<Seq<LayerModel>> {
    crate::palette::generator::create_multi_combi_spec(
        Some(group_views_spec(w, pool, g)),
        lv,
        nbl,
    )
}

/// The pairwise concatenations of two stack lists, first list outermost.
pub open spec fn cross_views_spec(
    a: Seq<Seq<LayerModel>>,
    b: Seq<Seq<LayerModel>>,
) -> Seq<Seq<LayerModel>> {
    if b.len() == 0 {
        Seq::empty()
    } else {
        Seq::new((a.len() * b.len()) as nat, |n: int| a[n / b.len() as int] + b[n % b.len() as int])
    }
}

/// The progressive cross product of the first `k` groups' stacks.
pub open spec fn products_spec(
    w: Seq<Seq<char>>,
    pool: int,
    lv: Seq<LayerModel>,
    nbl: int,
    k: int,
) -> Seq<Seq<LayerModel>>
    decreases k,
{
    if k <= 1 {
        group_combis_spec(w, pool, lv, nbl, 0)
    } else {
        cross_views_spec(products_spec(w, pool, lv, nbl, k - 1), group_combis_spec(
            w,
            pool,
            lv,
            nbl,
            k - 1,
        ))
    }
}

/// Whether every intermediate cross product up to the `k`-th join fits the
/// machine.
pub open spec fn products_fit_upto_spec(
    w: Seq<Seq<char>>,
    pool: int,
    lv: Seq<LayerModel>,
    nbl: int,
    k: int,
) -> bool
    decreases k,
{
    if k <= 1 {
        true
    } else {
        products_fit_upto_spec(w, pool, lv, nbl, k - 1) && products_spec(
            w,
            pool,
            lv,
            nbl,
            k - 1,
        ).len() * group_combis_spec(w, pool, lv, nbl, k - 1).len() <= usize::MAX
    }
}

/// Whether the whole grouping pipeline fits the machine: every cross
/// product and the total layer budget.
pub open spec fn pipeline_fits_spec(
    w: Seq<Seq<char>>,
    lv: Seq<LayerModel>,
    config: &PaletteLoaderConfig,
) -> bool {
    let pool = pool_spec(config, w.len() as int);
    let ng = ngroups_spec(pool, w.len() as int);
    &&& products_fit_upto_spec(w, pool, lv, config.nb_layers as int, ng)
    &&& config.nb_layers * ng <= 0xFFFF_FFFF
    &&& config.nb_layers * ng <= usize::MAX
}

/// An overflow at one join persists at every later join count.
proof fn lemma_products_fit_mono(
    w: Seq<Seq<char>>,
    pool: int,
    lv: Seq<LayerModel>,
    nbl: int,
    k: int,
    m: int,
)
    requires
        !products_fit_upto_spec(w, pool, lv, nbl, k),
        k <= m,
    ensures
        !products_fit_upto_spec(w, pool, lv, nbl, m),
    decreases m - k,
{
    if k < m {
        lemma_products_fit_mono(w, pool, lv, nbl, k, m - 1);
    }
}

/// One stack as it is stored: factorized, then reordered so that the
/// bottom and top white bracket the colored payload.
pub open spec fn finalize_combi_spec(c: Seq<LayerModel>, pool: int) -> Seq<LayerModel> {
    let f = crate::palette::color_combi::factorize_spec(c);
    crate::palette::color_combi::bottom_white_spec(f, pool)
        + crate::palette::color_combi::middle_colored_spec(f)
        + crate::palette::color_combi::top_white_spec(f, pool)
}

/// The stored association list after inserting the first `i` finalized
/// products, each keyed by its projected color, last write winning.
pub open spec fn stored_fold_spec(
    prods: Seq<Seq<LayerModel>>,
    pool: int,
    i: int,
) -> Seq<(Rgb, Seq<LayerModel>)>
    decreases i,
{
    if i <= 0 {
        Seq::empty()
    } else {
        crate::palette::store::insert_keyed_spec(
            stored_fold_spec(prods, pool, i - 1),
            crate::palette::color_combi::combi_rgb_spec(finalize_combi_spec(prods[i - 1], pool)),
            finalize_combi_spec(prods[i - 1], pool),
        )
    }
}

/// Every stored entry's key is the projection of its own stack: the fold
/// only ever inserts a stack under its projected color.
pub proof fn lemma_stored_keys_are_projections(
    prods: Seq<Seq<LayerModel>>,
    pool: int,
    i: int,
)
    ensures
        forall|n: int|
            0 <= n < stored_fold_spec(prods, pool, i).len()
                ==> (#[trigger] stored_fold_spec(prods, pool, i)[n]).0
                == crate::palette::color_combi::combi_rgb_spec(
                stored_fold_spec(prods, pool, i)[n].1,
            ),
    decreases i,
{
    if i > 0 {
        lemma_stored_keys_are_projections(prods, pool, i - 1);
        let prev = stored_fold_spec(prods, pool, i - 1);
        let v = finalize_combi_spec(prods[i - 1], pool);
        let k = crate::palette::color_combi::combi_rgb_spec(v);
        crate::palette::store::lemma_insert_keyed_membership(prev, k, v);
        assert forall|n: int|
            0 <= n < stored_fold_spec(prods, pool, i).len() implies (#[trigger] stored_fold_spec(
            prods,
            pool,
            i,
        )[n]).0 == crate::palette::color_combi::combi_rgb_spec(
            stored_fold_spec(prods, pool, i)[n].1,
        ) by {
            if stored_fold_spec(prods, pool, i)[n] == (k, v) {
            } else {
                let m = choose|m: int| 0 <= m < prev.len() && stored_fold_spec(prods, pool, i)[n]
                    == prev[m];
            }
        }
    }
}

/// The codes slot `s` carries, walking the groups from `g` onward: the
/// `s`-th member of each chunk that has one.
pub open spec fn slot_views_from_spec(
    w: Seq<Seq<char>>,
    pool: int,
    ng: int,
    s: int,
    g: int,
) -> Seq<Seq<char>>
    decreases ng - g,
{
    if g >= ng || g < 0 {
        Seq::empty()
    } else {
        (if 0 <= g * pool + s < w.len() {
            seq![w[g * pool + s]]
        } else {
            Seq::empty()
        }) + slot_views_from_spec(w, pool, ng, s, g + 1)
    }
}

/// The per-slot code lists: one per quota slot, the trailing slot all
/// white.
pub open spec fn slots_views_spec(w: Seq<Seq<char>>, pool: int) -> Seq<Seq<Seq<char>>> {
    let ng = ngroups_spec(pool, w.len() as int);
    Seq::new((pool + 1) as nat, |s: int|
        if s < pool {
            slot_views_from_spec(w, pool, ng, s, 0)
        } else {
            seq![crate::palette::color_combi::white_hex_spec()]
        })
}

/// The code views of a list of slot lists.
pub open spec fn groups_strs_view(s: Seq<Vec<String>>) -> Seq<Seq<Seq<char>>> {
    s.map_values(|v: Vec<String>| crate::palette::generator::strs_view(v@))
}

/// One cross-product step: every pair of a running product and a stack of
/// the next group, concatenated, first list outermost; each result carries
/// one more group's worth of printed layers.
fn cross_step(
    current: &Vec<ColorCombi>,
    next_group: &Vec<ColorCombi>,
    nb_layers: u32,
    joined: usize,
) -> (r: Vec<ColorCombi>)
    requires
        current@.len() * next_group@.len() <= usize::MAX,
        forall|b: int|
            0 <= b < current@.len() ==> total_layers_spec(#[trigger] current@[b]@) == joined
                * nb_layers,
        forall|b: int|
            0 <= b < next_group@.len() ==> total_layers_spec(#[trigger] next_group@[b]@)
                == nb_layers,
    ensures
        crate::palette::generator::combis_view(r@) == cross_views_spec(
            crate::palette::generator::combis_view(current@),
            crate::palette::generator::combis_view(next_group@),
        ),
        forall|b: int|
            0 <= b < r@.len() ==> total_layers_spec(#[trigger] r@[b]@) == (joined + 1)
                * nb_layers,
{
    let out = crate::palette::generator::combine_combi_groups(
        current.as_slice(),
        next_group.as_slice(),
    );
    proof {
        let av = crate::palette::generator::combis_view(current@);
        let bv = crate::palette::generator::combis_view(next_group@);
        let l2 = next_group@.len() as int;
        if l2 == 0 {
            assert(out@.len() == 0) by (nonlinear_arith)
                requires
                    out@.len() == current@.len() * next_group@.len(),
                    next_group@.len() == 0,
            ;
            assert(crate::palette::generator::combis_view(out@) =~= cross_views_spec(av, bv));
        } else {
            assert forall|n: int| 0 <= n < out@.len() implies #[trigger] crate::palette::generator::combis_view(
                out@,
            )[n] == av[n / l2] + bv[n % l2] by {
                vstd::arithmetic::div_mod::lemma_fundamental_div_mod(n, l2);
                vstd::arithmetic::div_mod::lemma_mod_division_less_than_divisor(n, l2);
                vstd::arithmetic::div_mod::lemma_div_pos_is_pos(n, l2);
                let i = n / l2;
                let j = n % l2;
                assert(i < current@.len()) by (nonlinear_arith)
                    requires
                        n == l2 * i + j,
                        0 <= j < l2,
                        n < current@.len() * l2,
                        l2 > 0,
                        i >= 0,
                ;
                assert(out@[i * l2 + j]@ =~= current@[i]@ + next_group@[j]@);
                assert(n == i * l2 + j) by (nonlinear_arith)
                    requires
                        n == l2 * i + j,
                ;
            }
            assert(crate::palette::generator::combis_view(out@) =~= cross_views_spec(av, bv));
        }
        assert forall|b: int| 0 <= b < out@.len() implies total_layers_spec(
            #[trigger] out@[b]@,
        ) == (joined + 1) * nb_layers by {
            if l2 > 0 {
                vstd::arithmetic::div_mod::lemma_fundamental_div_mod(b, l2);
                vstd::arithmetic::div_mod::lemma_mod_division_less_than_divisor(b, l2);
                vstd::arithmetic::div_mod::lemma_div_pos_is_pos(b, l2);
                let i = b / l2;
                let j = b % l2;
                assert(i < current@.len()) by (nonlinear_arith)
                    requires
                        b == l2 * i + j,
                        0 <= j < l2,
                        b < current@.len() * l2,
                        l2 > 0,
                        i >= 0,
                ;
                assert(b == i * l2 + j) by (nonlinear_arith)
                    requires
                        b == l2 * i + j,
                ;
                assert(out@[i * l2 + j]@ =~= current@[i]@ + next_group@[j]@);
                crate::palette::color_combi::lemma_total_concat(
                    current@[i]@,
                    next_group@[j]@,
                );
                assert((joined + 1) * nb_layers == joined * nb_layers + nb_layers)
                    by (nonlinear_arith);
            } else {
                assert(out@.len() == 0) by (nonlinear_arith)
                    requires
                        out@.len() == current@.len() * next_group@.len(),
                        next_group@.len() == 0,
                ;
            }
        }
    }
    out
}

/// A single unacceptable definition of an active entry refutes the whole
/// input.
proof fn lemma_bad_def(
    entries: Seq<(String, PaletteColorEntry)>,
    config: &PaletteLoaderConfig,
    i: int,
    defs: Seq<(String, LayerDefinition)>,
    j: int,
)
    requires
        0 <= i < entries.len(),
        0 <= j < defs.len(),
        entries[i].1.active,
        config.creation_method == PixelCreationMethod::Additive,
        entries[i].1.layers is Some,
        entries[i].1.layers.unwrap()@ == defs,
        !def_wf_spec(defs[j].0@, &defs[j].1),
    ensures
        !layers_input_wf_spec(entries, config),
{
    if layers_input_wf_spec(entries, config) {
        assert(entry_wf_spec(entries[i], config));
        assert(defs_wf_spec(defs));
        assert(def_wf_spec(defs[j].0@, &defs[j].1));
        assert(false);
    }
}

/// Builds palettes from plain filament entries.
pub struct PaletteLoader;

/// Whether a string list holds a given string.
fn contains_string(list: &Vec<String>, s: &str) -> (r: bool)
    ensures
        r == exists|i: int| 0 <= i < list@.len() && #[trigger] list@[i]@ == s@,
{
    let mut i: usize = 0;
    while i < list.len()
        invariant
            i <= list@.len(),
            forall|j: int| 0 <= j < i ==> #[trigger] list@[j]@ != s@,
        decreases list@.len() - i,
    {
        if str_eq(list[i].as_str(), s) {
            proof {
                assert(list@[i as int]@ == s@);
            }
            return true;
        }
        i = i + 1;
    }
    false
}

impl PaletteLoader {
    /// Builds a fully initialized palette from filament entries. Succeeds
    /// exactly when every hex key parses, every active entry's definitions
    /// are well formed, white is present among the active filaments in
    /// additive mode, the grouping pipeline fits the machine, and the
    /// generated combination set is non-empty; the stored stacks are then
    /// exactly the keyed-insertion fold of the finalized cross products,
    /// and the name map and slot lists are pinned entry for entry.
    pub fn load_from_entries(
        entries: &Vec<(String, PaletteColorEntry)>,
        config: &PaletteLoaderConfig,
    ) -> (r: Result<Palette, PixestlError>)
        ensures
            ({
                let w = loader_working_spec(entries@);
                let lv = sort_layers_spec(raw_layers_spec(entries@, config, 0));
                let pool = pool_spec(config, w.len() as int);
                let ng = ngroups_spec(pool, w.len() as int);
                let stored = stored_fold_spec(
                    products_spec(w, pool, lv, config.nb_layers as int, ng),
                    pool,
                    products_spec(w, pool, lv, config.nb_layers as int, ng).len() as int,
                );
                match r {
                    Ok(p) => {
                        &&& loader_ok_spec(entries@, config)
                        &&& p.nb_layers == config.nb_layers
                        &&& p.nb_groups == ng
                        &&& p.layer_count == p.nb_layers * p.nb_groups
                        &&& crate::palette::store::qview(p.quantized_colors@) == stored
                        &&& p.quantized_colors@.len() > 0
                        &&& groups_strs_view(p.hex_color_group_list@) == slots_views_spec(
                            w,
                            pool,
                        )
                        &&& p.hex_codes_map@.len() == entries@.len()
                        &&& forall|i: int|
                            0 <= i < entries@.len() ==> (#[trigger] p.hex_codes_map@[i].0@
                                == hex_of_rgb(rgb_of_hex(entries@[i].0@))
                                && p.hex_codes_map@[i].1@ == entries@[i].1.name@)
                        &&& forall|i: int|
                            0 <= i < p.quantized_colors@.len() ==> total_layers_spec(
                                #[trigger] p.quantized_colors@[i].1@,
                            ) == p.layer_count
                        &&& forall|i: int|
                            0 <= i < p.quantized_colors@.len()
                                ==> (#[trigger] p.quantized_colors@[i]).0
                                == crate::palette::color_combi::combi_rgb_spec(
                                p.quantized_colors@[i].1@,
                            )
                    },
                    Err(e) => !loader_ok_spec(entries@, config) && (e is InvalidHexCode
                        || e is InvalidPalette),
                }
            }),
    {
        let mut palette = Palette::new(config.nb_layers);

        // Canonicalize every hex key and build the display-name map.
        let mut hex_codes_map: Vec<(String, String)> = Vec::new();
        let mut i: usize = 0;
        while i < entries.len()
            invariant
                i <= entries@.len(),
                hex_codes_map@.len() == i,
                forall|a: int| 0 <= a < i ==> is_valid_hex(#[trigger] entries@[a].0@),
                forall|a: int|
                    0 <= a < i ==> (#[trigger] hex_codes_map@[a].0@ == hex_of_rgb(
                        rgb_of_hex(entries@[a].0@),
                    ) && hex_codes_map@[a].1@ == entries@[a].1.name@),
            decreases entries@.len() - i,
        {
            let entry = &entries[i];
            let rgb = match Rgb::from_hex(entry.0.as_str()) {
                Ok(c) => c,
                Err(e) => {
                    proof {
                        assert(!loader_ok_spec(entries@, config)) by {
                            if loader_ok_spec(entries@, config) {
                                assert(is_valid_hex(entries@[i as int].0@));
                            }
                        }
                    }
                    return Err(e);
                },
            };
            hex_codes_map.push((rgb.to_hex(), entry.1.name.clone()));
            i = i + 1;
        }
        palette.set_hex_codes(hex_codes_map);

        // Collect the active filaments and sort them by channel key, which
        // for canonical hex codes is their lexicographic order.
        let mut active: Vec<Rgb> = Vec::new();
        let mut i: usize = 0;
        while i < entries.len()
            invariant
                i <= entries@.len(),
                forall|a: int|
                    0 <= a < entries@.len() ==> is_valid_hex(#[trigger] entries@[a].0@),
                active_colors_from_spec(entries@, 0) == active@ + active_colors_from_spec(
                    entries@,
                    i as int,
                ),
            decreases entries@.len() - i,
        {
            let entry = &entries[i];
            let ghost pre = active@;
            if entry.1.active && entry.1.layers.is_some() {
                let rgb = match Rgb::from_hex(entry.0.as_str()) {
                    Ok(c) => c,
                    Err(e) => {
                        proof {
                            assert(is_valid_hex(entries@[i as int].0@));
                            assert(false);
                        }
                        return Err(e);
                    },
                };
                active.push(rgb);
                proof {
                    assert(active@ =~= pre + seq![rgb_of_hex(entries@[i as int].0@)]);
                }
            } else {
                proof {
                    assert(active@ =~= pre + Seq::<Rgb>::empty());
                }
            }
            i = i + 1;
        }
        proof {
            assert(active_colors_from_spec(entries@, entries@.len() as int) =~= Seq::<
                Rgb,
            >::empty());
            assert(active@ + Seq::<Rgb>::empty() =~= active@);
        }
        let active = sort_colors(active);
        let mut hex_color_list: Vec<String> = Vec::new();
        let mut i: usize = 0;
        while i < active.len()
            invariant
                i <= active@.len(),
                active@ == sort_colors_spec(active_colors_from_spec(entries@, 0)),
                hex_color_list@.len() == i,
                forall|a: int|
                    0 <= a < i ==> #[trigger] hex_color_list@[a]@ == hex_of_rgb(active@[a]),
            decreases active@.len() - i,
        {
            hex_color_list.push(active[i].to_hex());
            i = i + 1;
        }
        proof {
            assert(crate::palette::generator::strs_view(hex_color_list@)
                =~= hexes_of_colors_spec(active@));
        }

        // Additive mixing needs the neutral white contributor.
        let has_white = contains_string(&hex_color_list, "#FFFFFF");
        proof {
            reveal_strlit("#FFFFFF");
            assert("#FFFFFF"@ =~= crate::palette::color_combi::white_hex_spec());
            if has_white {
                let wi = choose|wi: int|
                    0 <= wi < hex_color_list@.len() && hex_color_list@[wi]@ == "#FFFFFF"@;
                assert(crate::palette::generator::strs_view(hex_color_list@)[wi]
                    == hex_color_list@[wi]@);
                assert(crate::palette::generator::contains_str_spec(
                    hexes_of_colors_spec(active@),
                    crate::palette::color_combi::white_hex_spec(),
                ));
            } else {
                assert(!crate::palette::generator::contains_str_spec(
                    hexes_of_colors_spec(active@),
                    crate::palette::color_combi::white_hex_spec(),
                )) by {
                    if crate::palette::generator::contains_str_spec(
                        hexes_of_colors_spec(active@),
                        crate::palette::color_combi::white_hex_spec(),
                    ) {
                        let wi = choose|wi: int|
                            0 <= wi < hexes_of_colors_spec(active@).len()
                                && hexes_of_colors_spec(active@)[wi]
                                == crate::palette::color_combi::white_hex_spec();
                        assert(hex_color_list@[wi]@ == crate::palette::generator::strs_view(
                            hex_color_list@,
                        )[wi]);
                        assert(false);
                    }
                }
            }
        }
        if config.creation_method == PixelCreationMethod::Additive && !has_white {
            proof {
                assert(!loader_ok_spec(entries@, config));
            }
            return Err(
                PixestlError::InvalidPalette(
                    String::from_str(
                        "\"#FFFFFF\" not found in the palette. The code \"#FFFFFF\" is mandatory in additive mode.",
                    ),
                ),
            );
        }

        let color_layers = match Self::create_color_layers(entries, config) {
            Ok(l) => l,
            Err(e) => {
                proof {
                    assert(!loader_ok_spec(entries@, config)) by {
                        if loader_ok_spec(entries@, config) {
                            assert(layers_input_wf_spec(entries@, config));
                        }
                    }
                }
                return Err(e);
            },
        };

        match Self::compute_colors_by_group(&mut palette, &color_layers, &hex_color_list, config) {
            Ok(_) => {},
            Err(e) => {
                proof {
                    assert(working_views_spec(crate::palette::generator::strs_view(
                        hex_color_list@,
                    )) == loader_working_spec(entries@));
                    assert(!loader_ok_spec(entries@, config)) by {
                        if loader_ok_spec(entries@, config) {
                            assert(pipeline_fits_spec(
                                loader_working_spec(entries@),
                                sort_layers_spec(raw_layers_spec(entries@, config, 0)),
                                config,
                            ));
                        }
                    }
                }
                return Err(e);
            },
        }

        proof {
            assert(working_views_spec(crate::palette::generator::strs_view(hex_color_list@))
                == loader_working_spec(entries@));
            assert(crate::palette::store::qview(palette.quantized_colors@).len()
                == palette.quantized_colors@.len());
        }
        if palette.color_count() == 0 {
            proof {
                assert(!loader_ok_spec(entries@, config));
            }
            return Err(
                PixestlError::InvalidPalette(
                    String::from_str("the generated combination set is empty"),
                ),
            );
        }
        proof {
            assert(loader_ok_spec(entries@, config));
            let ghost w2 = loader_working_spec(entries@);
            let ghost lv2 = sort_layers_spec(raw_layers_spec(entries@, config, 0));
            let ghost pool2 = pool_spec(config, w2.len() as int);
            let ghost ng2 = ngroups_spec(pool2, w2.len() as int);
            let ghost prods2 = products_spec(w2, pool2, lv2, config.nb_layers as int, ng2);
            lemma_stored_keys_are_projections(prods2, pool2, prods2.len() as int);
            assert forall|i: int|
                0 <= i < palette.quantized_colors@.len()
                    implies (#[trigger] palette.quantized_colors@[i]).0
                == crate::palette::color_combi::combi_rgb_spec(
                palette.quantized_colors@[i].1@,
            ) by {
                assert(crate::palette::store::qview(palette.quantized_colors@)[i]
                    == (palette.quantized_colors@[i].0, palette.quantized_colors@[i].1@));
            }
        }
        Ok(palette)
    }

    /// Builds the color layers of the active filaments: one per measured
    /// layer definition in additive mode, one full-height layer per
    /// filament otherwise, hex codes canonicalized, counts parsed from the
    /// definition keys, ink fractions converted once, sorted darkest
    /// first. Succeeds exactly when every active entry is well formed.
    pub fn create_color_layers(
        entries: &Vec<(String, PaletteColorEntry)>,
        config: &PaletteLoaderConfig,
    ) -> (r: Result<Vec<ColorLayer>, PixestlError>)
        ensures
            match r {
                Ok(l) => layers_input_wf_spec(entries@, config) && layers_view(l@)
                    == sort_layers_spec(raw_layers_spec(entries@, config, 0)),
                Err(e) => !layers_input_wf_spec(entries@, config) && (e is InvalidHexCode
                    || e is InvalidPalette),
            },
    {
        let mut color_layers: Vec<ColorLayer> = Vec::new();
        let mut i: usize = 0;
        while i < entries.len()
            invariant
                i <= entries@.len(),
                raw_layers_spec(entries@, config, 0) == layers_view(color_layers@)
                    + raw_layers_spec(entries@, config, i as int),
                forall|a: int| 0 <= a < i ==> #[trigger] entry_wf_spec(entries@[a], config),
            decreases entries@.len() - i,
        {
            let entry = &entries[i];
            let ghost pre = layers_view(color_layers@);
            if entry.1.active {
                let rgb = match Rgb::from_hex(entry.0.as_str()) {
                    Ok(c) => c,
                    Err(e) => {
                        proof {
                            assert(!entry_wf_spec(entries@[i as int], config));
                            assert(!layers_input_wf_spec(entries@, config)) by {
                                if layers_input_wf_spec(entries@, config) {
                                    assert(entry_wf_spec(entries@[i as int], config));
                                }
                            }
                        }
                        return Err(e);
                    },
                };
                let canonical = rgb.to_hex();
                match config.creation_method {
                    PixelCreationMethod::Additive => {
                        match &entry.1.layers {
                            Some(layers) => {
                                let mut j: usize = 0;
                                while j < layers.len()
                                    invariant
                                        j <= layers@.len(),
                                        entry == &entries@[i as int],
                                        entry.1.layers == Some(*layers),
                                        entry.1.active,
                                        i < entries@.len(),
                                        config.creation_method
                                            == PixelCreationMethod::Additive,
                                        is_valid_hex(entries@[i as int].0@),
                                        rgb == rgb_of_hex(entries@[i as int].0@),
                                        entry_defs_layers_spec(hex_of_rgb(rgb), layers@, 0)
                                            == layers_view(color_layers@).skip(
                                            pre.len() as int,
                                        ) + entry_defs_layers_spec(
                                            hex_of_rgb(rgb),
                                            layers@,
                                            j as int,
                                        ),
                                        layers_view(color_layers@).take(pre.len() as int)
                                            == pre,
                                        color_layers@.len() >= pre.len(),
                                        forall|d: int|
                                            0 <= d < j ==> #[trigger] def_wf_spec(
                                                layers@[d].0@,
                                                &layers@[d].1,
                                            ),
                                    decreases layers@.len() - j,
                                {
                                    let def = &layers[j];
                                    let layer_num = match crate::text::parse_u32(def.0.as_str()) {
                                        Some(v) => v,
                                        None => {
                                            proof {
                                                lemma_bad_def(
                                                    entries@,
                                                    config,
                                                    i as int,
                                                    layers@,
                                                    j as int,
                                                );
                                            }
                                            let mut msg = String::from_str(
                                                "invalid layer number: ",
                                            );
                                            msg.append(def.0.as_str());
                                            return Err(PixestlError::InvalidPalette(msg));
                                        },
                                    };
                                    let (h, s, l) = match &def.1 {
                                        LayerDefinition::Hsl { h, s, l } => {
                                            if *h > 360_000 || *s > 100_000 || *l > 100_000 {
                                                proof {
                                                    lemma_bad_def(
                                                        entries@,
                                                        config,
                                                        i as int,
                                                        layers@,
                                                        j as int,
                                                    );
                                                }
                                                return Err(
                                                    PixestlError::InvalidPalette(
                                                        String::from_str(
                                                            "HSL layer definition out of range",
                                                        ),
                                                    ),
                                                );
                                            }
                                            (*h, *s, *l)
                                        },
                                        LayerDefinition::Hexcode { hexcode } => {
                                            let c = match Rgb::from_hex(hexcode.as_str()) {
                                                Ok(c) => c,
                                                Err(e) => {
                                                    proof {
                                                        lemma_bad_def(
                                                            entries@,
                                                            config,
                                                            i as int,
                                                            layers@,
                                                            j as int,
                                                        );
                                                    }
                                                    return Err(e);
                                                },
                                            };
                                            let hsl = hsl_of_rgb(c);
                                            (hsl.h, hsl.s, hsl.l)
                                        },
                                    };
                                    color_layers.push(
                                        ColorLayer::new(rgb.to_hex(), layer_num, h, s, l),
                                    );
                                    proof {
                                        assert(def_wf_spec(
                                            layers@[j as int].0@,
                                            &layers@[j as int].1,
                                        ));
                                        assert(layers_view(color_layers@).skip(pre.len() as int)
                                            =~= layers_view(color_layers@).skip(
                                            pre.len() as int,
                                        ).take(
                                            layers_view(color_layers@).skip(
                                                pre.len() as int,
                                            ).len() - 1,
                                        ).push(def_layer_spec(
                                            hex_of_rgb(rgb),
                                            layers@[j as int].0@,
                                            &layers@[j as int].1,
                                        )));
                                        assert(entry_defs_layers_spec(
                                            hex_of_rgb(rgb),
                                            layers@,
                                            j as int,
                                        ) == seq![def_layer_spec(
                                            hex_of_rgb(rgb),
                                            layers@[j as int].0@,
                                            &layers@[j as int].1,
                                        )] + entry_defs_layers_spec(
                                            hex_of_rgb(rgb),
                                            layers@,
                                            j + 1,
                                        ));
                                        assert(layers_view(color_layers@).take(pre.len() as int)
                                            =~= pre);
                                    }
                                    j = j + 1;
                                }
                                proof {
                                    assert(entry_defs_layers_spec(
                                        hex_of_rgb(rgb),
                                        layers@,
                                        layers@.len() as int,
                                    ) =~= Seq::<LayerModel>::empty());
                                    assert(layers_view(color_layers@) =~= pre + layers_view(
                                        color_layers@,
                                    ).skip(pre.len() as int));
                                    assert(entry_wf_spec(entries@[i as int], config));
                                }
                            },
                            None => {
                                proof {
                                    assert(entry_wf_spec(entries@[i as int], config));
                                    assert(layers_view(color_layers@) =~= pre
                                        + Seq::<LayerModel>::empty());
                                }
                            },
                        }
                    },
                    PixelCreationMethod::Full => {
                        let hsl = hsl_of_rgb(rgb);
                        color_layers.push(
                            ColorLayer::new(canonical, config.nb_layers, hsl.h, hsl.s, hsl.l),
                        );
                        proof {
                            assert(entry_wf_spec(entries@[i as int], config));
                            assert(layers_view(color_layers@) =~= pre + seq![full_layer_spec(
                                entries@[i as int].0@,
                                config,
                            )]);
                        }
                    },
                }
            } else {
                proof {
                    assert(entry_wf_spec(entries@[i as int], config));
                    assert(layers_view(color_layers@) =~= pre + Seq::<LayerModel>::empty());
                }
            }
            i = i + 1;
        }
        proof {
            assert(raw_layers_spec(entries@, config, entries@.len() as int)
                =~= Seq::<LayerModel>::empty());
            assert(layers_view(color_layers@) + Seq::<LayerModel>::empty() =~= layers_view(
                color_layers@,
            ));
            assert(layers_input_wf_spec(entries@, config));
        }
        Ok(sort_layers_by_k(color_layers))
    }

    /// Groups the non-white codes into quota-sized chunks (each closed by
    /// white), generates the per-group stacks, crosses the groups
    /// progressively, factorizes and white-reorders every product, and
    /// stores each under its projected color: the stored list is exactly
    /// the keyed-insertion fold of the finalized products, and the slot
    /// lists are exactly the transposed chunks plus the white slot.
    /// Refused only when a cross product or the layer budget outgrows the
    /// machine.
    fn compute_colors_by_group(
        palette: &mut Palette,
        color_layers: &Vec<ColorLayer>,
        hex_color_list: &Vec<String>,
        config: &PaletteLoaderConfig,
    ) -> (r: Result<(), PixestlError>)
        requires
            old(palette).nb_layers == config.nb_layers,
            old(palette).quantized_colors@.len() == 0,
        ensures
            ({
                let w = working_views_spec(crate::palette::generator::strs_view(
                    hex_color_list@,
                ));
                let lv = layers_view(color_layers@);
                let pool = pool_spec(config, w.len() as int);
                let ng = ngroups_spec(pool, w.len() as int);
                match r {
                    Ok(_) => {
                        &&& pipeline_fits_spec(w, lv, config)
                        &&& final(palette).nb_layers == config.nb_layers
                        &&& final(palette).nb_groups == ng
                        &&& final(palette).layer_count == final(palette).nb_layers
                            * final(palette).nb_groups
                        &&& crate::palette::store::qview(final(palette).quantized_colors@)
                            == stored_fold_spec(
                            products_spec(w, pool, lv, config.nb_layers as int, ng),
                            pool,
                            products_spec(w, pool, lv, config.nb_layers as int, ng).len() as int,
                        )
                        &&& groups_strs_view(final(palette).hex_color_group_list@)
                            == slots_views_spec(w, pool)
                        &&& final(palette).hex_codes_map == old(palette).hex_codes_map
                        &&& forall|i: int|
                            0 <= i < final(palette).quantized_colors@.len()
                                ==> total_layers_spec(
                                #[trigger] final(palette).quantized_colors@[i].1@,
                            ) == final(palette).layer_count
                    },
                    Err(e) => !pipeline_fits_spec(w, lv, config) && e is InvalidPalette,
                }
            }),
    {
        let ghost hlv = crate::palette::generator::strs_view(hex_color_list@);
        // The white code takes no slot; it joins every group.
        let mut working: Vec<String> = Vec::new();
        let mut i: usize = 0;
        while i < hex_color_list.len()
            invariant
                i <= hex_color_list@.len(),
                hlv == crate::palette::generator::strs_view(hex_color_list@),
                working_views_spec(hlv) == crate::palette::generator::strs_view(working@)
                    + working_views_from_spec(hlv, i as int),
            decreases hex_color_list@.len() - i,
        {
            let ghost pre = crate::palette::generator::strs_view(working@);
            proof {
                reveal_strlit("#FFFFFF");
                assert("#FFFFFF"@ =~= crate::palette::color_combi::white_hex_spec());
                assert(hlv[i as int] == hex_color_list@[i as int]@);
            }
            if !str_eq(hex_color_list[i].as_str(), "#FFFFFF") {
                working.push(hex_color_list[i].clone());
                proof {
                    assert(crate::palette::generator::strs_view(working@) =~= pre + seq![
                        hlv[i as int],
                    ]);
                }
            } else {
                proof {
                    assert(crate::palette::generator::strs_view(working@) =~= pre
                        + Seq::<Seq<char>>::empty());
                }
            }
            i = i + 1;
        }
        proof {
            assert(working_views_from_spec(hlv, hex_color_list@.len() as int)
                =~= Seq::<Seq<char>>::empty());
            assert(crate::palette::generator::strs_view(working@) + Seq::<Seq<char>>::empty()
                =~= crate::palette::generator::strs_view(working@));
        }
        let ghost w = working_views_spec(hlv);
        proof {
            assert(w == crate::palette::generator::strs_view(working@));
            assert(w.len() == working@.len());
        }

        // Slot quota: one slot is implicitly reserved for white when a
        // count is given; a quota of zero or one means a single group.
        let nb_color_pool: usize = if config.creation_method == PixelCreationMethod::Additive
            && config.color_number > 1 {
            config.color_number - 1
        } else {
            working.len()
        };
        let nb_groups: usize = if nb_color_pool > 0 && working.len() > 0 {
            let wl: u64 = working.len() as u64;
            let pool64: u64 = nb_color_pool as u64;
            proof {
                vstd::arithmetic::div_mod::lemma_div_nonincreasing((wl - 1) as int, pool64 as int);
                vstd::arithmetic::div_mod::lemma_div_pos_is_pos((wl - 1) as int, pool64 as int);
            }
            ((wl - 1) / pool64 + 1) as usize
        } else {
            1
        };
        proof {
            assert(nb_color_pool == pool_spec(config, w.len() as int));
            assert(nb_groups == ngroups_spec(
                pool_spec(config, w.len() as int),
                w.len() as int,
            ));
        }
        let ghost pool = nb_color_pool as int;
        let ghost ng = nb_groups as int;
        let ghost lv = layers_view(color_layers@);
        let ghost nbl = config.nb_layers as int;

        // Sequential chunks of the working codes, white appended last.
        let mut hex_color_groups: Vec<Vec<String>> = Vec::new();
        let mut g: usize = 0;
        while g < nb_groups
            invariant
                g <= nb_groups,
                pool == nb_color_pool as int,
                ng == nb_groups as int,
                w == crate::palette::generator::strs_view(working@),
                hex_color_groups@.len() == g,
                forall|a: int|
                    0 <= a < g ==> #[trigger] crate::palette::generator::strs_view(
                        hex_color_groups@[a]@,
                    ) == group_views_spec(w, pool, a),
            decreases nb_groups - g,
        {
            let mut group: Vec<String> = Vec::new();
            let ghost glo = (g as int) * pool;
            proof {
                assert(glo >= 0) by (nonlinear_arith)
                    requires
                        g >= 0,
                        pool >= 0,
                        glo == (g as int) * pool,
                ;
                crate::image::lemma_grid_extent_fits(g as int, pool);
            }
            let lo128: u128 = (g as u128) * (nb_color_pool as u128);
            let mut idx: usize = if lo128 > usize::MAX as u128 {
                working.len()
            } else if (lo128 as usize) > working.len() {
                working.len()
            } else {
                lo128 as usize
            };
            proof {
                assert(idx as int == if glo <= working@.len() {
                    glo
                } else {
                    working@.len() as int
                });
            }
            let ghost lo = idx as int;
            let hi: usize = if lo128 > usize::MAX as u128 || nb_color_pool > working.len()
                || (lo128 as usize) > working.len() - nb_color_pool {
                working.len()
            } else {
                (lo128 as usize) + nb_color_pool
            };
            proof {
                assert((g as int + 1) * pool == glo + pool) by (nonlinear_arith)
                    requires
                        glo == (g as int) * pool,
                ;
                assert(hi as int == if glo + pool <= working@.len() {
                    glo + pool
                } else {
                    working@.len() as int
                });
            }
            while idx < hi
                invariant
                    0 <= lo <= idx as int <= hi,
                    hi <= working@.len(),
                    w == crate::palette::generator::strs_view(working@),
                    crate::palette::generator::strs_view(group@) =~= w.subrange(
                        lo,
                        idx as int,
                    ),
                decreases hi - idx,
            {
                let ghost pre = crate::palette::generator::strs_view(group@);
                group.push(working[idx].clone());
                proof {
                    assert(w[idx as int] == working@[idx as int]@);
                    assert(crate::palette::generator::strs_view(group@) =~= pre + seq![
                        w[idx as int],
                    ]);
                    assert(pre =~= w.subrange(lo, idx as int));
                    assert(pre + seq![w[idx as int]] =~= w.subrange(lo, idx + 1));
                }
                idx = idx + 1;
            }
            proof {
                reveal_strlit("#FFFFFF");
            }
            group.push(String::from_str("#FFFFFF"));
            proof {
                assert("#FFFFFF"@ =~= crate::palette::color_combi::white_hex_spec());
                if glo <= working@.len() {
                    if glo + pool <= working@.len() {
                        assert(crate::palette::generator::strs_view(group@) =~= w.subrange(
                            glo,
                            glo + pool,
                        ) + seq![crate::palette::color_combi::white_hex_spec()]);
                    } else {
                        assert(crate::palette::generator::strs_view(group@) =~= w.subrange(
                            glo,
                            w.len() as int,
                        ) + seq![crate::palette::color_combi::white_hex_spec()]);
                    }
                } else {
                    assert(lo == working@.len() && hi as int == working@.len());
                    assert(crate::palette::generator::strs_view(group@) =~= Seq::<
                        Seq<char>,
                    >::empty() + seq![crate::palette::color_combi::white_hex_spec()]);
                }
                assert(crate::palette::generator::strs_view(group@) =~= group_views_spec(
                    w,
                    pool,
                    g as int,
                ));
            }
            hex_color_groups.push(group);
            g = g + 1;
        }

        // Per-group stacks, each summing exactly to the per-group budget.
        let mut combi_groups: Vec<Vec<ColorCombi>> = Vec::new();
        let mut g: usize = 0;
        while g < nb_groups
            invariant
                g <= nb_groups,
                pool == nb_color_pool as int,
                ng == nb_groups as int,
                lv == layers_view(color_layers@),
                nbl == config.nb_layers as int,
                hex_color_groups@.len() == nb_groups,
                forall|a: int|
                    0 <= a < nb_groups ==> #[trigger] crate::palette::generator::strs_view(
                        hex_color_groups@[a]@,
                    ) == group_views_spec(w, pool, a),
                combi_groups@.len() == g,
                forall|a: int|
                    0 <= a < g ==> #[trigger] crate::palette::generator::combis_view(
                        combi_groups@[a]@,
                    ) == group_combis_spec(w, pool, lv, nbl, a),
                forall|a: int, b: int|
                    0 <= a < g && 0 <= b < combi_groups@[a]@.len() ==> total_layers_spec(
                        #[trigger] combi_groups@[a]@[b]@,
                    ) == config.nb_layers,
            decreases nb_groups - g,
        {
            let combis = create_multi_combi(
                Some(&hex_color_groups[g]),
                color_layers.as_slice(),
                config.nb_layers,
            );
            combi_groups.push(combis);
            g = g + 1;
        }

        // Progressive cross product: after joining group k, every stack
        // carries (k + 1) * nb_layers printed layers.
        let mut current: Vec<ColorCombi> = duplicate_combis(&combi_groups[0]);
        proof {
            assert forall|n: int| 0 <= n < current@.len() implies #[trigger] crate::palette::generator::combis_view(
                current@,
            )[n] == crate::palette::generator::combis_view(combi_groups@[0]@)[n] by {
                assert(current@[n]@ == combi_groups@[0]@[n]@);
            }
            assert(crate::palette::generator::combis_view(current@)
                =~= crate::palette::generator::combis_view(combi_groups@[0]@));
            assert(crate::palette::generator::combis_view(current@) =~= products_spec(
                w,
                pool,
                lv,
                nbl,
                1,
            ));
        }
        let mut joined: usize = 1;
        while joined < combi_groups.len()
            invariant
                1 <= joined <= combi_groups@.len(),
                combi_groups@.len() == nb_groups,
                pool == nb_color_pool as int,
                ng == nb_groups as int,
                pool == pool_spec(config, w.len() as int),
                ng == ngroups_spec(pool, w.len() as int),
                w == working_views_spec(crate::palette::generator::strs_view(hex_color_list@)),
                lv == layers_view(color_layers@),
                nbl == config.nb_layers as int,
                forall|a: int|
                    0 <= a < nb_groups ==> #[trigger] crate::palette::generator::combis_view(
                        combi_groups@[a]@,
                    ) == group_combis_spec(w, pool, lv, nbl, a),
                forall|a: int, b: int|
                    0 <= a < nb_groups && 0 <= b < combi_groups@[a]@.len() ==> total_layers_spec(
                        #[trigger] combi_groups@[a]@[b]@,
                    ) == config.nb_layers,
                crate::palette::generator::combis_view(current@) == products_spec(
                    w,
                    pool,
                    lv,
                    nbl,
                    joined as int,
                ),
                forall|b: int|
                    0 <= b < current@.len() ==> total_layers_spec(#[trigger] current@[b]@)
                        == joined * config.nb_layers,
                products_fit_upto_spec(w, pool, lv, nbl, joined as int),
            decreases combi_groups@.len() - joined,
        {
            let a_len: usize = current.len();
            let b_len: usize = combi_groups[joined].len();
            proof {
                crate::image::lemma_grid_extent_fits(a_len as int, b_len as int);
            }
            let size128: u128 = (a_len as u128) * (b_len as u128);
            proof {
                assert(crate::palette::generator::combis_view(current@).len()
                    == current@.len());
                assert(crate::palette::generator::combis_view(
                    combi_groups@[joined as int]@,
                ).len() == combi_groups@[joined as int]@.len());
                assert(products_spec(w, pool, lv, nbl, joined as int).len() == current@.len());
                assert(group_combis_spec(w, pool, lv, nbl, joined as int).len()
                    == combi_groups@[joined as int]@.len());
            }
            if size128 > usize::MAX as u128 {
                proof {
                    assert(products_spec(w, pool, lv, nbl, joined as int).len()
                        * group_combis_spec(w, pool, lv, nbl, joined as int).len()
                        > usize::MAX);
                    assert(!products_fit_upto_spec(w, pool, lv, nbl, joined + 1));
                    lemma_products_fit_mono(w, pool, lv, nbl, joined + 1, ng);
                }
                return Err(
                    PixestlError::InvalidPalette(
                        String::from_str("the cross product does not fit the machine"),
                    ),
                );
            }
            let next = cross_step(&current, &combi_groups[joined], config.nb_layers, joined);
            proof {
                assert(crate::palette::generator::combis_view(next@) =~= products_spec(
                    w,
                    pool,
                    lv,
                    nbl,
                    joined + 1,
                ));
            }
            current = next;
            joined = joined + 1;
        }

        proof {
            assert((config.nb_layers as u128) * (nb_groups as u128)
                <= 0xFFFF_FFFF_FFFF_FFFE_0000_0000_0000_0001u128) by (nonlinear_arith)
                requires
                    (config.nb_layers as u128) <= 0xFFFF_FFFF_FFFF_FFFFu128,
                    (nb_groups as u128) <= 0xFFFF_FFFF_FFFF_FFFFu128,
            ;
        }
        let layer_budget: u128 = (config.nb_layers as u128) * (nb_groups as u128);
        if layer_budget > 0xFFFF_FFFF || layer_budget > usize::MAX as u128 {
            return Err(
                PixestlError::InvalidPalette(
                    String::from_str("the total layer budget does not fit the machine"),
                ),
            );
        }
        proof {
            assert(palette.nb_layers * nb_groups <= usize::MAX);
        }
        palette.set_nb_groups(nb_groups);

        // Factorize, reorder white, and store every stack; the stored list
        // is the keyed-insertion fold of the finalized products.
        let ghost prods = products_spec(w, pool, lv, nbl, ng);
        let mut i: usize = 0;
        while i < current.len()
            invariant
                i <= current@.len(),
                palette.nb_layers == config.nb_layers,
                palette.nb_groups == nb_groups,
                ng == nb_groups as int,
                pool == nb_color_pool as int,
                nb_groups >= 1,
                palette.layer_count == palette.nb_layers * palette.nb_groups,
                palette.layer_count == nb_groups * config.nb_layers,
                nb_groups * config.nb_layers <= 0xFFFF_FFFF,
                palette.hex_codes_map == old(palette).hex_codes_map,
                prods == crate::palette::generator::combis_view(current@),
                prods.len() == current@.len(),
                forall|b: int|
                    0 <= b < current@.len() ==> total_layers_spec(#[trigger] current@[b]@)
                        == nb_groups * config.nb_layers,
                crate::palette::store::qview(palette.quantized_colors@) == stored_fold_spec(
                    prods,
                    pool,
                    i as int,
                ),
                forall|a: int|
                    0 <= a < palette.quantized_colors@.len() ==> total_layers_spec(
                        #[trigger] palette.quantized_colors@[a].1@,
                    ) == palette.layer_count,
            decreases current@.len() - i,
        {
            let mut combi = current[i].duplicate();
            proof {
                assert(total_layers_spec(combi@) == nb_groups * config.nb_layers);
                assert(total_layers_spec(combi@) <= u32::MAX);
                crate::palette::color_combi::lemma_factorize_total(combi@);
            }
            combi.factorize();
            proof {
                crate::palette::color_combi::lemma_white_buckets_total(combi@, pool);
                crate::palette::color_combi::lemma_total_concat(
                    crate::palette::color_combi::bottom_white_spec(combi@, pool),
                    crate::palette::color_combi::middle_colored_spec(combi@),
                );
                crate::palette::color_combi::lemma_total_concat(
                    crate::palette::color_combi::bottom_white_spec(combi@, pool)
                        + crate::palette::color_combi::middle_colored_spec(combi@),
                    crate::palette::color_combi::top_white_spec(combi@, pool),
                );
            }
            combi.optimize_white_layers(nb_color_pool);
            proof {
                assert(combi@ == finalize_combi_spec(prods[i as int], pool));
            }
            palette.add_combi(combi);
            i = i + 1;
        }

        // Per-slot code lists: slot s carries the s-th code of every chunk
        // that has one; the trailing slot is all white.
        let mut hex_color_group_list: Vec<Vec<String>> = Vec::new();
        let mut sl: usize = 0;
        while sl < nb_color_pool
            invariant
                sl <= nb_color_pool,
                pool == nb_color_pool as int,
                ng == nb_groups as int,
                nb_groups >= 1,
                w == crate::palette::generator::strs_view(working@),
                hex_color_group_list@.len() == sl,
                forall|a: int|
                    0 <= a < sl ==> #[trigger] crate::palette::generator::strs_view(
                        hex_color_group_list@[a]@,
                    ) == slot_views_from_spec(w, pool, ng, a, 0),
            decreases nb_color_pool - sl,
        {
            let mut slot: Vec<String> = Vec::new();
            let mut g: usize = 0;
            while g < nb_groups
                invariant
                    g <= nb_groups,
                    sl < nb_color_pool,
                    pool == nb_color_pool as int,
                    ng == nb_groups as int,
                    w == crate::palette::generator::strs_view(working@),
                    slot_views_from_spec(w, pool, ng, sl as int, 0)
                        == crate::palette::generator::strs_view(slot@) + slot_views_from_spec(
                        w,
                        pool,
                        ng,
                        sl as int,
                        g as int,
                    ),
                decreases nb_groups - g,
            {
                let ghost pre = crate::palette::generator::strs_view(slot@);
                proof {
                    crate::image::lemma_grid_extent_fits(g as int, pool);
                }
                let wl: usize = working.len();
                let pos128: u128 = (g as u128) * (nb_color_pool as u128) + (sl as u128);
                proof {
                    assert(pos128 == (g as int) * pool + sl);
                    assert(w.len() == wl);
                }
                if pos128 <= usize::MAX as u128 && (pos128 as usize) < wl {
                    slot.push(working[pos128 as usize].clone());
                    proof {
                        assert(0 <= (g as int) * pool + sl < w.len());
                        assert(w[(g as int) * pool + sl] == working@[pos128 as int]@);
                        assert(crate::palette::generator::strs_view(slot@) =~= pre + seq![
                            w[(g as int) * pool + sl],
                        ]);
                    }
                } else {
                    proof {
                        assert(!(0 <= (g as int) * pool + sl < w.len()));
                        assert(crate::palette::generator::strs_view(slot@) =~= pre
                            + Seq::<Seq<char>>::empty());
                    }
                }
                g = g + 1;
            }
            proof {
                assert(slot_views_from_spec(w, pool, ng, sl as int, ng)
                    =~= Seq::<Seq<char>>::empty());
                assert(crate::palette::generator::strs_view(slot@) + Seq::<Seq<char>>::empty()
                    =~= crate::palette::generator::strs_view(slot@));
            }
            hex_color_group_list.push(slot);
            sl = sl + 1;
        }
        let mut white_slot: Vec<String> = Vec::new();
        proof {
            reveal_strlit("#FFFFFF");
        }
        white_slot.push(String::from_str("#FFFFFF"));
        proof {
            assert("#FFFFFF"@ =~= crate::palette::color_combi::white_hex_spec());
            assert(crate::palette::generator::strs_view(white_slot@) =~= seq![
                crate::palette::color_combi::white_hex_spec(),
            ]);
        }
        hex_color_group_list.push(white_slot);
        proof {
            assert(groups_strs_view(hex_color_group_list@) =~= slots_views_spec(w, pool));
        }
        palette.set_hex_color_groups(hex_color_group_list);
        proof {
            assert(stored_fold_spec(prods, pool, prods.len() as int)
                == crate::palette::store::qview(palette.quantized_colors@));
        }
        Ok(())
    }
}

/// Copies every stack of a group.
fn duplicate_combis(group: &Vec<ColorCombi>) -> (r: Vec<ColorCombi>)
    ensures
        r@.len() == group@.len(),
        forall|i: int| 0 <= i < group@.len() ==> #[trigger] r@[i]@ == group@[i]@,
{
    let mut out: Vec<ColorCombi> = Vec::new();
    let mut i: usize = 0;
    while i < group.len()
        invariant
            i <= group@.len(),
            out@.len() == i,
            forall|j: int| 0 <= j < i ==> #[trigger] out@[j]@ == group@[j]@,
        decreases group@.len() - i,
    {
        out.push(group[i].duplicate());
        i = i + 1;
    }
    out
}

/// The packed channel key that orders colors: red, then green, then blue.
/// For canonical hex codes this is their lexicographic order.
pub open spec fn rgb_key_spec(c: Rgb) -> int {
    c.r * 65536 + c.g * 256 + c.b
}

/// Inserts a color into a key-sorted sequence, after any equal keys.
pub open spec fn insert_color_spec(s: Seq<Rgb>, c: Rgb) -> Seq<Rgb>
    decreases s.len(),
{
    if s.len() == 0 {
        seq![c]
    } else if rgb_key_spec(s[0]) > rgb_key_spec(c) {
        seq![c] + s
    } else {
        seq![s[0]] + insert_color_spec(s.drop_first(), c)
    }
}

/// The insertion sort of a color sequence, first `i` elements.
pub open spec fn sort_colors_upto_spec(s: Seq<Rgb>, i: int) -> Seq<Rgb>
    decreases i,
{
    if i <= 0 {
        Seq::empty()
    } else {
        insert_color_spec(sort_colors_upto_spec(s, i - 1), s[i - 1])
    }
}

/// The insertion sort of a color sequence, ascending by channel key.
pub open spec fn sort_colors_spec(s: Seq<Rgb>) -> Seq<Rgb> {
    sort_colors_upto_spec(s, s.len() as int)
}

/// If the first `j` keys do not exceed the new key and the `j`-th does,
/// the insertion lands exactly at position `j`.
proof fn lemma_insert_color_at(s: Seq<Rgb>, c: Rgb, j: int)
    requires
        0 <= j <= s.len(),
        forall|m: int| 0 <= m < j ==> rgb_key_spec(#[trigger] s[m]) <= rgb_key_spec(c),
        j < s.len() ==> rgb_key_spec(s[j]) > rgb_key_spec(c),
    ensures
        insert_color_spec(s, c) =~= s.insert(j, c),
    decreases s.len(),
{
    if j == 0 {
        if s.len() == 0 {
            assert(insert_color_spec(s, c) =~= s.insert(0, c));
        } else {
            assert(insert_color_spec(s, c) =~= s.insert(0, c));
        }
    } else {
        assert(rgb_key_spec(s[0]) <= rgb_key_spec(c));
        lemma_insert_color_at(s.drop_first(), c, j - 1);
        assert(seq![s[0]] + s.drop_first().insert(j - 1, c) =~= s.insert(j, c));
    }
}

/// Sorts colors ascending by channel key: exactly the insertion sort
/// [`sort_colors_spec`], equal keys keeping their incoming order.
fn sort_colors(input: Vec<Rgb>) -> (r: Vec<Rgb>)
    ensures
        r@ == sort_colors_spec(input@),
{
    let mut out: Vec<Rgb> = Vec::new();
    let mut i: usize = 0;
    while i < input.len()
        invariant
            i <= input@.len(),
            out@ == sort_colors_upto_spec(input@, i as int),
        decreases input@.len() - i,
    {
        let c = input[i];
        let key = rgb_key(&c);
        let mut j: usize = 0;
        let mut found = false;
        while j < out.len() && !found
            invariant
                j <= out@.len(),
                key == rgb_key_spec(c),
                found ==> j < out@.len() && rgb_key_spec(out@[j as int]) > rgb_key_spec(c),
                forall|m: int| 0 <= m < j ==> rgb_key_spec(#[trigger] out@[m]) <= rgb_key_spec(c),
            decreases out@.len() - j + (if found {
                0int
            } else {
                1int
            }),
        {
            if rgb_key(&out[j]) > key {
                found = true;
            } else {
                j = j + 1;
            }
        }
        proof {
            lemma_insert_color_at(out@, c, j as int);
        }
        out.insert(j, c);
        i = i + 1;
    }
    out
}

/// The channel-packed ordering key of a color.
fn rgb_key(c: &Rgb) -> (r: u32)
    ensures
        r == rgb_key_spec(*c),
{
    (c.r as u32) * 65536 + (c.g as u32) * 256 + (c.b as u32)
}

/// Inserts a layer into a darkness-sorted sequence, after any equally dark
/// layers.
pub open spec fn insert_layer_spec(s: Seq<LayerModel>, l: LayerModel) -> Seq<LayerModel>
    decreases s.len(),
{
    if s.len() == 0 {
        seq![l]
    } else if s[0].cmyk.k < l.cmyk.k {
        seq![l] + s
    } else {
        seq![s[0]] + insert_layer_spec(s.drop_first(), l)
    }
}

/// The insertion sort of a layer sequence, first `i` elements.
pub open spec fn sort_layers_upto_spec(s: Seq<LayerModel>, i: int) -> Seq<LayerModel>
    decreases i,
{
    if i <= 0 {
        Seq::empty()
    } else {
        insert_layer_spec(sort_layers_upto_spec(s, i - 1), s[i - 1])
    }
}

/// The insertion sort of a layer sequence, darkest first, equal darkness
/// keeping the incoming order.
pub open spec fn sort_layers_spec(s: Seq<LayerModel>) -> Seq<LayerModel> {
    sort_layers_upto_spec(s, s.len() as int)
}

/// If the first `j` layers are at least as dark as the new one and the
/// `j`-th is strictly lighter, the insertion lands exactly at `j`.
proof fn lemma_insert_layer_at(s: Seq<LayerModel>, l: LayerModel, j: int)
    requires
        0 <= j <= s.len(),
        forall|m: int| 0 <= m < j ==> (#[trigger] s[m]).cmyk.k >= l.cmyk.k,
        j < s.len() ==> s[j].cmyk.k < l.cmyk.k,
    ensures
        insert_layer_spec(s, l) =~= s.insert(j, l),
    decreases s.len(),
{
    if j == 0 {
        assert(insert_layer_spec(s, l) =~= s.insert(0, l));
    } else {
        assert(s[0].cmyk.k >= l.cmyk.k);
        lemma_insert_layer_at(s.drop_first(), l, j - 1);
        assert(seq![s[0]] + s.drop_first().insert(j - 1, l) =~= s.insert(j, l));
    }
}

/// Sorts layers darkest first: exactly the insertion sort
/// [`sort_layers_spec`] of the input models.
fn sort_layers_by_k(input: Vec<ColorLayer>) -> (r: Vec<ColorLayer>)
    ensures
        crate::palette::generator::layers_view(r@) == sort_layers_spec(
            crate::palette::generator::layers_view(input@),
        ),
{
    let ghost lv = crate::palette::generator::layers_view(input@);
    let mut out: Vec<ColorLayer> = Vec::new();
    let mut i: usize = 0;
    while i < input.len()
        invariant
            i <= input@.len(),
            lv == crate::palette::generator::layers_view(input@),
            crate::palette::generator::layers_view(out@) == sort_layers_upto_spec(lv, i as int),
        decreases input@.len() - i,
    {
        let c = input[i].duplicate();
        let key = c.k();
        let mut j: usize = 0;
        let mut found = false;
        while j < out.len() && !found
            invariant
                j <= out@.len(),
                key == c@.cmyk.k,
                found ==> j < out@.len() && crate::palette::generator::layers_view(
                    out@,
                )[j as int].cmyk.k < c@.cmyk.k,
                forall|m: int|
                    0 <= m < j ==> (#[trigger] crate::palette::generator::layers_view(
                        out@,
                    )[m]).cmyk.k >= c@.cmyk.k,
            decreases out@.len() - j + (if found {
                0int
            } else {
                1int
            }),
        {
            if out[j].k() < key {
                found = true;
            } else {
                j = j + 1;
            }
        }
        proof {
            lemma_insert_layer_at(
                crate::palette::generator::layers_view(out@),
                c@,
                j as int,
            );
        }
        out.insert(j, c);
        proof {
            assert(crate::palette::generator::layers_view(out@)
                =~= crate::palette::generator::layers_view(out@));
            assert(lv[i as int] == input@[i as int]@);
            assert(crate::palette::generator::layers_view(out@) =~= sort_layers_upto_spec(
                lv,
                i + 1,
            ));
        }
        i = i + 1;
    }
    out
}

} // verus!
