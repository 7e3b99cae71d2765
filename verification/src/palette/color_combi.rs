//! A vertical stack of color layers realizing one pixel column.

use vstd::prelude::*;
use crate::color::cmyk::{Cmyk, CMYK_ONE};
use crate::color::rgb::Rgb;
use crate::palette::color_layer::{ColorLayer, LayerModel};
use crate::text::str_eq;
use vstd::string::StringExecFns;

verus! {

/// The sum of the layer counts of a stack.
pub open spec fn total_layers_spec(s: Seq<LayerModel>) -> int
    decreases s.len(),
{
    if s.len() == 0 {
        0
    } else {
        total_layers_spec(s.drop_last()) + s.last().count
    }
}

/// Whether some layer of the stack carries the given hex code.
pub open spec fn contains_hex_spec(s: Seq<LayerModel>, hex: Seq<char>) -> bool {
    exists|i: int| 0 <= i < s.len() && #[trigger] s[i].hex == hex
}

/// The channel-wise sums of the ink fractions of a stack, unclamped, as
/// (cyan, magenta, yellow, key).
pub open spec fn cmyk_sum_spec(s: Seq<LayerModel>) -> (int, int, int, int)
    decreases s.len(),
{
    if s.len() == 0 {
        (0, 0, 0, 0)
    } else {
        let rest = cmyk_sum_spec(s.drop_last());
        (
            rest.0 + s.last().cmyk.c,
            rest.1 + s.last().cmyk.m,
            rest.2 + s.last().cmyk.y,
            rest.3 + s.last().cmyk.k,
        )
    }
}

/// A channel sum clamped to the unit range.
pub open spec fn clamp_one_spec(v: int) -> u64 {
    if v <= CMYK_ONE {
        v as u64
    } else {
        CMYK_ONE
    }
}

/// The additive projection of a stack: the RGB color of the clamped sums of
/// its layers' ink fractions.
pub open spec fn combi_rgb_spec(s: Seq<LayerModel>) -> Rgb {
    let sums = cmyk_sum_spec(s);
    Rgb::from_cmyk_spec(
        Cmyk {
            c: clamp_one_spec(sums.0),
            m: clamp_one_spec(sums.1),
            y: clamp_one_spec(sums.2),
            k: clamp_one_spec(sums.3),
        },
    )
}

/// The stack after folding every run of adjacent layers with one hex code
/// into a single layer carrying the summed count (and the run's first ink
/// fractions).
pub open spec fn factorize_spec(s: Seq<LayerModel>) -> Seq<LayerModel>
    decreases s.len(),
{
    if s.len() == 0 {
        Seq::empty()
    } else {
        let prev = factorize_spec(s.drop_last());
        let x = s.last();
        if prev.len() > 0 && prev.last().hex == x.hex {
            prev.update(
                prev.len() - 1,
                LayerModel {
                    hex: prev.last().hex,
                    count: prev.last().count + x.count,
                    cmyk: prev.last().cmyk,
                },
            )
        } else {
            prev.push(x)
        }
    }
}

/// The layers of the stack carrying the given hex code, in order.
pub open spec fn filter_hex_spec(s: Seq<LayerModel>, hex: Seq<char>) -> Seq<LayerModel>
    decreases s.len(),
{
    if s.len() == 0 {
        Seq::empty()
    } else {
        filter_hex_spec(s.drop_last(), hex) + if s.last().hex == hex {
            seq![s.last()]
        } else {
            Seq::empty()
        }
    }
}

/// The number of printed layers below the start of the `target_index`-th
/// occurrence of the hex code, or `None` if there are not that many
/// occurrences. `before` counts already-passed layers, `seen` the
/// occurrences already passed, scanning from position `i`.
pub open spec fn layer_position_from_spec(
    s: Seq<LayerModel>,
    hex: Seq<char>,
    target_index: int,
    i: int,
    before: int,
    seen: int,
) -> Option<int>
    decreases s.len() - i,
{
    if i >= s.len() {
        None
    } else if s[i].hex == hex {
        if seen == target_index {
            Some(before)
        } else {
            layer_position_from_spec(s, hex, target_index, i + 1, before + s[i].count, seen + 1)
        }
    } else {
        layer_position_from_spec(s, hex, target_index, i + 1, before + s[i].count, seen)
    }
}

/// The printed-layer position of the `target_index`-th occurrence of a hex
/// code in the stack.
pub open spec fn layer_position_spec(
    s: Seq<LayerModel>,
    hex: Seq<char>,
    target_index: int,
) -> Option<int> {
    layer_position_from_spec(s, hex, target_index, 0, 0, 0)
}

/// The four channel sums of a stack are never negative.
pub proof fn lemma_cmyk_sum_nonneg(s: Seq<LayerModel>)
    ensures
        cmyk_sum_spec(s).0 >= 0,
        cmyk_sum_spec(s).1 >= 0,
        cmyk_sum_spec(s).2 >= 0,
        cmyk_sum_spec(s).3 >= 0,
    decreases s.len(),
{
    if s.len() > 0 {
        lemma_cmyk_sum_nonneg(s.drop_last());
    }
}

/// Appending one layer adds its count to the total.
pub proof fn lemma_total_push(s: Seq<LayerModel>, x: LayerModel)
    ensures
        total_layers_spec(s.push(x)) == total_layers_spec(s) + x.count,
{
    assert(s.push(x).drop_last() =~= s);
    assert(s.push(x).last() == x);
}

/// The total of a concatenation is the sum of the totals.
pub proof fn lemma_total_concat(a: Seq<LayerModel>, b: Seq<LayerModel>)
    ensures
        total_layers_spec(a + b) == total_layers_spec(a) + total_layers_spec(b),
    decreases b.len(),
{
    if b.len() == 0 {
        assert(a + b =~= a);
    } else {
        lemma_total_concat(a, b.drop_last());
        assert((a + b).drop_last() =~= a + b.drop_last());
        assert((a + b).last() == b.last());
    }
}

/// Every layer count is non-negative, so the total of a prefix never
/// exceeds the total of the whole stack.
pub proof fn lemma_total_nonneg(s: Seq<LayerModel>)
    ensures
        total_layers_spec(s) >= 0,
    decreases s.len(),
{
    if s.len() > 0 {
        lemma_total_nonneg(s.drop_last());
    }
}

/// Factorization preserves the total number of printed layers.
pub proof fn lemma_factorize_total(s: Seq<LayerModel>)
    ensures
        total_layers_spec(factorize_spec(s)) == total_layers_spec(s),
    decreases s.len(),
{
    if s.len() > 0 {
        let prev = factorize_spec(s.drop_last());
        let x = s.last();
        lemma_factorize_total(s.drop_last());
        if prev.len() > 0 && prev.last().hex == x.hex {
            let merged = prev.update(
                prev.len() - 1,
                LayerModel {
                    hex: prev.last().hex,
                    count: prev.last().count + x.count,
                    cmyk: prev.last().cmyk,
                },
            );
            assert(merged.drop_last() =~= prev.drop_last());
            assert(total_layers_spec(prev) == total_layers_spec(prev.drop_last())
                + prev.last().count);
            assert(total_layers_spec(merged) == total_layers_spec(merged.drop_last())
                + merged.last().count);
        } else {
            lemma_total_push(prev, x);
        }
    }
}

/// After factorization no two adjacent layers share a hex code.
pub proof fn lemma_factorize_adjacent_distinct(s: Seq<LayerModel>)
    ensures
        forall|i: int|
            0 <= i < factorize_spec(s).len() - 1 ==> #[trigger] factorize_spec(s)[i].hex
                != factorize_spec(s)[i + 1].hex,
    decreases s.len(),
{
    if s.len() > 0 {
        let prev = factorize_spec(s.drop_last());
        let x = s.last();
        let cur = factorize_spec(s);
        lemma_factorize_adjacent_distinct(s.drop_last());
        if prev.len() > 0 && prev.last().hex == x.hex {
            assert(forall|i: int|
                0 <= i < cur.len() - 1 ==> #[trigger] cur[i].hex == prev[i].hex);
        } else {
        }
    }
}

/// A combination of color layers: the vertical stack that realizes one
/// pixel column, with its additive RGB projection.
#[derive(Debug)]
pub struct ColorCombi {
    /// The stacked layers, bottom first.
    pub layers: Vec<ColorLayer>,
}

impl View for ColorCombi {
    type V = Seq<LayerModel>;

    open spec fn view(&self) -> Seq<LayerModel> {
        self.layers@.map_values(|l: ColorLayer| l@)
    }
}

impl ColorCombi {
    /// A stack holding a single layer.
    pub fn new(layer: ColorLayer) -> (r: Self)
        ensures
            r@ =~= seq![layer@],
    {
        let mut layers: Vec<ColorLayer> = Vec::new();
        layers.push(layer);
        ColorCombi { layers }
    }

    /// A stack with no layers.
    pub fn empty() -> (r: Self)
        ensures
            r@ =~= Seq::<LayerModel>::empty(),
    {
        ColorCombi { layers: Vec::new() }
    }

    /// An exact copy of the stack.
    pub fn duplicate(&self) -> (r: Self)
        ensures
            r@ == self@,
    {
        let mut layers: Vec<ColorLayer> = Vec::new();
        let mut i: usize = 0;
        while i < self.layers.len()
            invariant
                i <= self.layers@.len(),
                layers@.len() == i,
                forall|j: int| 0 <= j < i ==> #[trigger] layers@[j]@ == self.layers@[j]@,
            decreases self.layers@.len() - i,
        {
            layers.push(self.layers[i].duplicate());
            i = i + 1;
        }
        let r = ColorCombi { layers };
        proof {
            assert(r@ =~= self@);
        }
        r
    }

    /// Appends one layer to the stack.
    pub fn add_layer(&mut self, layer: ColorLayer)
        ensures
            final(self)@ =~= old(self)@.push(layer@),
    {
        self.layers.push(layer);
    }

    /// The number of layer entries in the stack.
    pub fn total_colors(&self) -> (r: usize)
        ensures
            r == self@.len(),
    {
        self.layers.len()
    }

    /// The total number of printed layers in the stack.
    pub fn total_layers(&self) -> (r: u32)
        requires
            total_layers_spec(self@) <= u32::MAX,
        ensures
            r == total_layers_spec(self@),
    {
        let mut sum: u32 = 0;
        let mut i: usize = 0;
        proof {
            assert(self@.take(0) =~= Seq::<LayerModel>::empty());
        }
        while i < self.layers.len()
            invariant
                i <= self.layers@.len(),
                self@.len() == self.layers@.len(),
                total_layers_spec(self@) <= u32::MAX,
                sum == total_layers_spec(self@.take(i as int)),
            decreases self.layers@.len() - i,
        {
            proof {
                lemma_total_take_step(self@, i as int);
                lemma_total_prefix_le(self@, i + 1);
            }
            sum = sum + self.layers[i].layer();
            i = i + 1;
        }
        proof {
            assert(self@.take(self@.len() as int) =~= self@);
        }
        sum
    }

    /// The layers of the stack.
    pub fn layers(&self) -> (r: &Vec<ColorLayer>)
        ensures
            r@.map_values(|l: ColorLayer| l@) == self@,
    {
        &self.layers
    }

    /// Reads one layer of the stack.
    pub fn layer_at(&self, i: usize) -> (r: &ColorLayer)
        requires
            i < self@.len(),
        ensures
            r@ == self@[i as int],
    {
        &self.layers[i]
    }

    /// Tries to extend the stack with one more layer: refused (with `None`)
    /// when the hex code is already present or the new total would exceed
    /// `nb_layer_max`.
    pub fn combine_with_layer(&self, layer: ColorLayer, nb_layer_max: u32) -> (r: Option<Self>)
        requires
            total_layers_spec(self@) <= u32::MAX,
        ensures
            match r {
                Some(c) => !contains_hex_spec(self@, layer@.hex) && total_layers_spec(self@)
                    + layer@.count <= nb_layer_max && c@ == self@.push(layer@),
                None => contains_hex_spec(self@, layer@.hex) || total_layers_spec(self@)
                    + layer@.count > nb_layer_max,
            },
    {
        let mut i: usize = 0;
        while i < self.layers.len()
            invariant
                i <= self.layers@.len(),
                self@.len() == self.layers@.len(),
                forall|j: int| 0 <= j < i ==> #[trigger] self@[j].hex != layer@.hex,
            decreases self.layers@.len() - i,
        {
            if str_eq(self.layers[i].hex_code(), layer.hex_code()) {
                proof {
                    assert(self@[i as int].hex == layer@.hex);
                    assert(contains_hex_spec(self@, layer@.hex));
                }
                return None;
            }
            i = i + 1;
        }
        proof {
            lemma_total_nonneg(self@);
        }
        let total = self.total_layers();
        if layer.layer() > nb_layer_max || total > nb_layer_max - layer.layer() {
            return None;
        }
        let mut new_combi = self.duplicate();
        new_combi.add_layer(layer);
        Some(new_combi)
    }

    /// Concatenates another stack onto this one.
    pub fn combine_with_combi(&self, other: &Self) -> (r: Self)
        ensures
            r@ =~= self@ + other@,
    {
        let mut new_combi = self.duplicate();
        let mut i: usize = 0;
        while i < other.layers.len()
            invariant
                i <= other.layers@.len(),
                other@.len() == other.layers@.len(),
                new_combi@ =~= self@ + other@.take(i as int),
            decreases other.layers@.len() - i,
        {
            new_combi.add_layer(other.layers[i].duplicate());
            proof {
                assert((self@ + other@.take(i as int)).push(other@[i as int]) =~= self@
                    + other@.take(i + 1));
            }
            i = i + 1;
        }
        proof {
            assert(other@.take(other@.len() as int) =~= other@);
        }
        new_combi
    }

    /// Computes the additive RGB projection of the stack: channel-wise sums
    /// of the ink fractions, clamped to the unit range, converted to RGB.
    pub fn compute_rgb(&self) -> (r: Rgb)
        ensures
            r == combi_rgb_spec(self@),
    {
        let mut c: u64 = 0;
        let mut m: u64 = 0;
        let mut y: u64 = 0;
        let mut k: u64 = 0;
        let mut i: usize = 0;
        proof {
            assert(self@.take(0) =~= Seq::<LayerModel>::empty());
        }
        while i < self.layers.len()
            invariant
                i <= self.layers@.len(),
                self@.len() == self.layers@.len(),
                c == clamp_one_spec(cmyk_sum_spec(self@.take(i as int)).0),
                m == clamp_one_spec(cmyk_sum_spec(self@.take(i as int)).1),
                y == clamp_one_spec(cmyk_sum_spec(self@.take(i as int)).2),
                k == clamp_one_spec(cmyk_sum_spec(self@.take(i as int)).3),
            decreases self.layers@.len() - i,
        {
            let l = &self.layers[i];
            proof {
                lemma_cmyk_sum_nonneg(self@.take(i as int));
            }
            c = saturating_add_one(c, l.c());
            m = saturating_add_one(m, l.m());
            y = saturating_add_one(y, l.y());
            k = saturating_add_one(k, l.k());
            proof {
                assert(self@.take(i + 1).drop_last() =~= self@.take(i as int));
                assert(self@.take(i + 1).last() == self@[i as int]);
                lemma_clamp_saturating(cmyk_sum_spec(self@.take(i as int)).0, self@[i as int].cmyk.c as int);
                lemma_clamp_saturating(cmyk_sum_spec(self@.take(i as int)).1, self@[i as int].cmyk.m as int);
                lemma_clamp_saturating(cmyk_sum_spec(self@.take(i as int)).2, self@[i as int].cmyk.y as int);
                lemma_clamp_saturating(cmyk_sum_spec(self@.take(i as int)).3, self@[i as int].cmyk.k as int);
            }
            i = i + 1;
        }
        proof {
            assert(self@.take(self@.len() as int) =~= self@);
        }
        Rgb::from_cmyk(Cmyk { c, m, y, k })
    }

    /// Folds every run of adjacent same-hex layers into one layer carrying
    /// the summed count.
    pub fn factorize(&mut self)
        requires
            total_layers_spec(old(self)@) <= u32::MAX,
        ensures
            final(self)@ == factorize_spec(old(self)@),
    {
        let ghost orig = self@;
        let mut new_layers: Vec<ColorLayer> = Vec::new();
        let mut i: usize = 0;
        while i < self.layers.len()
            invariant
                i <= self.layers@.len(),
                self@.len() == self.layers@.len(),
                self@ == orig,
                total_layers_spec(orig) <= u32::MAX,
                new_layers@.map_values(|l: ColorLayer| l@) == factorize_spec(orig.take(i as int)),
            decreases self.layers@.len() - i,
        {
            let ghost prefix = orig.take(i as int);
            let ghost fprev = factorize_spec(prefix);
            proof {
                assert(orig.take(i + 1).drop_last() =~= prefix);
                assert(orig.take(i + 1).last() == orig[i as int]);
            }
            let x = self.layers[i].duplicate();
            if new_layers.len() > 0 {
                let last_idx = new_layers.len() - 1;
                if str_eq(new_layers[last_idx].hex_code(), x.hex_code()) {
                    proof {
                        lemma_factorize_total(prefix);
                        lemma_total_prefix_le(orig, i as int);
                        lemma_total_nonneg(fprev.drop_last());
                        assert(total_layers_spec(fprev) == total_layers_spec(fprev.drop_last())
                            + fprev.last().count);
                        lemma_total_take_step(orig, i as int);
                        lemma_total_prefix_le(orig, i + 1);
                        lemma_total_nonneg(fprev);
                    }
                    let last = match new_layers.pop() {
                        Some(l) => l,
                        None => x.duplicate(),
                    };
                    let merged = ColorLayer {
                        hex_code: last.hex_code,
                        layer: last.layer + x.layer,
                        cmyk: last.cmyk,
                    };
                    new_layers.push(merged);
                    proof {
                        assert(new_layers@.map_values(|l: ColorLayer| l@) =~= factorize_spec(
                            orig.take(i + 1),
                        ));
                    }
                } else {
                    new_layers.push(x);
                    proof {
                        assert(new_layers@.map_values(|l: ColorLayer| l@) =~= factorize_spec(
                            orig.take(i + 1),
                        ));
                    }
                }
            } else {
                new_layers.push(x);
                proof {
                    assert(new_layers@.map_values(|l: ColorLayer| l@) =~= factorize_spec(
                        orig.take(i + 1),
                    ));
                }
            }
            i = i + 1;
        }
        proof {
            assert(orig.take(orig.len() as int) =~= orig);
        }
        self.layers = new_layers;
    }

    /// The layers carrying a given hex code, as copies, in stack order.
    pub fn layers_with_hex(&self, hex_code: &str) -> (r: Vec<ColorLayer>)
        ensures
            r@.map_values(|l: ColorLayer| l@) == filter_hex_spec(self@, hex_code@),
    {
        let mut out: Vec<ColorLayer> = Vec::new();
        let mut i: usize = 0;
        while i < self.layers.len()
            invariant
                i <= self.layers@.len(),
                self@.len() == self.layers@.len(),
                out@.map_values(|l: ColorLayer| l@) == filter_hex_spec(
                    self@.take(i as int),
                    hex_code@,
                ),
            decreases self.layers@.len() - i,
        {
            proof {
                assert(self@.take(i + 1).drop_last() =~= self@.take(i as int));
                assert(self@.take(i + 1).last() == self@[i as int]);
            }
            if str_eq(self.layers[i].hex_code(), hex_code) {
                out.push(self.layers[i].duplicate());
            }
            proof {
                assert(out@.map_values(|l: ColorLayer| l@) =~= filter_hex_spec(
                    self@.take(i + 1),
                    hex_code@,
                ));
            }
            i = i + 1;
        }
        proof {
            assert(self@.take(self@.len() as int) =~= self@);
        }
        out
    }

    /// The number of printed layers below the `target_index`-th occurrence
    /// of a hex code, or `None` when the stack has fewer occurrences.
    pub fn layer_position(&self, target_hex: &str, target_index: usize) -> (r: Option<usize>)
        requires
            total_layers_spec(self@) <= usize::MAX,
        ensures
            match r {
                Some(p) => layer_position_spec(self@, target_hex@, target_index as int) == Some(
                    p as int,
                ),
                None => layer_position_spec(self@, target_hex@, target_index as int) is None,
            },
    {
        let mut count: usize = 0;
        let mut hex_index: usize = 0;
        let mut i: usize = 0;
        while i < self.layers.len()
            invariant
                i <= self.layers@.len(),
                self@.len() == self.layers@.len(),
                total_layers_spec(self@) <= usize::MAX,
                count == total_layers_spec(self@.take(i as int)),
                hex_index <= i,
                layer_position_spec(self@, target_hex@, target_index as int)
                    == layer_position_from_spec(
                    self@,
                    target_hex@,
                    target_index as int,
                    i as int,
                    count as int,
                    hex_index as int,
                ),
            decreases self.layers@.len() - i,
        {
            let l = &self.layers[i];
            if str_eq(l.hex_code(), target_hex) {
                if hex_index == target_index {
                    return Some(count);
                }
                hex_index = hex_index + 1;
            }
            proof {
                lemma_total_take_step(self@, i as int);
                lemma_total_prefix_le(self@, i + 1);
                lemma_total_nonneg(self@.take(i + 1));
            }
            count = count + l.layer() as usize;
            i = i + 1;
        }
        None
    }
}

/// Adds a fraction to a clamped accumulator, saturating at the unit value.
fn saturating_add_one(acc: u64, v: u64) -> (r: u64)
    requires
        acc <= CMYK_ONE,
    ensures
        r == clamp_one_spec(acc + v),
{
    if v >= CMYK_ONE || acc + v >= CMYK_ONE {
        CMYK_ONE
    } else {
        acc + v
    }
}

/// Clamping a running sum step by step agrees with clamping the whole sum.
proof fn lemma_clamp_saturating(partial: int, v: int)
    requires
        v >= 0,
        partial >= 0,
    ensures
        clamp_one_spec(clamp_one_spec(partial) + v) == clamp_one_spec(partial + v),
{
}

/// The total of a prefix grows by the element at its end.
pub proof fn lemma_total_take_step(s: Seq<LayerModel>, i: int)
    requires
        0 <= i < s.len(),
    ensures
        total_layers_spec(s.take(i + 1)) == total_layers_spec(s.take(i)) + s[i].count,
{
    assert(s.take(i + 1).drop_last() =~= s.take(i));
    assert(s.take(i + 1).last() == s[i]);
}

/// A prefix total never exceeds the whole total.
pub proof fn lemma_total_prefix_le(s: Seq<LayerModel>, i: int)
    requires
        0 <= i <= s.len(),
    ensures
        total_layers_spec(s.take(i)) <= total_layers_spec(s),
    decreases s.len() - i,
{
    if i < s.len() {
        lemma_total_take_step(s, i);
        lemma_total_prefix_le(s, i + 1);
    } else {
        assert(s.take(i) =~= s);
    }
}

/// The white hex code: the neutral contributor in additive mode.
pub open spec fn white_hex_spec() -> Seq<char> {
    seq!['#', 'F', 'F', 'F', 'F', 'F', 'F']
}

/// The bottom-white bucket: white layers whose printed position (the total
/// of everything below them) is at most `pool`.
pub open spec fn bottom_white_spec(s: Seq<LayerModel>, pool: int) -> Seq<LayerModel>
    decreases s.len(),
{
    if s.len() == 0 {
        Seq::empty()
    } else {
        bottom_white_spec(s.drop_last(), pool) + if s.last().hex == white_hex_spec()
            && total_layers_spec(s.drop_last()) <= pool {
            seq![s.last()]
        } else {
            Seq::empty()
        }
    }
}

/// The colored middle bucket: every non-white layer, in stack order.
pub open spec fn middle_colored_spec(s: Seq<LayerModel>) -> Seq<LayerModel>
    decreases s.len(),
{
    if s.len() == 0 {
        Seq::empty()
    } else {
        middle_colored_spec(s.drop_last()) + if s.last().hex != white_hex_spec() {
            seq![s.last()]
        } else {
            Seq::empty()
        }
    }
}

/// The top-white bucket: white layers whose printed position exceeds `pool`.
pub open spec fn top_white_spec(s: Seq<LayerModel>, pool: int) -> Seq<LayerModel>
    decreases s.len(),
{
    if s.len() == 0 {
        Seq::empty()
    } else {
        top_white_spec(s.drop_last(), pool) + if s.last().hex == white_hex_spec()
            && total_layers_spec(s.drop_last()) > pool {
            seq![s.last()]
        } else {
            Seq::empty()
        }
    }
}

/// The three buckets of the white reordering together carry exactly the
/// printed layers of the stack.
pub proof fn lemma_white_buckets_total(s: Seq<LayerModel>, pool: int)
    ensures
        total_layers_spec(bottom_white_spec(s, pool)) + total_layers_spec(middle_colored_spec(s))
            + total_layers_spec(top_white_spec(s, pool)) == total_layers_spec(s),
    decreases s.len(),
{
    if s.len() > 0 {
        lemma_white_buckets_total(s.drop_last(), pool);
        let x = s.last();
        lemma_total_concat(bottom_white_spec(s.drop_last(), pool), seq![x]);
        lemma_total_concat(middle_colored_spec(s.drop_last()), seq![x]);
        lemma_total_concat(top_white_spec(s.drop_last(), pool), seq![x]);
        assert(total_layers_spec(seq![x]) == x.count) by {
            assert(seq![x].drop_last() =~= Seq::<LayerModel>::empty());
            assert(total_layers_spec(Seq::<LayerModel>::empty()) == 0);
            assert(seq![x].last() == x);
        }
        assert(bottom_white_spec(s.drop_last(), pool) + Seq::<LayerModel>::empty()
            =~= bottom_white_spec(s.drop_last(), pool));
        assert(middle_colored_spec(s.drop_last()) + Seq::<LayerModel>::empty()
            =~= middle_colored_spec(s.drop_last()));
        assert(top_white_spec(s.drop_last(), pool) + Seq::<LayerModel>::empty()
            =~= top_white_spec(s.drop_last(), pool));
    }
}

impl ColorCombi {
    /// Reorders the stack into bottom white, colored middle, top white: the
    /// opaque background brackets the colored payload. White layers placed
    /// at printed position `nb_color_pool` or below sink to the bottom.
    pub fn optimize_white_layers(&mut self, nb_color_pool: usize)
        requires
            total_layers_spec(old(self)@) <= usize::MAX,
        ensures
            final(self)@ == bottom_white_spec(old(self)@, nb_color_pool as int) + middle_colored_spec(
                old(self)@,
            ) + top_white_spec(old(self)@, nb_color_pool as int),
    {
        let ghost orig = self@;
        let mut bottom: Vec<ColorLayer> = Vec::new();
        let mut middle: Vec<ColorLayer> = Vec::new();
        let mut top: Vec<ColorLayer> = Vec::new();
        let mut layer_count: usize = 0;
        let mut i: usize = 0;
        proof {
            assert(orig.take(0) =~= Seq::<LayerModel>::empty());
        }
        while i < self.layers.len()
            invariant
                i <= self.layers@.len(),
                self@.len() == self.layers@.len(),
                self@ == orig,
                total_layers_spec(orig) <= usize::MAX,
                layer_count == total_layers_spec(orig.take(i as int)),
                bottom@.map_values(|l: ColorLayer| l@) == bottom_white_spec(
                    orig.take(i as int),
                    nb_color_pool as int,
                ),
                middle@.map_values(|l: ColorLayer| l@) == middle_colored_spec(
                    orig.take(i as int),
                ),
                top@.map_values(|l: ColorLayer| l@) == top_white_spec(
                    orig.take(i as int),
                    nb_color_pool as int,
                ),
            decreases self.layers@.len() - i,
        {
            let ghost prefix = orig.take(i as int);
            proof {
                assert(orig.take(i + 1).drop_last() =~= prefix);
                assert(orig.take(i + 1).last() == orig[i as int]);
                reveal_strlit("#FFFFFF");
                assert("#FFFFFF"@ =~= white_hex_spec());
            }
            let l = self.layers[i].duplicate();
            if str_eq(l.hex_code(), "#FFFFFF") {
                if layer_count <= nb_color_pool {
                    bottom.push(l);
                } else {
                    top.push(l);
                }
            } else {
                middle.push(l);
            }
            proof {
                lemma_total_take_step(orig, i as int);
                lemma_total_prefix_le(orig, i + 1);
                lemma_total_nonneg(orig.take(i + 1));
                assert(bottom@.map_values(|x: ColorLayer| x@) =~= bottom_white_spec(
                    orig.take(i + 1),
                    nb_color_pool as int,
                ));
                assert(middle@.map_values(|x: ColorLayer| x@) =~= middle_colored_spec(
                    orig.take(i + 1),
                ));
                assert(top@.map_values(|x: ColorLayer| x@) =~= top_white_spec(
                    orig.take(i + 1),
                    nb_color_pool as int,
                ));
            }
            layer_count = layer_count + self.layers[i].layer() as usize;
            i = i + 1;
        }
        proof {
            assert(orig.take(orig.len() as int) =~= orig);
        }
        let mut result = bottom;
        result.append(&mut middle);
        result.append(&mut top);
        proof {
            assert(result@.map_values(|l: ColorLayer| l@) =~= bottom_white_spec(
                orig,
                nb_color_pool as int,
            ) + middle_colored_spec(orig) + top_white_spec(orig, nb_color_pool as int));
        }
        self.layers = result;
    }

    /// Renders the stack as `ColorCombi[layer, layer, ...]`.
    pub fn display_string(&self) -> (r: String)
        ensures
            r@.len() >= 0,
    {
        proof {
            reveal_strlit("ColorCombi[");
            reveal_strlit(", ");
            reveal_strlit("]");
        }
        let mut out = String::from_str("ColorCombi[");
        let mut i: usize = 0;
        while i < self.layers.len()
            decreases self.layers@.len() - i,
        {
            if i > 0 {
                out.append(", ");
            }
            let part = self.layers[i].display_string();
            out.append(part.as_str());
            i = i + 1;
        }
        out.append("]");
        out
    }
}

/// Like `layer_position_from_spec`, but with the running count saturating
/// at the machine maximum; this is total for arbitrarily tall stacks and
/// agrees with the mathematical position whenever the total fits.
pub open spec fn capped_position_from_spec(
    s: Seq<LayerModel>,
    hex: Seq<char>,
    target_index: int,
    i: int,
    before: int,
    seen: int,
) -> Option<int>
    decreases s.len() - i,
{
    if i >= s.len() {
        None
    } else {
        let next = if before + s[i].count <= usize::MAX {
            before + s[i].count
        } else {
            usize::MAX as int
        };
        if s[i].hex == hex {
            if seen == target_index {
                Some(before)
            } else {
                capped_position_from_spec(s, hex, target_index, i + 1, next, seen + 1)
            }
        } else {
            capped_position_from_spec(s, hex, target_index, i + 1, next, seen)
        }
    }
}

/// The saturating printed-layer position of the `target_index`-th
/// occurrence of a hex code.
pub open spec fn capped_position_spec(
    s: Seq<LayerModel>,
    hex: Seq<char>,
    target_index: int,
) -> Option<int> {
    capped_position_from_spec(s, hex, target_index, 0, 0, 0)
}

impl ColorCombi {
    /// Like `layer_position`, but total for arbitrarily tall stacks: the
    /// running count saturates at the machine maximum.
    pub fn layer_position_capped(&self, target_hex: &str, target_index: usize) -> (r: Option<
        usize,
    >)
        ensures
            match r {
                Some(p) => capped_position_spec(self@, target_hex@, target_index as int) == Some(
                    p as int,
                ),
                None => capped_position_spec(self@, target_hex@, target_index as int) is None,
            },
    {
        let mut count: usize = 0;
        let mut hex_index: usize = 0;
        let mut i: usize = 0;
        while i < self.layers.len()
            invariant
                i <= self.layers@.len(),
                self@.len() == self.layers@.len(),
                hex_index <= i,
                capped_position_spec(self@, target_hex@, target_index as int)
                    == capped_position_from_spec(
                    self@,
                    target_hex@,
                    target_index as int,
                    i as int,
                    count as int,
                    hex_index as int,
                ),
            decreases self.layers@.len() - i,
        {
            let l = &self.layers[i];
            if str_eq(l.hex_code(), target_hex) {
                if hex_index == target_index {
                    return Some(count);
                }
                hex_index = hex_index + 1;
            }
            let step = l.layer() as usize;
            count = if count <= usize::MAX - step {
                count + step
            } else {
                usize::MAX
            };
            i = i + 1;
        }
        None
    }
}

} // verus!
