//! The palette: projected colors mapped to their stacks, display names,
//! and the slot-group bookkeeping.

use vstd::prelude::*;
use crate::color::distance::{closest_color_spec, ColorDistanceMethod};
use crate::color::rgb::Rgb;
use crate::palette::color_combi::{
    bottom_white_spec, combi_rgb_spec, factorize_spec, middle_colored_spec, top_white_spec,
    total_layers_spec, ColorCombi,
};
use crate::palette::color_layer::LayerModel;
use crate::text::str_eq;

verus! {

/// The model of the stored association list: each projected color with
/// its stack's layer models, in insertion order.
pub open spec fn qview(s: Seq<(Rgb, ColorCombi)>) -> Seq<(Rgb, Seq<LayerModel>)> {
    s.map_values(|e: (Rgb, ColorCombi)| (e.0, e.1@))
}

/// The association list after a keyed insertion: the first entry carrying
/// the key is replaced, else the pair is appended at the end.
pub open spec fn insert_keyed_spec(
    entries: Seq<(Rgb, Seq<LayerModel>)>,
    key: Rgb,
    value: Seq<LayerModel>,
) -> Seq<(Rgb, Seq<LayerModel>)>
    decreases entries.len(),
{
    if entries.len() == 0 {
        seq![(key, value)]
    } else if entries[0].0 == key {
        seq![(key, value)] + entries.drop_first()
    } else {
        seq![entries[0]] + insert_keyed_spec(entries.drop_first(), key, value)
    }
}

/// If no key matches before `i` and the `i`-th matches, the keyed
/// insertion replaces exactly position `i`.
proof fn lemma_insert_keyed_at(
    s: Seq<(Rgb, Seq<LayerModel>)>,
    key: Rgb,
    value: Seq<LayerModel>,
    i: int,
)
    requires
        0 <= i < s.len(),
        forall|m: int| 0 <= m < i ==> (#[trigger] s[m]).0 != key,
        s[i].0 == key,
    ensures
        insert_keyed_spec(s, key, value) =~= s.update(i, (key, value)),
    decreases s.len(),
{
    if i == 0 {
        assert(insert_keyed_spec(s, key, value) =~= s.update(0, (key, value)));
    } else {
        lemma_insert_keyed_at(s.drop_first(), key, value, i - 1);
        assert(seq![s[0]] + s.drop_first().update(i - 1, (key, value)) =~= s.update(
            i,
            (key, value),
        ));
    }
}

/// If no key matches at all, the keyed insertion appends at the end.
proof fn lemma_insert_keyed_append(
    s: Seq<(Rgb, Seq<LayerModel>)>,
    key: Rgb,
    value: Seq<LayerModel>,
)
    requires
        forall|m: int| 0 <= m < s.len() ==> (#[trigger] s[m]).0 != key,
    ensures
        insert_keyed_spec(s, key, value) =~= s.push((key, value)),
    decreases s.len(),
{
    if s.len() > 0 {
        lemma_insert_keyed_append(s.drop_first(), key, value);
        assert(seq![s[0]] + s.drop_first().push((key, value)) =~= s.push((key, value)));
    }
}

/// Every entry of a keyed insertion is the inserted pair or one of the
/// old entries.
pub proof fn lemma_insert_keyed_membership(
    s: Seq<(Rgb, Seq<LayerModel>)>,
    key: Rgb,
    value: Seq<LayerModel>,
)
    ensures
        forall|n: int|
            0 <= n < insert_keyed_spec(s, key, value).len()
                ==> (#[trigger] insert_keyed_spec(s, key, value)[n] == (key, value) || exists|m: int|
                0 <= m < s.len() && insert_keyed_spec(s, key, value)[n] == s[m]),
    decreases s.len(),
{
    if s.len() > 0 && s[0].0 != key {
        lemma_insert_keyed_membership(s.drop_first(), key, value);
        assert forall|n: int|
            0 <= n < insert_keyed_spec(s, key, value).len() implies (#[trigger] insert_keyed_spec(
            s,
            key,
            value,
        )[n] == (key, value) || exists|m: int|
            0 <= m < s.len() && insert_keyed_spec(s, key, value)[n] == s[m]) by {
            if n > 0 {
                let inner = insert_keyed_spec(s.drop_first(), key, value);
                assert(insert_keyed_spec(s, key, value)[n] == inner[n - 1]);
                if inner[n - 1] == (key, value) {
                } else {
                    let m = choose|m: int| 0 <= m < s.drop_first().len() && inner[n - 1]
                        == s.drop_first()[m];
                    assert(insert_keyed_spec(s, key, value)[n] == s[m + 1]);
                }
            } else {
                assert(insert_keyed_spec(s, key, value)[0] == s[0]);
            }
        }
    }
}

/// The first entry at position `i` or later whose key equals the color.
pub open spec fn lookup_from_spec(
    entries: Seq<(Rgb, ColorCombi)>,
    color: Rgb,
    i: int,
) -> Option<Seq<LayerModel>>
    decreases entries.len() - i,
{
    if i >= entries.len() {
        None
    } else if entries[i].0 == color {
        Some(entries[i].1@)
    } else {
        lookup_from_spec(entries, color, i + 1)
    }
}

/// The display name of the first entry at position `i` or later whose hex
/// code matches.
pub open spec fn name_lookup_from_spec(
    entries: Seq<(String, String)>,
    hex: Seq<char>,
    i: int,
) -> Option<Seq<char>>
    decreases entries.len() - i,
{
    if i < 0 || i >= entries.len() {
        None
    } else if entries[i].0@ == hex {
        Some(entries[i].1@)
    } else {
        name_lookup_from_spec(entries, hex, i + 1)
    }
}

/// The display name stored under a hex code: the first matching entry.
pub open spec fn name_lookup_spec(entries: Seq<(String, String)>, hex: Seq<char>) -> Option<
    Seq<char>,
> {
    name_lookup_from_spec(entries, hex, 0)
}

/// A palette of realizable colors: the unique projected RGB keys with their
/// stacks, hex-code display names, and slot-group assignments.
#[derive(Debug)]
pub struct Palette {
    /// Projected RGB keys with their stacks; keys are unique.
    pub quantized_colors: Vec<(Rgb, ColorCombi)>,
    /// Hex code to display name.
    pub hex_codes_map: Vec<(String, String)>,
    /// Printed layers per filament slot group.
    pub nb_layers: u32,
    /// Number of filament slot groups.
    pub nb_groups: usize,
    /// Total printed layers per pixel: `nb_layers * nb_groups`.
    pub layer_count: usize,
    /// One hex-code list per physical slot, plus a trailing all-white slot.
    pub hex_color_group_list: Vec<Vec<String>>,
}

impl Palette {
    /// The projected colors, in insertion order.
    pub open spec fn keys_spec(&self) -> Seq<Rgb> {
        self.quantized_colors@.map_values(|e: (Rgb, ColorCombi)| e.0)
    }

    /// Unique keys: no projected color appears twice.
    pub open spec fn keys_unique_spec(&self) -> bool {
        forall|i: int, j: int|
            0 <= i < j < self.keys_spec().len() ==> #[trigger] self.keys_spec()[i]
                != #[trigger] self.keys_spec()[j]
    }

    /// An empty palette for the given per-group layer budget.
    pub fn new(nb_layers: u32) -> (r: Self)
        ensures
            r.quantized_colors@.len() == 0,
            r.hex_codes_map@.len() == 0,
            r.nb_layers == nb_layers,
            r.nb_groups == 0,
            r.layer_count == 0,
            r.hex_color_group_list@.len() == 0,
    {
        Palette {
            quantized_colors: Vec::new(),
            hex_codes_map: Vec::new(),
            nb_layers,
            nb_groups: 0,
            layer_count: 0,
            hex_color_group_list: Vec::new(),
        }
    }

    /// The number of realizable colors.
    pub fn color_count(&self) -> (r: usize)
        ensures
            r == self.quantized_colors@.len(),
    {
        self.quantized_colors.len()
    }

    /// The realizable colors, in insertion order.
    pub fn colors(&self) -> (r: Vec<Rgb>)
        ensures
            r@ == self.keys_spec(),
    {
        let mut out: Vec<Rgb> = Vec::new();
        let mut i: usize = 0;
        while i < self.quantized_colors.len()
            invariant
                i <= self.quantized_colors@.len(),
                out@.len() == i,
                forall|j: int| 0 <= j < i ==> #[trigger] out@[j] == self.keys_spec()[j],
            decreases self.quantized_colors@.len() - i,
        {
            out.push(self.quantized_colors[i].0);
            i = i + 1;
        }
        proof {
            assert(out@ =~= self.keys_spec());
        }
        out
    }

    /// The stack stored under a color: the first entry with that key, as a
    /// sequence of layer models, or `None`.
    pub open spec fn lookup_spec(&self, color: Rgb) -> Option<Seq<LayerModel>> {
        lookup_from_spec(self.quantized_colors@, color, 0)
    }

    /// The stack stored under a projected color, if any: the first entry
    /// with that key.
    pub fn get_combi(&self, color: &Rgb) -> (r: Option<&ColorCombi>)
        ensures
            match r {
                Some(c) => self.lookup_spec(*color) == Some(c@),
                None => self.lookup_spec(*color) is None,
            },
    {
        let mut i: usize = 0;
        while i < self.quantized_colors.len()
            invariant
                i <= self.quantized_colors@.len(),
                self.lookup_spec(*color) == lookup_from_spec(
                    self.quantized_colors@,
                    *color,
                    i as int,
                ),
            decreases self.quantized_colors@.len() - i,
        {
            let entry = &self.quantized_colors[i];
            if entry.0.r == color.r && entry.0.g == color.g && entry.0.b == color.b {
                proof {
                    assert(self.quantized_colors@[i as int].0 == *color);
                }
                return Some(&entry.1);
            }
            i = i + 1;
        }
        None
    }

    /// The display name recorded for a hex code: the first matching entry.
    pub fn get_color_name(&self, hex_code: &str) -> (r: Option<&String>)
        ensures
            match r {
                Some(n) => name_lookup_spec(self.hex_codes_map@, hex_code@) == Some(n@),
                None => name_lookup_spec(self.hex_codes_map@, hex_code@) is None,
            },
    {
        let mut i: usize = 0;
        while i < self.hex_codes_map.len()
            invariant
                i <= self.hex_codes_map@.len(),
                name_lookup_spec(self.hex_codes_map@, hex_code@) == name_lookup_from_spec(
                    self.hex_codes_map@,
                    hex_code@,
                    i as int,
                ),
            decreases self.hex_codes_map@.len() - i,
        {
            let entry = &self.hex_codes_map[i];
            if str_eq(entry.0.as_str(), hex_code) {
                return Some(&entry.1);
            }
            i = i + 1;
        }
        None
    }

    /// All hex codes with recorded names, in insertion order.
    pub fn hex_codes(&self) -> (r: Vec<String>)
        ensures
            r@.len() == self.hex_codes_map@.len(),
            forall|i: int|
                0 <= i < r@.len() ==> #[trigger] r@[i]@ == self.hex_codes_map@[i].0@,
    {
        let mut out: Vec<String> = Vec::new();
        let mut i: usize = 0;
        while i < self.hex_codes_map.len()
            invariant
                i <= self.hex_codes_map@.len(),
                out@.len() == i,
                forall|j: int| 0 <= j < i ==> #[trigger] out@[j]@ == self.hex_codes_map@[j].0@,
            decreases self.hex_codes_map@.len() - i,
        {
            out.push(self.hex_codes_map[i].0.clone());
            i = i + 1;
        }
        out
    }

    /// The number of filament slot groups.
    pub fn nb_groups(&self) -> (r: usize)
        ensures
            r == self.nb_groups,
    {
        self.nb_groups
    }

    /// The total printed layers per pixel column.
    pub fn layer_count(&self) -> (r: usize)
        ensures
            r == self.layer_count,
    {
        self.layer_count
    }

    /// The per-slot hex code lists.
    pub fn hex_color_groups(&self) -> (r: &Vec<Vec<String>>)
        ensures
            r == &self.hex_color_group_list,
    {
        &self.hex_color_group_list
    }

    /// The closest realizable color to a target, or `None` for an empty
    /// palette.
    pub fn find_closest(&self, color: &Rgb, method: ColorDistanceMethod) -> (r: Option<Rgb>)
        ensures
            match r {
                Some(c) => self.keys_spec().len() > 0 && c == closest_color_spec(
                    method,
                    *color,
                    self.keys_spec(),
                ),
                None => self.keys_spec().len() == 0,
            },
    {
        let colors = self.colors();
        if colors.len() == 0 {
            return None;
        }
        match crate::color::distance::find_closest_color(color, colors.as_slice(), method) {
            Ok(c) => Some(c),
            Err(_) => None,
        }
    }

    /// Inserts a stack under its projected color; an existing entry with
    /// the same key is replaced in place (last write wins), else the pair
    /// is appended: exactly [`insert_keyed_spec`] on the stored list.
    pub fn add_combi(&mut self, combi: ColorCombi)
        ensures
            final(self).nb_layers == old(self).nb_layers,
            final(self).nb_groups == old(self).nb_groups,
            final(self).layer_count == old(self).layer_count,
            final(self).hex_codes_map == old(self).hex_codes_map,
            final(self).hex_color_group_list == old(self).hex_color_group_list,
            qview(final(self).quantized_colors@) == insert_keyed_spec(
                qview(old(self).quantized_colors@),
                combi_rgb_spec(combi@),
                combi@,
            ),
            final(self).quantized_colors@.len() <= old(self).quantized_colors@.len() + 1,
            final(self).quantized_colors@.len() >= 1,
            forall|i: int|
                0 <= i < final(self).quantized_colors@.len()
                    ==> (#[trigger] final(self).quantized_colors@[i].1@ == combi@ || exists|j: int|
                    0 <= j < old(self).quantized_colors@.len() && final(self).quantized_colors@[i]
                        == #[trigger] old(self).quantized_colors@[j]),
    {
        let color = combi.compute_rgb();
        let mut i: usize = 0;
        while i < self.quantized_colors.len()
            invariant
                i <= self.quantized_colors@.len(),
                self == old(self),
                color == combi_rgb_spec(combi@),
                forall|m: int|
                    0 <= m < i ==> (#[trigger] self.quantized_colors@[m]).0 != color,
            decreases self.quantized_colors@.len() - i,
        {
            let entry = &self.quantized_colors[i];
            if entry.0.r == color.r && entry.0.g == color.g && entry.0.b == color.b {
                proof {
                    assert forall|m: int|
                        0 <= m < i implies (#[trigger] qview(self.quantized_colors@)[m]).0
                        != color by {
                        assert(qview(self.quantized_colors@)[m].0
                            == self.quantized_colors@[m].0);
                    }
                    lemma_insert_keyed_at(
                        qview(self.quantized_colors@),
                        color,
                        combi@,
                        i as int,
                    );
                }
                let mut replaced = self.quantized_colors.remove(i);
                replaced = (color, combi);
                self.quantized_colors.insert(i, replaced);
                proof {
                    assert(qview(self.quantized_colors@) =~= qview(
                        old(self).quantized_colors@,
                    ).update(i as int, (color, combi@)));
                    assert(self.quantized_colors@[i as int].0 == combi_rgb_spec(combi@)
                        && self.quantized_colors@[i as int].1@ == combi@);
                }
                return ;
            }
            i = i + 1;
        }
        proof {
            assert forall|m: int|
                0 <= m < self.quantized_colors@.len() implies (#[trigger] qview(
                self.quantized_colors@,
            )[m]).0 != color by {
                assert(qview(self.quantized_colors@)[m].0 == self.quantized_colors@[m].0);
            }
            lemma_insert_keyed_append(qview(self.quantized_colors@), color, combi@);
        }
        self.quantized_colors.push((color, combi));
        proof {
            assert(qview(self.quantized_colors@) =~= qview(old(self).quantized_colors@).push(
                (color, combi@),
            ));
            let ghost n = self.quantized_colors@.len() - 1;
            assert(self.quantized_colors@[n].0 == combi_rgb_spec(combi@)
                && self.quantized_colors@[n].1@ == combi@);
        }
    }

    /// Records the hex-code display names.
    pub fn set_hex_codes(&mut self, map: Vec<(String, String)>)
        ensures
            *final(self) == (Palette { hex_codes_map: map, ..*old(self) }),
    {
        self.hex_codes_map = map;
    }

    /// Records the slot-group count; the per-pixel layer budget follows.
    pub fn set_nb_groups(&mut self, nb_groups: usize)
        requires
            old(self).nb_layers * nb_groups <= usize::MAX,
        ensures
            final(self).nb_groups == nb_groups,
            final(self).layer_count == old(self).nb_layers * nb_groups,
            final(self).nb_layers == old(self).nb_layers,
            final(self).quantized_colors == old(self).quantized_colors,
            final(self).hex_codes_map == old(self).hex_codes_map,
            final(self).hex_color_group_list == old(self).hex_color_group_list,
    {
        self.nb_groups = nb_groups;
        self.layer_count = (self.nb_layers as usize) * nb_groups;
    }

    /// Records the per-slot hex code lists.
    pub fn set_hex_color_groups(&mut self, groups: Vec<Vec<String>>)
        ensures
            *final(self) == (Palette { hex_color_group_list: groups, ..*old(self) }),
    {
        self.hex_color_group_list = groups;
    }
}

} // verus!
