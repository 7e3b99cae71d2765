//! One filament's contribution at a specific printed-layer count.

use vstd::prelude::*;
use crate::color::cmyk::Cmyk;
use crate::color::hsl::{hsl_to_cmyk_spec, Hsl};
use crate::text::dec_spec;
use vstd::string::StringExecFns;

verus! {

/// The mathematical model of a [`ColorLayer`]: its hex code as characters,
/// its printed-layer count, and its ink fractions.
pub struct LayerModel {
    /// The filament's hex code.
    pub hex: Seq<char>,
    /// How many printed layers this entry stands for.
    pub count: nat,
    /// The ink fractions measured at that layer count.
    pub cmyk: Cmyk,
}

/// A single color layer: a filament hex code, a printed-layer count, and the
/// CMYK ink fractions fixed at construction.
#[derive(Debug, Clone)]
pub struct ColorLayer {
    /// The filament's hex code, canonical uppercase at ingress.
    pub hex_code: String,
    /// The printed-layer count this measurement stands for.
    pub layer: u32,
    /// The ink fractions, fixed at construction.
    pub cmyk: Cmyk,
}

impl View for ColorLayer {
    type V = LayerModel;

    open spec fn view(&self) -> LayerModel {
        LayerModel { hex: self.hex_code@, count: self.layer as nat, cmyk: self.cmyk }
    }
}

impl ColorLayer {
    /// Builds a layer from measured HSL values; the ink fractions are
    /// converted once, here, and never change.
    pub fn new(hex_code: String, layer: u32, h: u64, s: u64, l: u64) -> (r: Self)
        requires
            (Hsl { h, s, l }).in_range(),
        ensures
            r@ == (LayerModel {
                hex: hex_code@,
                count: layer as nat,
                cmyk: hsl_to_cmyk_spec(Hsl { h, s, l }),
            }),
            r@.cmyk.in_range(),
    {
        let hsl = Hsl::new(h, s, l);
        let cmyk = hsl.to_cmyk();
        ColorLayer { hex_code, layer, cmyk }
    }

    /// Builds a layer directly from ink fractions.
    pub fn from_cmyk(hex_code: String, layer: u32, c: u64, m: u64, y: u64, k: u64) -> (r: Self)
        ensures
            r@ == (LayerModel { hex: hex_code@, count: layer as nat, cmyk: Cmyk { c, m, y, k } }),
    {
        ColorLayer { hex_code, layer, cmyk: Cmyk { c, m, y, k } }
    }

    /// The filament hex code.
    pub fn hex_code(&self) -> (r: &str)
        ensures
            r@ == self@.hex,
    {
        self.hex_code.as_str()
    }

    /// The printed-layer count.
    pub fn layer(&self) -> (r: u32)
        ensures
            r == self@.count,
    {
        self.layer
    }

    /// The ink fractions.
    pub fn cmyk(&self) -> (r: Cmyk)
        ensures
            r == self@.cmyk,
    {
        self.cmyk
    }

    /// The cyan fraction.
    pub fn c(&self) -> (r: u64)
        ensures
            r == self@.cmyk.c,
    {
        self.cmyk.c
    }

    /// The magenta fraction.
    pub fn m(&self) -> (r: u64)
        ensures
            r == self@.cmyk.m,
    {
        self.cmyk.m
    }

    /// The yellow fraction.
    pub fn y(&self) -> (r: u64)
        ensures
            r == self@.cmyk.y,
    {
        self.cmyk.y
    }

    /// The key (black) fraction.
    pub fn k(&self) -> (r: u64)
        ensures
            r == self@.cmyk.k,
    {
        self.cmyk.k
    }

    /// An exact copy of the layer.
    pub fn duplicate(&self) -> (r: Self)
        ensures
            r@ == self@,
    {
        ColorLayer { hex_code: self.hex_code.clone(), layer: self.layer, cmyk: self.cmyk }
    }

    /// Orders two layers by key fraction, darkest first: `Less` when `self`
    /// is darker than `other`.
    pub fn compare_by_k(&self, other: &Self) -> (r: core::cmp::Ordering)
        ensures
            r == core::cmp::Ordering::Less <==> self@.cmyk.k > other@.cmyk.k,
            r == core::cmp::Ordering::Equal <==> self@.cmyk.k == other@.cmyk.k,
            r == core::cmp::Ordering::Greater <==> self@.cmyk.k < other@.cmyk.k,
    {
        if self.cmyk.k > other.cmyk.k {
            core::cmp::Ordering::Less
        } else if self.cmyk.k == other.cmyk.k {
            core::cmp::Ordering::Equal
        } else {
            core::cmp::Ordering::Greater
        }
    }

    /// Merges two measurements of the same filament into one layer carrying
    /// the summed layer count.
    pub fn combine_with(&self, other: &Self) -> (r: Self)
        requires
            self@.hex == other@.hex,
            self@.cmyk == other@.cmyk,
            self@.count + other@.count <= u32::MAX,
        ensures
            r@ == (LayerModel {
                hex: self@.hex,
                count: self@.count + other@.count,
                cmyk: self@.cmyk,
            }),
    {
        ColorLayer {
            hex_code: self.hex_code.clone(),
            layer: self.layer + other.layer,
            cmyk: self.cmyk,
        }
    }

    /// Renders the layer as `hex[count]`.
    pub fn display_string(&self) -> (r: String)
        ensures
            r@ == self@.hex + seq!['['] + dec_spec(self@.count as int) + seq![']'],
    {
        proof {
            reveal_strlit("[");
            reveal_strlit("]");
        }
        let mut out = self.hex_code.clone();
        out.append("[");
        let num = crate::text::u64_to_string(self.layer as u64);
        out.append(num.as_str());
        out.append("]");
        proof {
            assert(out@ =~= self@.hex + seq!['['] + dec_spec(self@.count as int) + seq![']']);
        }
        out
    }
}

} // verus!
