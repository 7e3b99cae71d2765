//! Color distance methods and nearest-color search.
//!
//! Two metrics are offered: squared Euclidean distance on the 8-bit RGB
//! channels, and the squared CIE76 distance on fixed-point Lab coordinates.
//! The nearest-color search scans the palette in order; on equal distance
//! the earliest color wins, which makes palette order part of the contract.

use vstd::prelude::*;
use crate::color::cielab::{lab_of_rgb_spec, CieLab};
use crate::color::rgb::Rgb;
use crate::error::PixestlError;

verus! {

/// Which metric the nearest-color search uses.
#[derive(Debug, Clone, Copy, PartialEq, Eq, Structural)]
pub enum ColorDistanceMethod {
    /// Squared Euclidean distance on the RGB channels: fast, less uniform.
    Rgb,
    /// Squared CIE76 distance in Lab space: perceptually uniform.
    CieLab,
}

impl Default for ColorDistanceMethod {
    /// The default metric is the perceptually uniform one.
    fn default() -> (r: Self)
        ensures
            r == ColorDistanceMethod::CieLab,
    {
        ColorDistanceMethod::CieLab
    }
}

impl core::str::FromStr for ColorDistanceMethod {
    type Err = String;

    fn from_str(s: &str) -> Result<Self, String> {
        if crate::text::str_eq(s, "RGB") {
            Ok(ColorDistanceMethod::Rgb)
        } else if crate::text::str_eq(s, "CIELab") {
            Ok(ColorDistanceMethod::CieLab)
        } else {
            Err(s.to_owned())
        }
    }
}

impl ColorDistanceMethod {
    /// The canonical name of the metric.
    pub fn as_str(&self) -> (r: &'static str)
        ensures
            *self == ColorDistanceMethod::Rgb ==> r@ == "RGB"@,
            *self == ColorDistanceMethod::CieLab ==> r@ == "CIELab"@,
    {
        match self {
            ColorDistanceMethod::Rgb => "RGB",
            ColorDistanceMethod::CieLab => "CIELab",
        }
    }
}

/// The squared Euclidean distance between two colors in RGB space.
pub open spec fn rgb_dist_spec(a: Rgb, b: Rgb) -> int {
    (a.r - b.r) * (a.r - b.r) + (a.g - b.g) * (a.g - b.g) + (a.b - b.b) * (a.b - b.b)
}

impl Rgb {
    /// Computes the squared Euclidean RGB distance to another color.
    pub fn distance(&self, other: &Rgb) -> (r: u32)
        ensures
            r == rgb_dist_spec(*self, *other),
    {
        let dr = self.r as i32 - other.r as i32;
        let dg = self.g as i32 - other.g as i32;
        let db = self.b as i32 - other.b as i32;
        proof {
            assert(0 <= dr * dr <= 65025 && 0 <= dg * dg <= 65025 && 0 <= db * db <= 65025)
                by (nonlinear_arith)
                requires
                    -255 <= dr <= 255,
                    -255 <= dg <= 255,
                    -255 <= db <= 255,
            ;
        }
        (dr * dr + dg * dg + db * db) as u32
    }
}

/// The distance between a target pixel and one palette entry under the
/// chosen metric. The Lab coordinates of both sides are those of their RGB
/// values.
pub open spec fn method_dist_spec(method: ColorDistanceMethod, target: Rgb, entry: Rgb) -> int {
    match method {
        ColorDistanceMethod::Rgb => rgb_dist_spec(target, entry),
        ColorDistanceMethod::CieLab => CieLab::delta_e_sq_spec(
            lab_of_rgb_spec(target),
            lab_of_rgb_spec(entry),
        ),
    }
}

/// The first color among the leading `n` palette entries whose distance to
/// the target is minimal: the scan keeps the current best and replaces it
/// only on a strictly smaller distance.
pub open spec fn closest_prefix_spec(
    method: ColorDistanceMethod,
    target: Rgb,
    colors: Seq<Rgb>,
    n: int,
) -> Rgb
    decreases n,
{
    if n <= 1 {
        colors[0]
    } else {
        let prev = closest_prefix_spec(method, target, colors, n - 1);
        if method_dist_spec(method, target, colors[n - 1]) < method_dist_spec(
            method,
            target,
            prev,
        ) {
            colors[n - 1]
        } else {
            prev
        }
    }
}

/// The first palette color at minimal distance from the target.
pub open spec fn closest_color_spec(
    method: ColorDistanceMethod,
    target: Rgb,
    colors: Seq<Rgb>,
) -> Rgb {
    closest_prefix_spec(method, target, colors, colors.len() as int)
}

/// The chosen color is one of the palette entries.
pub proof fn lemma_closest_in_palette(method: ColorDistanceMethod, target: Rgb, colors: Seq<Rgb>)
    requires
        colors.len() > 0,
    ensures
        colors.contains(closest_color_spec(method, target, colors)),
{
    lemma_closest_prefix_in(method, target, colors, colors.len() as int);
}

proof fn lemma_closest_prefix_in(
    method: ColorDistanceMethod,
    target: Rgb,
    colors: Seq<Rgb>,
    n: int,
)
    requires
        0 < n <= colors.len(),
    ensures
        colors.contains(closest_prefix_spec(method, target, colors, n)),
    decreases n,
{
    if n <= 1 {
        assert(closest_prefix_spec(method, target, colors, n) == colors[0]);
    } else {
        lemma_closest_prefix_in(method, target, colors, n - 1);
    }
}

/// No palette entry is closer to the target than the chosen color.
pub proof fn lemma_closest_is_minimal(method: ColorDistanceMethod, target: Rgb, colors: Seq<Rgb>)
    requires
        colors.len() > 0,
    ensures
        forall|j: int|
            0 <= j < colors.len() ==> method_dist_spec(
                method,
                target,
                closest_color_spec(method, target, colors),
            ) <= method_dist_spec(method, target, #[trigger] colors[j]),
{
    lemma_closest_prefix_minimal(method, target, colors, colors.len() as int);
}

proof fn lemma_closest_prefix_minimal(
    method: ColorDistanceMethod,
    target: Rgb,
    colors: Seq<Rgb>,
    n: int,
)
    requires
        0 < n <= colors.len(),
    ensures
        forall|j: int|
            0 <= j < n ==> method_dist_spec(
                method,
                target,
                closest_prefix_spec(method, target, colors, n),
            ) <= method_dist_spec(method, target, #[trigger] colors[j]),
    decreases n,
{
    if n > 1 {
        lemma_closest_prefix_minimal(method, target, colors, n - 1);
    }
}

/// Finds the first palette color at minimal squared RGB distance.
fn find_closest_rgb(target: &Rgb, colors: &[Rgb]) -> (r: Rgb)
    requires
        colors@.len() > 0,
    ensures
        r == closest_color_spec(ColorDistanceMethod::Rgb, *target, colors@),
{
    let mut best: Rgb = colors[0];
    let mut best_dist: u32 = target.distance(&colors[0]);
    let mut i: usize = 1;
    while i < colors.len()
        invariant
            1 <= i <= colors@.len(),
            best == closest_prefix_spec(ColorDistanceMethod::Rgb, *target, colors@, i as int),
            best_dist == method_dist_spec(ColorDistanceMethod::Rgb, *target, best),
        decreases colors@.len() - i,
    {
        let d = target.distance(&colors[i]);
        if d < best_dist {
            best = colors[i];
            best_dist = d;
        }
        i = i + 1;
    }
    best
}

/// Finds the first palette color at minimal squared CIE76 distance, using
/// Lab coordinates precomputed for every palette entry.
fn find_closest_cielab(target: &Rgb, colors: &[Rgb], palette_labs: &[CieLab]) -> (r: Rgb)
    requires
        colors@.len() > 0,
        palette_labs@.len() == colors@.len(),
        forall|i: int|
            0 <= i < colors@.len() ==> #[trigger] palette_labs@[i] == lab_of_rgb_spec(colors@[i])
                && palette_labs@[i].in_range(),
    ensures
        r == closest_color_spec(ColorDistanceMethod::CieLab, *target, colors@),
{
    let target_lab = CieLab::from_rgb(*target);
    let mut best: Rgb = colors[0];
    let mut best_dist: u64 = target_lab.delta_e_sq(&palette_labs[0]);
    let mut i: usize = 1;
    while i < colors.len()
        invariant
            1 <= i <= colors@.len(),
            palette_labs@.len() == colors@.len(),
            forall|j: int|
                0 <= j < colors@.len() ==> #[trigger] palette_labs@[j] == lab_of_rgb_spec(
                    colors@[j],
                ) && palette_labs@[j].in_range(),
            target_lab == lab_of_rgb_spec(*target),
            target_lab.in_range(),
            best == closest_prefix_spec(ColorDistanceMethod::CieLab, *target, colors@, i as int),
            best_dist == method_dist_spec(ColorDistanceMethod::CieLab, *target, best),
        decreases colors@.len() - i,
    {
        let d = target_lab.delta_e_sq(&palette_labs[i]);
        if d < best_dist {
            best = colors[i];
            best_dist = d;
        }
        i = i + 1;
    }
    best
}

/// Precomputes the Lab coordinates of every palette entry.
pub fn palette_labs_of(colors: &[Rgb]) -> (r: Vec<CieLab>)
    ensures
        r@.len() == colors@.len(),
        forall|i: int|
            0 <= i < colors@.len() ==> #[trigger] r@[i] == lab_of_rgb_spec(colors@[i])
                && r@[i].in_range(),
{
    let mut labs: Vec<CieLab> = Vec::new();
    let mut i: usize = 0;
    while i < colors.len()
        invariant
            i <= colors@.len(),
            labs@.len() == i,
            forall|j: int|
                0 <= j < i ==> #[trigger] labs@[j] == lab_of_rgb_spec(colors@[j])
                    && labs@[j].in_range(),
        decreases colors@.len() - i,
    {
        labs.push(CieLab::from_rgb(colors[i]));
        i = i + 1;
    }
    labs
}

/// Finds the closest palette color to the target under the chosen method.
/// An empty palette is refused with [`PixestlError::InvalidPalette`].
pub fn find_closest_color(target: &Rgb, colors: &[Rgb], method: ColorDistanceMethod) -> (res:
    Result<Rgb, PixestlError>)
    ensures
        match res {
            Ok(c) => colors@.len() > 0 && c == closest_color_spec(method, *target, colors@),
            Err(e) => colors@.len() == 0 && e is InvalidPalette,
        },
{
    if colors.len() == 0 {
        return Err(
            PixestlError::InvalidPalette(String::from_str("Color list cannot be empty")),
        );
    }
    match method {
        ColorDistanceMethod::Rgb => Ok(find_closest_rgb(target, colors)),
        ColorDistanceMethod::CieLab => {
            let labs = palette_labs_of(colors);
            Ok(find_closest_cielab(target, colors, labs.as_slice()))
        },
    }
}

/// Finds the closest palette color using Lab coordinates precomputed by
/// [`palette_labs_of`], avoiding one conversion per palette entry and pixel.
/// An empty palette is refused with [`PixestlError::InvalidPalette`].
pub fn find_closest_color_precomputed(
    target: &Rgb,
    colors: &[Rgb],
    palette_labs: &[CieLab],
    method: ColorDistanceMethod,
) -> (res: Result<Rgb, PixestlError>)
    requires
        palette_labs@.len() == colors@.len(),
        forall|i: int|
            0 <= i < colors@.len() ==> #[trigger] palette_labs@[i] == lab_of_rgb_spec(colors@[i])
                && palette_labs@[i].in_range(),
    ensures
        match res {
            Ok(c) => colors@.len() > 0 && c == closest_color_spec(method, *target, colors@),
            Err(e) => colors@.len() == 0 && e is InvalidPalette,
        },
{
    if colors.len() == 0 {
        return Err(
            PixestlError::InvalidPalette(String::from_str("Color list cannot be empty")),
        );
    }
    match method {
        ColorDistanceMethod::Rgb => Ok(find_closest_rgb(target, colors)),
        ColorDistanceMethod::CieLab => Ok(find_closest_cielab(target, colors, palette_labs)),
    }
}

} // verus!
