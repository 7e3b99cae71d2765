//! HSL color in fixed point: hue in thousandths of a degree, saturation and
//! lightness in thousandths of a percent.

use vstd::prelude::*;
use crate::color::cmyk::{Cmyk, CMYK_ONE};
use crate::color::rgb::Rgb;

verus! {

/// The fixed-point representation of 100 percent (and of the unit fraction
/// for channel values): one hundred thousand parts.
pub const HSL_ONE: u64 = 100_000;

/// HSL color. `h` is in thousandths of a degree (`0 ..= 360000`); `s` and
/// `l` are in thousandths of a percent (`0 ..= 100000`).
#[derive(Debug, Clone, Copy, PartialEq, Eq, Structural)]
pub struct Hsl {
    /// Hue in thousandths of a degree.
    pub h: u64,
    /// Saturation in thousandths of a percent.
    pub s: u64,
    /// Lightness in thousandths of a percent.
    pub l: u64,
}

/// One sector of the hue-to-channel map. `p` and `q` are channel fractions
/// scaled by [`HSL_ONE`]; `t` is a hue offset in units of 1/1080000 of a
/// turn, possibly out of range by up to one turn before wrapping.
pub open spec fn hue_to_channel_spec(p: int, q: int, t0: int) -> int {
    let t = if t0 < 0 {
        t0 + 1080000
    } else if t0 > 1080000 {
        t0 - 1080000
    } else {
        t0
    };
    if t < 180000 {
        p + (q - p) * t / 180000
    } else if t < 540000 {
        q
    } else if t < 720000 {
        p + (q - p) * (720000 - t) / 180000
    } else {
        p
    }
}

/// The two interpolation anchors `q` (upper) and `p` (lower) of the HSL
/// reconstruction, as channel fractions scaled by [`HSL_ONE`].
pub open spec fn hsl_q_spec(s: int, l: int) -> int {
    if l < 50000 {
        l * (100000 + s) / 100000
    } else {
        l + s - l * s / 100000
    }
}

/// The red, green and blue channel fractions (scaled by [`HSL_ONE`]) that an
/// HSL color reconstructs to.
pub open spec fn hsl_channels_spec(c: Hsl) -> (int, int, int) {
    if c.s == 0 {
        (c.l as int, c.l as int, c.l as int)
    } else {
        let q = hsl_q_spec(c.s as int, c.l as int);
        let p = 2 * c.l - q;
        let t = 3 * c.h;
        (
            hue_to_channel_spec(p, q, t + 360000),
            hue_to_channel_spec(p, q, t),
            hue_to_channel_spec(p, q, t - 360000),
        )
    }
}

/// A channel fraction rounded to an 8-bit channel value.
pub open spec fn frac_to_u8_spec(v: int) -> u8 {
    ((v * 255 + 50000) / 100000) as u8
}

/// The 8-bit color an HSL value reconstructs to.
pub open spec fn hsl_to_rgb_spec(c: Hsl) -> Rgb {
    let (r, g, b) = hsl_channels_spec(c);
    Rgb { r: frac_to_u8_spec(r), g: frac_to_u8_spec(g), b: frac_to_u8_spec(b) }
}

/// The CMYK decomposition of the exact (unquantized) HSL channel fractions:
/// `K` complements the largest channel and each chromatic component is its
/// deficit relative to that maximum.
pub open spec fn hsl_to_cmyk_spec(c: Hsl) -> Cmyk {
    if c.s == 0 {
        Cmyk { c: 0, m: 0, y: 0, k: ((100000 - c.l) * 10) as u64 }
    } else {
        let (r, g, b) = hsl_channels_spec(c);
        let max = if r >= g && r >= b {
            r
        } else if g >= b {
            g
        } else {
            b
        };
        if max == 0 {
            Cmyk { c: 0, m: 0, y: 0, k: CMYK_ONE }
        } else {
            Cmyk {
                c: ((max - r) * (CMYK_ONE as int) / max) as u64,
                m: ((max - g) * (CMYK_ONE as int) / max) as u64,
                y: ((max - b) * (CMYK_ONE as int) / max) as u64,
                k: ((100000 - max) * 10) as u64,
            }
        }
    }
}

/// A sector value stays between its anchors when the lower anchor does not
/// exceed the upper one.
proof fn lemma_hue_channel_range(p: int, q: int, t0: int)
    requires
        0 <= p <= q <= 100000,
        -360000 <= t0,
    ensures
        0 <= hue_to_channel_spec(p, q, t0) <= 100000,
{
    let t = if t0 < 0 {
        t0 + 1080000
    } else if t0 > 1080000 {
        t0 - 1080000
    } else {
        t0
    };
    assert(t >= 0);
    if t < 180000 {
        assert(0 <= (q - p) * t / 180000 <= q - p) by (nonlinear_arith)
            requires
                0 <= q - p <= 100000,
                0 <= t < 180000,
        ;
    } else if t < 540000 {
    } else if t < 720000 {
        assert(0 <= (q - p) * (720000 - t) / 180000 <= q - p) by (nonlinear_arith)
            requires
                0 <= q - p <= 100000,
                0 < 720000 - t <= 180000,
        ;
    } else {
    }
}

/// The anchors stay within the unit range: `0 <= p <= q <= 1`.
proof fn lemma_hsl_anchors_range(s: int, l: int)
    requires
        1 <= s <= 100000,
        0 <= l <= 100000,
    ensures
        0 <= 2 * l - hsl_q_spec(s, l) <= hsl_q_spec(s, l) <= 100000,
{
    let q = hsl_q_spec(s, l);
    if l < 50000 {
        assert(l <= l * (100000 + s) / 100000 <= 2 * l && l * (100000 + s) / 100000 <= 100000)
            by (nonlinear_arith)
            requires
                1 <= s <= 100000,
                0 <= l < 50000,
        ;
    } else {
        assert(l * s / 100000 <= s && l <= l + s - l * s / 100000 <= 100000 && l + s - l * s
            / 100000 <= 2 * l) by (nonlinear_arith)
            requires
                1 <= s <= 100000,
                50000 <= l <= 100000,
        ;
    }
}

/// One sector of the hue-to-channel map.
fn hue_to_channel(p: u64, q: u64, t0: i64) -> (r: u64)
    requires
        p <= q <= 100000,
        -360000 <= t0,
        t0 <= 4_000_000_000,
    ensures
        r == hue_to_channel_spec(p as int, q as int, t0 as int),
        r <= 100000,
{
    proof {
        lemma_hue_channel_range(p as int, q as int, t0 as int);
    }
    let t: i64 = if t0 < 0 {
        t0 + 1080000
    } else if t0 > 1080000 {
        t0 - 1080000
    } else {
        t0
    };
    if t < 180000 {
        let diff = q - p;
        let add = diff * (t as u64) / 180000;
        proof {
            assert(diff * t <= 100000 * 180000) by (nonlinear_arith)
                requires
                    0 <= diff <= 100000u64,
                    0 <= t < 180000i64,
            ;
            assert((q - p) as int * (t as int) / 180000 >= 0) by (nonlinear_arith)
                requires
                    0 <= diff == (q - p) as int,
                    t >= 0,
            ;
        }
        p + add
    } else if t < 540000 {
        q
    } else if t < 720000 {
        let diff = q - p;
        let rem = (720000 - t) as u64;
        let add = diff * rem / 180000;
        proof {
            assert(diff * rem <= 100000 * 180000) by (nonlinear_arith)
                requires
                    0 <= diff <= 100000u64,
                    0 < rem <= 180000u64,
            ;
        }
        p + add
    } else {
        p
    }
}

/// A channel fraction rounded to an 8-bit value.
fn frac_to_u8(v: u64) -> (r: u8)
    requires
        v <= 100000,
    ensures
        r == frac_to_u8_spec(v as int),
{
    ((v * 255 + 50000) / 100000) as u8
}

impl Hsl {
    /// Builds an HSL color from hue (thousandths of a degree) and
    /// saturation / lightness (thousandths of a percent).
    pub fn new(h: u64, s: u64, l: u64) -> (c: Self)
        ensures
            c == (Hsl { h, s, l }),
    {
        Hsl { h, s, l }
    }

    /// Within the nominal HSL ranges.
    pub open spec fn in_range(&self) -> bool {
        self.h <= 360_000 && self.s <= 100_000 && self.l <= 100_000
    }

    /// The exact channel fractions of this color, scaled by [`HSL_ONE`].
    fn channels(&self) -> (r: (u64, u64, u64))
        requires
            self.in_range(),
        ensures
            (r.0 as int, r.1 as int, r.2 as int) == hsl_channels_spec(*self),
            r.0 <= 100000 && r.1 <= 100000 && r.2 <= 100000,
    {
        if self.s == 0 {
            (self.l, self.l, self.l)
        } else {
            proof {
                lemma_hsl_anchors_range(self.s as int, self.l as int);
            }
            let q: u64 = if self.l < 50000 {
                self.l * (100000 + self.s) / 100000
            } else {
                self.l + self.s - self.l * self.s / 100000
            };
            let p: u64 = 2 * self.l - q;
            let t: i64 = 3 * (self.h as i64);
            let r = hue_to_channel(p, q, t + 360000);
            let g = hue_to_channel(p, q, t);
            let b = hue_to_channel(p, q, t - 360000);
            (r, g, b)
        }
    }

    /// Reconstructs the 8-bit RGB color, rounding each channel.
    pub fn to_rgb(&self) -> (r: Rgb)
        requires
            self.in_range(),
        ensures
            r == hsl_to_rgb_spec(*self),
    {
        let (cr, cg, cb) = self.channels();
        Rgb { r: frac_to_u8(cr), g: frac_to_u8(cg), b: frac_to_u8(cb) }
    }

    /// Converts to CMYK directly from the exact channel fractions, without
    /// quantizing through 8-bit channels.
    pub fn to_cmyk(&self) -> (r: Cmyk)
        requires
            self.in_range(),
        ensures
            r == hsl_to_cmyk_spec(*self),
            r.in_range(),
    {
        if self.s == 0 {
            Cmyk { c: 0, m: 0, y: 0, k: (100000 - self.l) * 10 }
        } else {
            let (cr, cg, cb) = self.channels();
            let max = if cr >= cg && cr >= cb {
                cr
            } else if cg >= cb {
                cg
            } else {
                cb
            };
            if max == 0 {
                Cmyk { c: 0, m: 0, y: 0, k: CMYK_ONE }
            } else {
                let c = (max - cr) * CMYK_ONE / max;
                let m = (max - cg) * CMYK_ONE / max;
                let y = (max - cb) * CMYK_ONE / max;
                let k = (100000 - max) * 10;
                proof {
                    crate::color::rgb::lemma_cmyk_frac_le_one((max - cr) as int, max as int);
                    crate::color::rgb::lemma_cmyk_frac_le_one((max - cg) as int, max as int);
                    crate::color::rgb::lemma_cmyk_frac_le_one((max - cb) as int, max as int);
                }
                Cmyk { c, m, y, k }
            }
        }
    }
}

/// The hue of an 8-bit color, in thousandths of a degree: sixty degrees per
/// sector, offset by the dominant channel, floor-divided by the chroma.
pub open spec fn hue_of_rgb_spec(c: Rgb) -> int {
    let r = c.r as int;
    let g = c.g as int;
    let b = c.b as int;
    let max = crate::color::rgb::max3_spec(c.r, c.g, c.b) as int;
    let min = min3_spec(c.r, c.g, c.b) as int;
    let delta = max - min;
    if max == min {
        0
    } else if max == r {
        if g >= b {
            60000 * (g - b) / delta
        } else {
            360000 - (60000 * (b - g) + delta - 1) / delta
        }
    } else if max == g {
        if b >= r {
            120000 + 60000 * (b - r) / delta
        } else {
            120000 - (60000 * (r - b) + delta - 1) / delta
        }
    } else {
        if r >= g {
            240000 + 60000 * (r - g) / delta
        } else {
            240000 - (60000 * (g - r) + delta - 1) / delta
        }
    }
}

/// The saturation of an 8-bit color in thousandths of a percent: the chroma
/// over the headroom of the lightness.
pub open spec fn sat_of_rgb_spec(c: Rgb) -> int {
    let max = crate::color::rgb::max3_spec(c.r, c.g, c.b) as int;
    let min = min3_spec(c.r, c.g, c.b) as int;
    if max == min {
        0
    } else {
        let denom = if max + min <= 255 {
            max + min
        } else {
            510 - max - min
        };
        (max - min) * 100000 / denom
    }
}

/// The lightness of an 8-bit color in thousandths of a percent: the mean of
/// the extreme channels as a fraction of full scale.
pub open spec fn light_of_rgb_spec(c: Rgb) -> int {
    (crate::color::rgb::max3_spec(c.r, c.g, c.b) as int + min3_spec(c.r, c.g, c.b) as int)
        * 100000 / 510
}

/// The smallest of three channel values.
pub open spec fn min3_spec(r: u8, g: u8, b: u8) -> u8 {
    if r <= g && r <= b {
        r
    } else if g <= b {
        g
    } else {
        b
    }
}

fn min3(r: u8, g: u8, b: u8) -> (m: u8)
    ensures
        m == min3_spec(r, g, b),
{
    if r <= g && r <= b {
        r
    } else if g <= b {
        g
    } else {
        b
    }
}

fn max3(r: u8, g: u8, b: u8) -> (m: u8)
    ensures
        m == crate::color::rgb::max3_spec(r, g, b),
{
    if r >= g && r >= b {
        r
    } else if g >= b {
        g
    } else {
        b
    }
}

/// Decomposes an 8-bit color into hue, saturation and lightness.
pub fn hsl_of_rgb(c: Rgb) -> (r: Hsl)
    ensures
        r.h == hue_of_rgb_spec(c),
        r.s == sat_of_rgb_spec(c),
        r.l == light_of_rgb_spec(c),
        r.in_range(),
{
    let max = max3(c.r, c.g, c.b) as u64;
    let min = min3(c.r, c.g, c.b) as u64;
    let l = (max + min) * 100000 / 510;
    if max == min {
        return Hsl { h: 0, s: 0, l };
    }
    let delta = max - min;
    let denom = if max + min <= 255 {
        max + min
    } else {
        510 - max - min
    };
    let s = delta * 100000 / denom;
    proof {
        assert(delta * 100000 <= denom * 100000) by (nonlinear_arith)
            requires
                delta <= denom,
                denom >= 0,
        ;
        vstd::arithmetic::div_mod::lemma_div_is_ordered(
            delta as int * 100000,
            denom as int * 100000,
            denom as int,
        );
        vstd::arithmetic::div_mod::lemma_div_multiples_vanish(100000, denom as int);
        lemma_hue_in_range(c);
        lemma_sector_bounds(c.g as int - c.b as int, delta as int);
        lemma_sector_bounds(c.b as int - c.g as int, delta as int);
        lemma_sector_bounds(c.b as int - c.r as int, delta as int);
        lemma_sector_bounds(c.r as int - c.b as int, delta as int);
        lemma_sector_bounds(c.r as int - c.g as int, delta as int);
        lemma_sector_bounds(c.g as int - c.r as int, delta as int);
    }
    let r64 = c.r as u64;
    let g64 = c.g as u64;
    let b64 = c.b as u64;
    let h: u64 = if max == r64 {
        if g64 >= b64 {
            60000 * (g64 - b64) / delta
        } else {
            360000 - (60000 * (b64 - g64) + delta - 1) / delta
        }
    } else if max == g64 {
        if b64 >= r64 {
            120000 + 60000 * (b64 - r64) / delta
        } else {
            120000 - (60000 * (r64 - b64) + delta - 1) / delta
        }
    } else {
        if r64 >= g64 {
            240000 + 60000 * (r64 - g64) / delta
        } else {
            240000 - (60000 * (g64 - r64) + delta - 1) / delta
        }
    };
    Hsl { h, s, l }
}

/// The hue formula lands inside a single turn, and each ceil division in it
/// stays below its sector width.
proof fn lemma_hue_in_range(c: Rgb)
    ensures
        0 <= hue_of_rgb_spec(c) <= 360000,
{
    let r = c.r as int;
    let g = c.g as int;
    let b = c.b as int;
    let max = crate::color::rgb::max3_spec(c.r, c.g, c.b) as int;
    let min = min3_spec(c.r, c.g, c.b) as int;
    let delta = max - min;
    if max != min {
        lemma_sector_bounds(g - b, delta);
        lemma_sector_bounds(b - g, delta);
        lemma_sector_bounds(b - r, delta);
        lemma_sector_bounds(r - b, delta);
        lemma_sector_bounds(r - g, delta);
        lemma_sector_bounds(g - r, delta);
    }
}

/// Both the floor and the ceil sector quotients lie within one sector.
proof fn lemma_sector_bounds(num: int, delta: int)
    requires
        0 < delta <= 255,
        num <= delta,
    ensures
        num >= 0 ==> 0 <= 60000 * num / delta <= 60000,
        num >= 1 ==> 1 <= (60000 * num + delta - 1) / delta <= 60000,
{
    if num >= 0 {
        assert(0 <= 60000 * num / delta <= 60000) by (nonlinear_arith)
            requires
                0 < delta,
                0 <= num <= delta,
        ;
    }
    if num >= 1 {
        assert(1 <= (60000 * num + delta - 1) / delta <= 60000) by (nonlinear_arith)
            requires
                0 < delta,
                1 <= num <= delta,
        ;
    }
}

} // verus!
