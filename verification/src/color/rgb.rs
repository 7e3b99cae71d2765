//! 8-bit RGB color, hex codes, and the exact CMYK conversions.

use vstd::prelude::*;
use crate::color::cmyk::{Cmyk, CMYK_ONE};
use crate::error::PixestlError;
use crate::text::{dec_spec, u64_to_string};
use vstd::string::StrSliceExecFns;
use vstd::string::StringExecFns;

verus! {

/// RGB color with 8-bit channels.
#[derive(Debug, Clone, Copy, PartialEq, Eq, Hash, Structural)]
pub struct Rgb {
    /// Red channel.
    pub r: u8,
    /// Green channel.
    pub g: u8,
    /// Blue channel.
    pub b: u8,
}

/// Whether a character is a hexadecimal digit.
pub open spec fn is_hex_digit(c: char) -> bool {
    (48 <= c as u32 <= 57) || (65 <= c as u32 <= 70) || (97 <= c as u32 <= 102)
}

/// The value of one hexadecimal digit.
pub open spec fn hex_digit_val(c: char) -> int {
    if 48 <= c as u32 <= 57 {
        c as u32 - 48
    } else if 65 <= c as u32 <= 70 {
        c as u32 - 55
    } else {
        c as u32 - 87
    }
}

/// Whether a character sequence has the form `#RRGGBB`.
pub open spec fn is_valid_hex(s: Seq<char>) -> bool {
    s.len() == 7 && s[0] == '#' && (forall|i: int| 1 <= i < 7 ==> #[trigger] is_hex_digit(s[i]))
}

/// The byte encoded by the hex digits at positions `i` and `i + 1`.
pub open spec fn hex_pair_val(s: Seq<char>, i: int) -> u8 {
    (hex_digit_val(s[i]) * 16 + hex_digit_val(s[i + 1])) as u8
}

/// The color named by a valid `#RRGGBB` sequence.
pub open spec fn rgb_of_hex(s: Seq<char>) -> Rgb {
    Rgb { r: hex_pair_val(s, 1), g: hex_pair_val(s, 3), b: hex_pair_val(s, 5) }
}

/// The uppercase character for one hex digit.
pub open spec fn hex_char(d: int) -> char {
    if d == 0 {
        '0'
    } else if d == 1 {
        '1'
    } else if d == 2 {
        '2'
    } else if d == 3 {
        '3'
    } else if d == 4 {
        '4'
    } else if d == 5 {
        '5'
    } else if d == 6 {
        '6'
    } else if d == 7 {
        '7'
    } else if d == 8 {
        '8'
    } else if d == 9 {
        '9'
    } else if d == 10 {
        'A'
    } else if d == 11 {
        'B'
    } else if d == 12 {
        'C'
    } else if d == 13 {
        'D'
    } else if d == 14 {
        'E'
    } else {
        'F'
    }
}

/// The canonical uppercase `#RRGGBB` rendering of a color.
pub open spec fn hex_of_rgb(c: Rgb) -> Seq<char> {
    seq![
        '#',
        hex_char(c.r as int / 16),
        hex_char(c.r as int % 16),
        hex_char(c.g as int / 16),
        hex_char(c.g as int % 16),
        hex_char(c.b as int / 16),
        hex_char(c.b as int % 16),
    ]
}

/// One uppercase hex digit as a string slice.
fn hex_digit_str(d: u8) -> (r: &'static str)
    requires
        d < 16,
    ensures
        r@ =~= seq![hex_char(d as int)],
{
    proof {
        reveal_strlit("0");
        reveal_strlit("1");
        reveal_strlit("2");
        reveal_strlit("3");
        reveal_strlit("4");
        reveal_strlit("5");
        reveal_strlit("6");
        reveal_strlit("7");
        reveal_strlit("8");
        reveal_strlit("9");
        reveal_strlit("A");
        reveal_strlit("B");
        reveal_strlit("C");
        reveal_strlit("D");
        reveal_strlit("E");
        reveal_strlit("F");
    }
    if d == 0 {
        "0"
    } else if d == 1 {
        "1"
    } else if d == 2 {
        "2"
    } else if d == 3 {
        "3"
    } else if d == 4 {
        "4"
    } else if d == 5 {
        "5"
    } else if d == 6 {
        "6"
    } else if d == 7 {
        "7"
    } else if d == 8 {
        "8"
    } else if d == 9 {
        "9"
    } else if d == 10 {
        "A"
    } else if d == 11 {
        "B"
    } else if d == 12 {
        "C"
    } else if d == 13 {
        "D"
    } else if d == 14 {
        "E"
    } else {
        "F"
    }
}

/// A hex digit character encodes a value below sixteen.
proof fn lemma_hex_digit_val_bound(c: char)
    requires
        is_hex_digit(c),
    ensures
        0 <= hex_digit_val(c) < 16,
{
}

/// The value of one hex digit character, or `None` for any other character.
fn hex_digit_value(c: char) -> (r: Option<u8>)
    ensures
        is_hex_digit(c) ==> r == Some((hex_digit_val(c)) as u8),
        !is_hex_digit(c) ==> r is None,
{
    let v = c as u32;
    if 48 <= v && v <= 57 {
        Some((v - 48) as u8)
    } else if 65 <= v && v <= 70 {
        Some((v - 55) as u8)
    } else if 97 <= v && v <= 102 {
        Some((v - 87) as u8)
    } else {
        None
    }
}

impl Rgb {
    /// Builds a color from its three channels.
    pub fn new(r: u8, g: u8, b: u8) -> (c: Self)
        ensures
            c == (Rgb { r, g, b }),
    {
        Rgb { r, g, b }
    }

    /// Parses a `#RRGGBB` hex string; any other shape is an
    /// [`PixestlError::InvalidHexCode`] carrying the offending text.
    pub fn from_hex(hex: &str) -> (res: Result<Self, PixestlError>)
        ensures
            match res {
                Ok(c) => is_valid_hex(hex@) && c == rgb_of_hex(hex@),
                Err(e) => !is_valid_hex(hex@) && e == PixestlError::InvalidHexCode(
                    e.arrow_InvalidHexCode_0(),
                ) && e.arrow_InvalidHexCode_0()@ == hex@,
            },
    {
        let n = hex.unicode_len();
        if n != 7 {
            return Err(PixestlError::InvalidHexCode(hex.to_owned()));
        }
        if hex.get_char(0) != '#' {
            return Err(PixestlError::InvalidHexCode(hex.to_owned()));
        }
        let mut vals: [u8; 6] = [0, 0, 0, 0, 0, 0];
        let mut i: usize = 1;
        while i < 7
            invariant
                1 <= i <= 7,
                hex@.len() == 7,
                forall|j: int| 1 <= j < i ==> #[trigger] is_hex_digit(hex@[j]),
                forall|j: int|
                    1 <= j < i ==> vals@[j - 1] == (hex_digit_val(#[trigger] hex@[j])) as u8,
            decreases 7 - i,
        {
            match hex_digit_value(hex.get_char(i)) {
                Some(v) => {
                    vals[i - 1] = v;
                },
                None => {
                    return Err(PixestlError::InvalidHexCode(hex.to_owned()));
                },
            }
            i = i + 1;
        }
        proof {
            lemma_hex_digit_val_bound(hex@[1]);
            lemma_hex_digit_val_bound(hex@[2]);
            lemma_hex_digit_val_bound(hex@[3]);
            lemma_hex_digit_val_bound(hex@[4]);
            lemma_hex_digit_val_bound(hex@[5]);
            lemma_hex_digit_val_bound(hex@[6]);
        }
        let r = vals[0] * 16 + vals[1];
        let g = vals[2] * 16 + vals[3];
        let b = vals[4] * 16 + vals[5];
        Ok(Rgb { r, g, b })
    }

    /// Renders the color as canonical uppercase `#RRGGBB`.
    pub fn to_hex(&self) -> (r: String)
        ensures
            r@ == hex_of_rgb(*self),
    {
        let mut out = String::new();
        proof {
            reveal_strlit("#");
        }
        out.append("#");
        out.append(hex_digit_str(self.r / 16));
        out.append(hex_digit_str(self.r % 16));
        out.append(hex_digit_str(self.g / 16));
        out.append(hex_digit_str(self.g % 16));
        out.append(hex_digit_str(self.b / 16));
        out.append(hex_digit_str(self.b % 16));
        proof {
            assert(out@ =~= hex_of_rgb(*self));
        }
        out
    }

    /// The exact CMYK decomposition of a color: with `max` the largest
    /// channel, `K = (255 - max) / 255` and each chromatic channel
    /// `(max - v) / max`, all as floor fractions of [`CMYK_ONE`].
    pub open spec fn to_cmyk_spec(&self) -> Cmyk {
        let max = max3_spec(self.r, self.g, self.b) as int;
        if max == 0 {
            Cmyk { c: 0, m: 0, y: 0, k: CMYK_ONE }
        } else {
            Cmyk {
                c: ((max - self.r) * CMYK_ONE / max) as u64,
                m: ((max - self.g) * CMYK_ONE / max) as u64,
                y: ((max - self.b) * CMYK_ONE / max) as u64,
                k: ((255 - max) * CMYK_ONE / 255) as u64,
            }
        }
    }

    /// Converts the color to CMYK ink fractions.
    pub fn to_cmyk(&self) -> (r: Cmyk)
        ensures
            r == self.to_cmyk_spec(),
            r.in_range(),
    {
        let max = max3(self.r, self.g, self.b);
        if max == 0 {
            Cmyk { c: 0, m: 0, y: 0, k: CMYK_ONE }
        } else {
            let maxw = max as u64;
            let c = (maxw - self.r as u64) * CMYK_ONE / maxw;
            let m = (maxw - self.g as u64) * CMYK_ONE / maxw;
            let y = (maxw - self.b as u64) * CMYK_ONE / maxw;
            let k = (255 - maxw) * CMYK_ONE / 255;
            proof {
                lemma_cmyk_frac_le_one((maxw - self.r) as int, maxw as int);
                lemma_cmyk_frac_le_one((maxw - self.g) as int, maxw as int);
                lemma_cmyk_frac_le_one((maxw - self.b) as int, maxw as int);
                lemma_cmyk_frac_le_one((255 - maxw) as int, 255);
            }
            Cmyk { c, m, y, k }
        }
    }

    /// The channel reconstructed from clamped ink fractions `a` (chromatic)
    /// and `k`: the rounded value of `255 * (1 - a) * (1 - k)`.
    pub open spec fn channel_of_cmyk(a: int, k: int) -> int {
        (255 * (CMYK_ONE - a) * (CMYK_ONE - k) + 500_000_000_000) / 1_000_000_000_000
    }

    /// The RGB color reconstructed from a CMYK value after clamping.
    pub open spec fn from_cmyk_spec(cmyk: Cmyk) -> Rgb {
        let cl = cmyk.clamp_spec();
        Rgb {
            r: Rgb::channel_of_cmyk(cl.c as int, cl.k as int) as u8,
            g: Rgb::channel_of_cmyk(cl.m as int, cl.k as int) as u8,
            b: Rgb::channel_of_cmyk(cl.y as int, cl.k as int) as u8,
        }
    }

    /// Converts CMYK ink fractions back to an RGB color.
    pub fn from_cmyk(cmyk: Cmyk) -> (r: Self)
        ensures
            r == Rgb::from_cmyk_spec(cmyk),
    {
        let cl = cmyk.clamp();
        let r = from_cmyk_channel(cl.c, cl.k);
        let g = from_cmyk_channel(cl.m, cl.k);
        let b = from_cmyk_channel(cl.y, cl.k);
        Rgb { r, g, b }
    }

    /// Renders the color as `RGB(r, g, b)`.
    pub fn display_string(&self) -> (r: String)
        ensures
            r@ == seq!['R', 'G', 'B', '('] + dec_spec(self.r as int) + seq![',', ' ']
                + dec_spec(self.g as int) + seq![',', ' '] + dec_spec(self.b as int) + seq![')'],
    {
        proof {
            reveal_strlit("RGB(");
            reveal_strlit(", ");
            reveal_strlit(")");
        }
        let mut out = String::new();
        out.append("RGB(");
        let rs = u64_to_string(self.r as u64);
        out.append(rs.as_str());
        out.append(", ");
        let gs = u64_to_string(self.g as u64);
        out.append(gs.as_str());
        out.append(", ");
        let bs = u64_to_string(self.b as u64);
        out.append(bs.as_str());
        out.append(")");
        proof {
            assert(out@ =~= seq!['R', 'G', 'B', '('] + dec_spec(self.r as int) + seq![',', ' ']
                + dec_spec(self.g as int) + seq![',', ' '] + dec_spec(self.b as int) + seq![')']);
        }
        out
    }
}

/// The largest of three channel values.
pub open spec fn max3_spec(r: u8, g: u8, b: u8) -> u8 {
    if r >= g && r >= b {
        r
    } else if g >= b {
        g
    } else {
        b
    }
}

fn max3(r: u8, g: u8, b: u8) -> (m: u8)
    ensures
        m == max3_spec(r, g, b),
{
    if r >= g && r >= b {
        r
    } else if g >= b {
        g
    } else {
        b
    }
}

/// A floor fraction of a value over a positive denominator at most the
/// denominator stays within the unit range.
pub(crate) proof fn lemma_cmyk_frac_le_one(num: int, den: int)
    requires
        0 <= num <= den,
        0 < den,
    ensures
        0 <= num * CMYK_ONE / den <= CMYK_ONE,
{
    assert(num * CMYK_ONE <= den * CMYK_ONE) by (nonlinear_arith)
        requires
            num <= den,
            CMYK_ONE > 0,
    ;
    assert(num * CMYK_ONE / den <= den * CMYK_ONE / den) by {
        vstd::arithmetic::div_mod::lemma_div_is_ordered(
            num * CMYK_ONE,
            den * CMYK_ONE,
            den,
        );
    }
    assert(den * CMYK_ONE / den == CMYK_ONE) by {
        vstd::arithmetic::div_mod::lemma_div_multiples_vanish(CMYK_ONE as int, den);
    }
    assert(num * CMYK_ONE >= 0) by (nonlinear_arith)
        requires
            num >= 0,
            CMYK_ONE > 0,
    ;
    assert(num * CMYK_ONE / den >= 0) by {
        vstd::arithmetic::div_mod::lemma_div_pos_is_pos(num * CMYK_ONE, den);
    }
}

/// One channel of the CMYK-to-RGB reconstruction.
fn from_cmyk_channel(a: u64, k: u64) -> (r: u8)
    requires
        a <= CMYK_ONE,
        k <= CMYK_ONE,
    ensures
        r == Rgb::channel_of_cmyk(a as int, k as int),
{
    let ca: u64 = CMYK_ONE - a;
    let ck: u64 = CMYK_ONE - k;
    proof {
        assert(255 * ca * ck <= 255_000_000_000_000) by (nonlinear_arith)
            requires
                ca <= 1_000_000u64,
                ck <= 1_000_000u64,
        ;
    }
    let num: u64 = 255 * ca * ck;
    let v = (num + 500_000_000_000) / 1_000_000_000_000;
    proof {
        assert(v <= 255);
    }
    v as u8
}

/// One channel survives the CMYK round trip: rebuilding a channel from the
/// floor ink fractions of `to_cmyk_spec` recovers the exact channel value.
proof fn lemma_channel_round_trip(ch: int, max: int)
    requires
        1 <= max <= 255,
        0 <= ch <= max,
    ensures
        Rgb::channel_of_cmyk((max - ch) * CMYK_ONE / max, (255 - max) * CMYK_ONE / 255) == ch,
{
    let s = 1_000_000 as int;
    let cp = (max - ch) * s / max;
    let kp = (255 - max) * s / 255;
    let a = s - cp;
    let b = s - kp;
    vstd::arithmetic::div_mod::lemma_fundamental_div_mod((max - ch) * s, max);
    vstd::arithmetic::div_mod::lemma_mod_division_less_than_divisor((max - ch) * s, max);
    vstd::arithmetic::div_mod::lemma_fundamental_div_mod((255 - max) * s, 255);
    vstd::arithmetic::div_mod::lemma_mod_division_less_than_divisor((255 - max) * s, 255);
    assert(cp * max <= (max - ch) * s < cp * max + max) by (nonlinear_arith)
        requires
            (max - ch) * s == max * cp + ((max - ch) * s) % max,
            0 <= ((max - ch) * s) % max < max,
    ;
    assert(kp * 255 <= (255 - max) * s < kp * 255 + 255) by (nonlinear_arith)
        requires
            (255 - max) * s == 255 * kp + ((255 - max) * s) % 255,
            0 <= ((255 - max) * s) % 255 < 255,
    ;
    assert(ch * s <= a * max < ch * s + max) by (nonlinear_arith)
        requires
            a == s - cp,
            cp * max <= (max - ch) * s < cp * max + max,
            1 <= max,
    ;
    assert(max * s <= b * 255 < max * s + 255) by (nonlinear_arith)
        requires
            b == s - kp,
            kp * 255 <= (255 - max) * s < kp * 255 + 255,
    ;
    // multiply the two bracketing inequalities and cancel the factor max
    assert(ch * s * s <= 255 * a * b) by (nonlinear_arith)
        requires
            ch * s <= a * max,
            max * s <= b * 255,
            0 <= ch * s,
            0 <= max * s,
            1 <= max,
            s == 1_000_000,
    ;
    assert(255 * a * b < ch * s * s + 511 * s) by (nonlinear_arith)
        requires
            0 <= a * max < ch * s + max,
            0 <= b * 255 < max * s + 255,
            0 <= ch <= max,
            1 <= max <= 255,
            s == 1_000_000,
    ;
    let num = 255 * a * b + 500_000_000_000;
    assert(ch * 1_000_000_000_000 <= num < (ch + 1) * 1_000_000_000_000) by (nonlinear_arith)
        requires
            ch * s * s <= 255 * a * b < ch * s * s + 511 * s,
            num == 255 * a * b + 500_000_000_000,
            s == 1_000_000,
    ;
    vstd::arithmetic::div_mod::lemma_fundamental_div_mod_converse_div(
        num,
        1_000_000_000_000,
        ch,
        num - ch * 1_000_000_000_000,
    );
}

/// The RGB-to-CMYK round trip is exact: for every color `c`,
/// `from_cmyk(to_cmyk(c))` returns `c` itself. The floor errors of the ink
/// fractions are far smaller than half a channel step, so the rounded
/// reconstruction lands on the original value.
pub proof fn lemma_cmyk_round_trip(c: Rgb)
    ensures
        Rgb::from_cmyk_spec(c.to_cmyk_spec()) == c,
{
    let max = max3_spec(c.r, c.g, c.b) as int;
    let cmyk = c.to_cmyk_spec();
    if max == 0 {
        assert(c.r == 0 && c.g == 0 && c.b == 0);
        assert(cmyk == Cmyk { c: 0, m: 0, y: 0, k: CMYK_ONE as u64 });
        assert(cmyk.clamp_spec() == cmyk);
        assert(Rgb::channel_of_cmyk(0, CMYK_ONE as int) == 0);
        assert(Rgb::from_cmyk_spec(cmyk) == c);
    } else {
        lemma_cmyk_frac_le_one(max - c.r, max);
        lemma_cmyk_frac_le_one(max - c.g, max);
        lemma_cmyk_frac_le_one(max - c.b, max);
        lemma_cmyk_frac_le_one(255 - max, 255);
        assert(cmyk.clamp_spec() == cmyk);
        lemma_channel_round_trip(c.r as int, max);
        lemma_channel_round_trip(c.g as int, max);
        lemma_channel_round_trip(c.b as int, max);
        assert(Rgb::from_cmyk_spec(cmyk) == c);
    }
}

impl From<(u8, u8, u8)> for Rgb {
    /// Builds a color from a channel triple.
    fn from(t: (u8, u8, u8)) -> (r: Self) {
        Rgb { r: t.0, g: t.1, b: t.2 }
    }
}

impl vstd::std_specs::convert::FromSpecImpl<(u8, u8, u8)> for Rgb {
    open spec fn obeys_from_spec() -> bool {
        true
    }

    open spec fn from_spec(t: (u8, u8, u8)) -> Rgb {
        Rgb { r: t.0, g: t.1, b: t.2 }
    }
}

impl From<Rgb> for (u8, u8, u8) {
    /// Splits a color into its channel triple.
    fn from(c: Rgb) -> (r: Self) {
        (c.r, c.g, c.b)
    }
}

impl vstd::std_specs::convert::FromSpecImpl<Rgb> for (u8, u8, u8) {
    open spec fn obeys_from_spec() -> bool {
        true
    }

    open spec fn from_spec(c: Rgb) -> (u8, u8, u8) {
        (c.r, c.g, c.b)
    }
}

} // verus!
