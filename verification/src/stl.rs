//! STL serialization: triangle meshes to textual and binary STL bytes.
//!
//! The binary form is 80 header bytes, a little-endian 32-bit triangle
//! count, and one 50-byte record per triangle (normal, three vertices, a
//! zero attribute count), so the output holds exactly `84 + 50 T` bytes for
//! `T` triangles. Coordinates are emitted in millimeters: each micrometer
//! value divided by a thousand, encoded as IEEE-754 single precision with
//! ties rounded up; normals are the unit-scaled cross products of the first
//! two edges, fixed-pointed at 2^24 before encoding.

use vstd::prelude::*;
use crate::error::PixestlError;
use crate::lithophane::geometry::{Mesh, Triangle, Vector3};
use crate::mathx::isqrt128;
use crate::text::{dec_spec, pad_spec, padded_u64, u64_to_string};
use vstd::string::StrSliceExecFns;
use vstd::string::StringExecFns;
use vstd::string::StringSliceAdditionalSpecFns;

verus! {

/// The two STL encodings.
#[derive(Debug, Clone, Copy, PartialEq, Eq, Structural)]
pub enum StlFormat {
    /// Human-readable text.
    Ascii,
    /// 50 bytes per triangle.
    Binary,
}

/// Whether `e` is the binary exponent the encoder selects for `a / den`:
/// the value with `den 2^(e+24) <= a 2^24 < 2 den 2^(e+24)`, at least -24.
pub open spec fn is_f32_exp(a: int, den: int, e: int) -> bool {
    &&& -24 <= e
    &&& den * vstd::arithmetic::power2::pow2((e + 24) as nat) <= a * 16_777_216
    &&& a * 16_777_216 < 2 * (den * vstd::arithmetic::power2::pow2((e + 24) as nat))
}

/// The binary exponent the encoder selects for `a / den`.
pub open spec fn f32_exp_spec(a: int, den: int) -> int {
    choose|e: int| is_f32_exp(a, den, e)
}

/// At most one exponent satisfies the selection predicate.
proof fn lemma_f32_exp_unique(a: int, den: int, e1: int, e2: int)
    requires
        den > 0,
        is_f32_exp(a, den, e1),
        is_f32_exp(a, den, e2),
    ensures
        e1 == e2,
{
    if e1 != e2 {
        let lo = if e1 < e2 {
            e1
        } else {
            e2
        };
        let hi = if e1 < e2 {
            e2
        } else {
            e1
        };
    vstd::arithmetic::power2::lemma_pow2_adds((lo + 25) as nat, (hi - lo - 1) as nat);
    vstd::arithmetic::power2::lemma_pow2_unfold((lo + 25) as nat);
    vstd::arithmetic::power2::lemma_pow2_pos((hi - lo - 1) as nat);
    assert(vstd::arithmetic::power2::pow2((hi + 24) as nat) >= 2
        * vstd::arithmetic::power2::pow2((lo + 24) as nat)) by (nonlinear_arith)
        requires
            vstd::arithmetic::power2::pow2((hi + 24) as nat) == (2
                * vstd::arithmetic::power2::pow2((lo + 24) as nat))
                * vstd::arithmetic::power2::pow2((hi - lo - 1) as nat),
            vstd::arithmetic::power2::pow2((hi - lo - 1) as nat) >= 1,
            vstd::arithmetic::power2::pow2((lo + 24) as nat) >= 0,
    ;
    assert(den * vstd::arithmetic::power2::pow2((hi + 24) as nat) >= 2 * (den
        * vstd::arithmetic::power2::pow2((lo + 24) as nat))) by (nonlinear_arith)
        requires
            den > 0,
            vstd::arithmetic::power2::pow2((hi + 24) as nat) >= 2
                * vstd::arithmetic::power2::pow2((lo + 24) as nat),
    ;
        assert(false);
    }
}

/// The IEEE-754 single-precision bit pattern of `a / den` with ties
/// rounded up and the given sign bit: the selected exponent, the rounded
/// 24-bit mantissa at it, renormalized by one step when rounding carries.
pub open spec fn f32_bits_ratio_spec(a: int, den: int, neg: bool) -> int {
    let e = f32_exp_spec(a, den);
    let thr = den * vstd::arithmetic::power2::pow2((e + 24) as nat);
    let m0 = (2 * (a * 16_777_216 * 8_388_608) + thr) / (2 * thr);
    let m = if m0 >= 16_777_216 {
        8_388_608int
    } else {
        m0
    };
    let e2 = if m0 >= 16_777_216 {
        e + 1
    } else {
        e
    };
    let bits = (127 + e2) * 8_388_608 + (m - 8_388_608);
    if neg {
        0x8000_0000 + bits
    } else {
        bits
    }
}

/// The bit pattern of a micrometer length taken as millimeters.
pub open spec fn f32_bits_of_um_spec(v: int) -> int {
    if v == 0 {
        0
    } else if v > 0 {
        f32_bits_ratio_spec(v, 1000, false)
    } else {
        f32_bits_ratio_spec(-v, 1000, true)
    }
}

/// The bit pattern of a fraction fixed-pointed at 2^24.
pub open spec fn f32_bits_of_frac24_spec(n: int) -> int {
    if n == 0 {
        0
    } else if n > 0 {
        f32_bits_ratio_spec(n, 16_777_216, false)
    } else {
        f32_bits_ratio_spec(-n, 16_777_216, true)
    }
}

/// Encodes the positive rational `a / den` as IEEE-754 single precision
/// with ties rounded up, with the given sign bit. The binary exponent is
/// found by doubling a threshold; the 24-bit mantissa is the rounded
/// quotient at that exponent.
fn f32_bits_ratio(a: u64, den: u64, neg: bool) -> (r: u32)
    requires
        1 <= a <= 33_554_432,
        1000 <= den <= 16_777_216,
    ensures
        !neg ==> 0 < r < 0x8000_0000,
        neg ==> r > 0x8000_0000,
        r == f32_bits_ratio_spec(a as int, den as int, neg),
{
    let big: u128 = (a as u128) * 16_777_216;
    let mut thr: u128 = den as u128;
    let mut e: i32 = -24;
    proof {
        vstd::arithmetic::power2::lemma2_to64();
        assert(vstd::arithmetic::power2::pow2(0) == 1);
        assert(thr == den * vstd::arithmetic::power2::pow2((e + 24) as nat)) by (nonlinear_arith)
            requires
                thr == den as u128,
                vstd::arithmetic::power2::pow2((e + 24) as nat) == 1,
        ;
        assert(big >= den as u128) by (nonlinear_arith)
            requires
                big == (a as u128) * 16_777_216,
                a >= 1,
                den <= 16_777_216u64,
        ;
        assert(big <= 0x2_0000_0000_0000u128) by (nonlinear_arith)
            requires
                big == (a as u128) * 16_777_216,
                a <= 33_554_432u64,
        ;
    }
    while 2 * thr <= big
        invariant
            1 <= a <= 33_554_432,
            big == a * 16_777_216,
            big <= 0x2_0000_0000_0000u128,
            thr == den * vstd::arithmetic::power2::pow2((e + 24) as nat),
            1000 <= den <= 16_777_216,
            -24 <= e <= 40,
            thr <= big,
        decreases big - thr,
    {
        proof {
            vstd::arithmetic::power2::lemma_pow2_pos((e + 24) as nat);
            assert(thr >= 1000) by (nonlinear_arith)
                requires
                    thr == den * vstd::arithmetic::power2::pow2((e + 24) as nat),
                    den >= 1000u64,
                    vstd::arithmetic::power2::pow2((e + 24) as nat) >= 1,
            ;
            if e >= 40 {
                vstd::arithmetic::power2::lemma_pow2_adds(50, (e - 26) as nat);
                vstd::arithmetic::power2::lemma_pow2_pos((e - 26) as nat);
                vstd::arithmetic::power2::lemma2_to64();
                assert(vstd::arithmetic::power2::pow2((e + 24) as nat)
                    >= 0x4_0000_0000_0000) by (nonlinear_arith)
                    requires
                        vstd::arithmetic::power2::pow2((e + 24) as nat)
                            == vstd::arithmetic::power2::pow2(50)
                            * vstd::arithmetic::power2::pow2((e - 26) as nat),
                        vstd::arithmetic::power2::pow2(50) == 0x4_0000_0000_0000,
                        vstd::arithmetic::power2::pow2((e - 26) as nat) >= 1,
                ;
                assert(thr >= 1000 * 0x4_0000_0000_0000u128) by (nonlinear_arith)
                    requires
                        thr == den * vstd::arithmetic::power2::pow2((e + 24) as nat),
                        den >= 1000u64,
                        vstd::arithmetic::power2::pow2((e + 24) as nat)
                            >= 0x4_0000_0000_0000,
                ;
                assert(false);
            }
            vstd::arithmetic::power2::lemma_pow2_unfold((e + 25) as nat);
            assert(den * (2 * vstd::arithmetic::power2::pow2((e + 24) as nat)) == 2 * thr)
                by (nonlinear_arith)
                requires
                    thr == den * vstd::arithmetic::power2::pow2((e + 24) as nat),
            ;
        }
        thr = 2 * thr;
        e = e + 1;
    }
    // thr <= big < 2 thr: the mantissa quotient lands in [2^23, 2^24].
    let num: u128 = big * 8_388_608;
    proof {
        reveal(f32_bits_ratio_spec);
        lemma_mantissa_range(big as int, thr as int);
        assert(is_f32_exp(a as int, den as int, e as int));
        assert(is_f32_exp(a as int, den as int, f32_exp_spec(a as int, den as int)));
        lemma_f32_exp_unique(
            a as int,
            den as int,
            e as int,
            f32_exp_spec(a as int, den as int),
        );
        assert(num == (a as int) * 16_777_216 * 8_388_608) by (nonlinear_arith)
            requires
                num == big * 8_388_608,
                big == a * 16_777_216,
        ;
    }
    let m0: u128 = (2 * num + thr) / (2 * thr);
    let (m, e) = if m0 >= 16_777_216 {
        (8_388_608u64, e + 1)
    } else {
        (m0 as u64, e)
    };
    let exp_field: u32 = (127 + e) as u32;
    let bits: u32 = exp_field * 8_388_608 + (m as u32 - 8_388_608);
    proof {
        assert(bits >= 8_388_608);
    }
    if neg {
        0x8000_0000u32 + bits
    } else {
        bits
    }
}

/// With `0 < den <= cap < 2 den`, the rounded mantissa
/// `(2 cap 2^23 + den) / (2 den)` lies in `[2^23, 2^24]`.
proof fn lemma_mantissa_range(cap: int, den: int)
    requires
        0 < den <= cap,
        cap < 2 * den,
    ensures
        8_388_608 <= (2 * (cap * 8_388_608) + den) / (2 * den) <= 16_777_216,
{
    let num = cap * 8_388_608;
    assert(2 * num + den >= (2 * den) * 8_388_608) by (nonlinear_arith)
        requires
            num == cap * 8_388_608,
            den <= cap,
            den > 0,
    ;
    assert(2 * num + den < (2 * den) * 16_777_217) by (nonlinear_arith)
        requires
            num == cap * 8_388_608,
            cap < 2 * den,
            den > 0,
    ;
    vstd::arithmetic::div_mod::lemma_div_is_ordered(
        (2 * den) * 8_388_608,
        2 * num + den,
        2 * den,
    );
    vstd::arithmetic::div_mod::lemma_div_multiples_vanish(8_388_608, 2 * den);
    if (2 * num + den) / (2 * den) >= 16_777_217 {
        vstd::arithmetic::div_mod::lemma_fundamental_div_mod(2 * num + den, 2 * den);
        vstd::arithmetic::div_mod::lemma_mod_division_less_than_divisor(2 * num + den, 2 * den);
        assert((2 * num + den) >= (2 * den) * 16_777_217) by (nonlinear_arith)
            requires
                2 * num + den == (2 * den) * ((2 * num + den) / (2 * den)) + (2 * num + den) % (2
                    * den),
                (2 * num + den) / (2 * den) >= 16_777_217,
                (2 * num + den) % (2 * den) >= 0,
                den > 0,
        ;
        assert(false);
    }
}

/// Encodes a micrometer length as the IEEE-754 single-precision value of
/// its millimeter measure (the value divided by a thousand), with ties
/// rounded up. Zero maps to the positive zero bit pattern; the sign bit
/// follows the sign of the input.
pub fn f32_bits_of_um(v: i64) -> (r: u32)
    requires
        -32_000_000 <= v <= 32_000_000,
    ensures
        r == f32_bits_of_um_spec(v as int),
        v == 0 ==> r == 0,
        v > 0 ==> 0 < r < 0x8000_0000,
        v < 0 ==> r > 0x8000_0000,
{
    if v == 0 {
        return 0;
    }
    let neg = v < 0;
    let a: u64 = if neg {
        (-v) as u64
    } else {
        v as u64
    };
    f32_bits_ratio(a, 1000, neg)
}

/// Encodes a fixed-point fraction scaled by 2^24 (at most one in absolute
/// value) as IEEE-754 single precision with the same rounding convention.
pub fn f32_bits_of_frac24(n: i64) -> (r: u32)
    requires
        -16_777_216 <= n <= 16_777_216,
    ensures
        r == f32_bits_of_frac24_spec(n as int),
        n == 0 ==> r == 0,
        n > 0 ==> 0 < r < 0x8000_0000,
        n < 0 ==> r > 0x8000_0000,
{
    if n == 0 {
        return 0;
    }
    let neg = n < 0;
    let a: u64 = if neg {
        (-n) as u64
    } else {
        n as u64
    };
    f32_bits_ratio(a, 16_777_216, neg)
}

/// Whether `r` is the floor square root of `n`.
pub open spec fn is_floor_sqrt(n: int, r: int) -> bool {
    0 <= r && r * r <= n && n < (r + 1) * (r + 1)
}

/// The floor square root of a non-negative integer.
pub open spec fn fsqrt(n: int) -> int {
    choose|r: int| is_floor_sqrt(n, r)
}

/// At most one integer is the floor square root of a value.
proof fn lemma_sqrt_unique(n: int, r1: int, r2: int)
    requires
        is_floor_sqrt(n, r1),
        is_floor_sqrt(n, r2),
    ensures
        r1 == r2,
{
    if r1 < r2 {
        assert((r1 + 1) * (r1 + 1) <= r2 * r2) by (nonlinear_arith)
            requires
                0 <= r1 + 1 <= r2,
        ;
    }
    if r2 < r1 {
        assert((r2 + 1) * (r2 + 1) <= r1 * r1) by (nonlinear_arith)
            requires
                0 <= r2 + 1 <= r1,
        ;
    }
}

/// One normal component scaled by 2^24 over the vector length, rounded and
/// capped at the unit scale.
pub open spec fn scale_component_spec(n: int, len: int) -> int {
    let a = if n < 0 {
        -n
    } else {
        n
    };
    let v = (a * 16_777_216 + len / 2) / len;
    let capped = if v > 16_777_216 {
        16_777_216
    } else {
        v
    };
    if n < 0 {
        -capped
    } else {
        capped
    }
}

/// The fixed-point normal of a triangle: the cross product of its first
/// two edges, each component scaled by 2^24 over the floor length of the
/// cross product, rounded; all zero for a degenerate triangle.
pub open spec fn triangle_normal_spec(t: Triangle) -> (int, int, int) {
    let nx = (t.v1.y - t.v0.y) * (t.v2.z - t.v0.z) - (t.v1.z - t.v0.z) * (t.v2.y - t.v0.y);
    let ny = (t.v1.z - t.v0.z) * (t.v2.x - t.v0.x) - (t.v1.x - t.v0.x) * (t.v2.z - t.v0.z);
    let nz = (t.v1.x - t.v0.x) * (t.v2.y - t.v0.y) - (t.v1.y - t.v0.y) * (t.v2.x - t.v0.x);
    let len = fsqrt(nx * nx + ny * ny + nz * nz);
    if len == 0 {
        (0, 0, 0)
    } else {
        (
            scale_component_spec(nx, len),
            scale_component_spec(ny, len),
            scale_component_spec(nz, len),
        )
    }
}

/// The scaled normal components of a triangle: the cross product of its
/// first two edges, normalized to length 2^24 and rounded, or all zero for
/// a degenerate triangle.
pub fn triangle_normal_fixed(t: &Triangle) -> (r: (i64, i64, i64))
    requires
        t.in_bounds(),
    ensures
        (r.0 as int, r.1 as int, r.2 as int) == triangle_normal_spec(*t),
        -16_777_216 <= r.0 <= 16_777_216,
        -16_777_216 <= r.1 <= 16_777_216,
        -16_777_216 <= r.2 <= 16_777_216,
{
    let e1 = t.v1.sub(&t.v0);
    let e2 = t.v2.sub(&t.v0);
    let (nx, ny, nz) = cross_wide(&e1, &e2);
    proof {
        lemma_wide_square(nx as int);
        lemma_wide_square(ny as int);
        lemma_wide_square(nz as int);
    }
    let sx: u128 = (nx * nx) as u128;
    let sy: u128 = (ny * ny) as u128;
    let sz: u128 = (nz * nz) as u128;
    let len = isqrt128(sx + sy + sz);
    proof {
        assert(is_floor_sqrt((sx + sy + sz) as int, len as int));
        assert(exists|r: int| #[trigger] is_floor_sqrt((sx + sy + sz) as int, r)) by {
            assert(is_floor_sqrt((sx + sy + sz) as int, len as int));
        }
        lemma_sqrt_unique((sx + sy + sz) as int, len as int, fsqrt((sx + sy + sz) as int));
    }
    if len == 0 {
        return (0, 0, 0);
    }
    let ox = scale_component(nx, len);
    let oy = scale_component(ny, len);
    let oz = scale_component(nz, len);
    (ox, oy, oz)
}

/// One normal component scaled by 2^24 over the vector length, rounded and
/// capped at the unit scale.
fn scale_component(n: i128, len: u128) -> (r: i64)
    requires
        len >= 1,
        -4_096_000_000_000_000 * 2 <= n <= 4_096_000_000_000_000 * 2,
    ensures
        r == scale_component_spec(n as int, len as int),
        -16_777_216 <= r <= 16_777_216,
{
    let neg = n < 0;
    let a: u128 = if neg {
        (-n) as u128
    } else {
        n as u128
    };
    proof {
        assert(a * 16_777_216 <= 0x8_0000_0000_0000_0000_0000u128) by (nonlinear_arith)
            requires
                a <= 8_192_000_000_000_000u128,
        ;
    }
    let v: u128 = (a * 16_777_216 + len / 2) / len;
    let capped: u64 = if v > 16_777_216 {
        16_777_216
    } else {
        v as u64
    };
    if neg {
        0 - (capped as i64)
    } else {
        capped as i64
    }
}

/// The wide cross product of two difference vectors.
fn cross_wide(e1: &Vector3, e2: &Vector3) -> (r: (i128, i128, i128))
    requires
        -64_000_000 <= e1.x <= 64_000_000,
        -64_000_000 <= e1.y <= 64_000_000,
        -64_000_000 <= e1.z <= 64_000_000,
        -64_000_000 <= e2.x <= 64_000_000,
        -64_000_000 <= e2.y <= 64_000_000,
        -64_000_000 <= e2.z <= 64_000_000,
    ensures
        r.0 == e1.y * e2.z - e1.z * e2.y,
        r.1 == e1.z * e2.x - e1.x * e2.z,
        r.2 == e1.x * e2.y - e1.y * e2.x,
        -8_192_000_000_000_000 <= r.0 <= 8_192_000_000_000_000,
        -8_192_000_000_000_000 <= r.1 <= 8_192_000_000_000_000,
        -8_192_000_000_000_000 <= r.2 <= 8_192_000_000_000_000,
{
    proof {
        lemma_wide_product(e1.y as int, e2.z as int);
        lemma_wide_product(e1.z as int, e2.y as int);
        lemma_wide_product(e1.z as int, e2.x as int);
        lemma_wide_product(e1.x as int, e2.z as int);
        lemma_wide_product(e1.x as int, e2.y as int);
        lemma_wide_product(e1.y as int, e2.x as int);
    }
    (
        (e1.y as i128) * (e2.z as i128) - (e1.z as i128) * (e2.y as i128),
        (e1.z as i128) * (e2.x as i128) - (e1.x as i128) * (e2.z as i128),
        (e1.x as i128) * (e2.y as i128) - (e1.y as i128) * (e2.x as i128),
    )
}

proof fn lemma_wide_product(a: int, b: int)
    requires
        -64_000_000 <= a <= 64_000_000,
        -64_000_000 <= b <= 64_000_000,
    ensures
        -4_096_000_000_000_000 <= a * b <= 4_096_000_000_000_000,
{
    assert(-4_096_000_000_000_000 <= a * b <= 4_096_000_000_000_000) by (nonlinear_arith)
        requires
            -64_000_000 <= a <= 64_000_000,
            -64_000_000 <= b <= 64_000_000,
    ;
}

/// The square of a cross component stays far within 128-bit range.
proof fn lemma_wide_square(a: int)
    requires
        -8_192_000_000_000_000 <= a <= 8_192_000_000_000_000,
    ensures
        0 <= a * a <= 0x1_0000_0000_0000_0000_0000_0000_0000u128,
{
    assert(0 <= a * a <= 0x1_0000_0000_0000_0000_0000_0000_0000u128) by (nonlinear_arith)
        requires
            -8_192_000_000_000_000 <= a <= 8_192_000_000_000_000,
    ;
}

/// The millimeter rendering of a micrometer value: the integer part, then
/// up to three fractional digits with trailing zeros dropped.
pub open spec fn mm_spec(v: int) -> Seq<char> {
    let sign: Seq<char> = if v < 0 {
        seq!['-']
    } else {
        Seq::empty()
    };
    let a = if v < 0 {
        -v
    } else {
        v
    };
    let whole = dec_spec(a / 1000);
    let frac = a % 1000;
    if frac == 0 {
        sign + whole
    } else if frac % 100 == 0 {
        sign + whole + seq!['.'] + seq![crate::text::digit_char(frac / 100)]
    } else if frac % 10 == 0 {
        sign + whole + seq!['.'] + pad_spec(frac / 10, 2)
    } else {
        sign + whole + seq!['.'] + pad_spec(frac, 3)
    }
}

/// Renders a micrometer value in millimeters.
pub fn mm_string(v: i64) -> (r: String)
    requires
        -32_000_000 <= v <= 32_000_000,
    ensures
        r@ == mm_spec(v as int),
{
    proof {
        reveal_strlit("-");
        reveal_strlit(".");
    }
    let mut out = String::new();
    let a: u64 = if v < 0 {
        out.append("-");
        (-v) as u64
    } else {
        v as u64
    };
    let whole = u64_to_string(a / 1000);
    out.append(whole.as_str());
    let frac = a % 1000;
    if frac == 0 {
    } else if frac % 100 == 0 {
        out.append(".");
        out.append(crate::text::digit_str(frac / 100));
    } else if frac % 10 == 0 {
        out.append(".");
        let p = padded_u64(frac / 10, 2);
        out.append(p.as_str());
    } else {
        out.append(".");
        let p = padded_u64(frac, 3);
        out.append(p.as_str());
    }
    proof {
        assert(out@ =~= mm_spec(v as int));
    }
    out
}

/// The text of one fixed-point normal component (scaled by 2^24): seven
/// decimal places, or `0` for zero.
pub open spec fn norm_spec(ni: int) -> Seq<char> {
    if ni == 0 {
        seq!['0']
    } else {
        let sign: Seq<char> = if ni < 0 {
            seq!['-']
        } else {
            Seq::empty()
        };
        let a = if ni < 0 {
            -ni
        } else {
            ni
        };
        let d7 = (a * 10_000_000 + 8_388_608) / 16_777_216;
        sign + dec_spec(d7 / 10_000_000) + seq!['.'] + pad_spec(d7 % 10_000_000, 7)
    }
}

/// Renders one fixed-point normal component with seven decimal places.
pub fn norm_string(ni: i64) -> (r: String)
    requires
        -16_777_216 <= ni <= 16_777_216,
    ensures
        r@ == norm_spec(ni as int),
{
    proof {
        reveal_strlit("-");
        reveal_strlit(".");
        reveal_strlit("0");
    }
    if ni == 0 {
        let zero = String::from_str("0");
        proof {
            assert(zero@ =~= norm_spec(0));
        }
        return zero;
    }
    let mut out = String::new();
    let a: u64 = if ni < 0 {
        out.append("-");
        (-ni) as u64
    } else {
        ni as u64
    };
    let d7: u64 = (a * 10_000_000 + 8_388_608) / 16_777_216;
    let whole = u64_to_string(d7 / 10_000_000);
    out.append(whole.as_str());
    out.append(".");
    let p = padded_u64(d7 % 10_000_000, 7);
    out.append(p.as_str());
    proof {
        assert(out@ =~= norm_spec(ni as int));
    }
    out
}

/// The text of one `vertex x y z` line, in millimeters.
pub open spec fn vertex_text_spec(v: Vector3) -> Seq<char> {
    "    vertex "@ + mm_spec(v.x as int) + seq![' '] + mm_spec(v.y as int) + seq![' ']
        + mm_spec(v.z as int) + seq!['\n']
}

/// The text of one facet block: the normal line, the vertex loop, the
/// closers.
pub open spec fn facet_text_spec(t: Triangle) -> Seq<char> {
    let n = triangle_normal_spec(t);
    "facet normal "@ + norm_spec(n.0) + seq![' '] + norm_spec(n.1) + seq![' '] + norm_spec(n.2)
        + seq!['\n'] + "  outer loop"@ + seq!['\n'] + vertex_text_spec(t.v0) + vertex_text_spec(
        t.v1,
    ) + vertex_text_spec(t.v2) + "  endloop"@ + seq!['\n'] + "endfacet"@ + seq!['\n']
}

/// The facet blocks of the triangles from index `i` onward, in order.
pub open spec fn facets_text_from_spec(tris: Seq<Triangle>, i: int) -> Seq<char>
    decreases tris.len() - i,
{
    if i >= tris.len() || i < 0 {
        Seq::empty()
    } else {
        facet_text_spec(tris[i]) + facets_text_from_spec(tris, i + 1)
    }
}

/// Serializes a mesh as textual STL: a `solid <name>` line, one facet
/// block per triangle in mesh order, and an `endsolid <name>` line -
/// exactly this text, character for character.
pub fn write_ascii_stl(mesh: &Mesh, name: &str) -> (r: String)
    requires
        mesh.in_bounds(),
    ensures
        r@ == "solid "@ + name@ + seq!['\n'] + facets_text_from_spec(mesh.triangles@, 0)
            + "endsolid "@ + name@ + seq!['\n'],
{
    proof {
        reveal_strlit("solid ");
        reveal_strlit("endsolid ");
        reveal_strlit("\n");
    }
    let mut out = String::new();
    out.append("solid ");
    out.append(name);
    out.append("\n");
    let ghost prefix = "solid "@ + name@ + seq!['\n'];
    proof {
        assert(out@ =~= prefix + Seq::<char>::empty());
    }
    let mut i: usize = 0;
    while i < mesh.triangles.len()
        invariant
            mesh.in_bounds(),
            prefix == "solid "@ + name@ + seq!['\n'],
            out@.len() >= prefix.len(),
            facets_text_from_spec(mesh.triangles@, 0) == out@.skip(prefix.len() as int)
                + facets_text_from_spec(mesh.triangles@, i as int),
            out@.take(prefix.len() as int) == prefix,
        decreases mesh.triangles@.len() - i,
    {
        let ghost pre = out@;
        append_facet(&mut out, &mesh.triangles[i]);
        proof {
            assert(out@.skip(prefix.len() as int) =~= pre.skip(prefix.len() as int)
                + facet_text_spec(mesh.triangles@[i as int]));
            assert(out@.take(prefix.len() as int) =~= prefix);
        }
        i = i + 1;
    }
    proof {
        assert(facets_text_from_spec(mesh.triangles@, mesh.triangles@.len() as int) =~= Seq::<
            char,
        >::empty());
        assert(out@ =~= prefix + facets_text_from_spec(mesh.triangles@, 0));
    }
    out.append("endsolid ");
    out.append(name);
    out.append("\n");
    proof {
        assert(out@ =~= "solid "@ + name@ + seq!['\n'] + facets_text_from_spec(
            mesh.triangles@,
            0,
        ) + "endsolid "@ + name@ + seq!['\n']);
    }
    out
}

/// Appends one facet block: exactly [`facet_text_spec`].
#[verifier::rlimit(100)]
fn append_facet(out: &mut String, t: &Triangle)
    requires
        t.in_bounds(),
    ensures
        final(out)@ == old(out)@ + facet_text_spec(*t),
{
    proof {
        reveal_strlit("facet normal ");
        reveal_strlit("  outer loop");
        reveal_strlit("  endloop");
        reveal_strlit("endfacet");
        reveal_strlit(" ");
        reveal_strlit("\n");
    }
    let (nx, ny, nz) = triangle_normal_fixed(t);
    out.append("facet normal ");
    let sx = norm_string(nx);
    out.append(sx.as_str());
    out.append(" ");
    let sy = norm_string(ny);
    out.append(sy.as_str());
    out.append(" ");
    let sz = norm_string(nz);
    out.append(sz.as_str());
    out.append("\n");
    out.append("  outer loop");
    out.append("\n");
    append_vertex(out, &t.v0);
    append_vertex(out, &t.v1);
    append_vertex(out, &t.v2);
    out.append("  endloop");
    out.append("\n");
    out.append("endfacet");
    out.append("\n");
    proof {
        assert(final(out)@ =~= old(out)@ + facet_text_spec(*t));
    }
}

/// Appends one `    vertex x y z` line: exactly [`vertex_text_spec`].
fn append_vertex(out: &mut String, v: &Vector3)
    requires
        v.in_bounds(),
    ensures
        final(out)@ == old(out)@ + vertex_text_spec(*v),
{
    proof {
        reveal_strlit("    vertex ");
        reveal_strlit(" ");
        reveal_strlit("\n");
    }
    out.append("    vertex ");
    let s = mm_string(v.x);
    out.append(s.as_str());
    out.append(" ");
    let s = mm_string(v.y);
    out.append(s.as_str());
    out.append(" ");
    let s = mm_string(v.z);
    out.append(s.as_str());
    out.append("\n");
    proof {
        assert(final(out)@ =~= old(out)@ + vertex_text_spec(*v));
    }
}

/// The four little-endian bytes of a 32-bit value.
pub open spec fn le4_spec(v: int) -> Seq<u8> {
    seq![
        (v % 256) as u8,
        (v / 256 % 256) as u8,
        (v / 65536 % 256) as u8,
        (v / 16777216 % 256) as u8,
    ]
}

/// The 50-byte binary record of one triangle: the three encoded normal
/// fields, the nine encoded vertex fields, and a zero attribute count.
pub open spec fn record_bytes_spec(t: Triangle) -> Seq<u8> {
    let n = triangle_normal_spec(t);
    le4_spec(f32_bits_of_frac24_spec(n.0)) + le4_spec(f32_bits_of_frac24_spec(n.1)) + le4_spec(
        f32_bits_of_frac24_spec(n.2),
    ) + le4_spec(f32_bits_of_um_spec(t.v0.x as int)) + le4_spec(f32_bits_of_um_spec(t.v0.y as int))
        + le4_spec(f32_bits_of_um_spec(t.v0.z as int)) + le4_spec(
        f32_bits_of_um_spec(t.v1.x as int),
    ) + le4_spec(f32_bits_of_um_spec(t.v1.y as int)) + le4_spec(f32_bits_of_um_spec(t.v1.z as int))
        + le4_spec(f32_bits_of_um_spec(t.v2.x as int)) + le4_spec(
        f32_bits_of_um_spec(t.v2.y as int),
    ) + le4_spec(f32_bits_of_um_spec(t.v2.z as int)) + seq![0u8, 0u8]
}

/// Pushes the four little-endian bytes of a 32-bit value.
fn push_le_u32(out: &mut Vec<u8>, v: u32)
    ensures
        final(out)@ == old(out)@.push((v % 256) as u8).push((v / 256 % 256) as u8).push(
            (v / 65536 % 256) as u8,
        ).push((v / 16777216 % 256) as u8),
{
    out.push((v % 256) as u8);
    out.push((v / 256 % 256) as u8);
    out.push((v / 65536 % 256) as u8);
    out.push((v / 16777216 % 256) as u8);
}

/// Serializes a mesh as binary STL: for `T` triangles the output holds
/// exactly `84 + 50 T` bytes - the 80-byte header carrying the name's
/// leading bytes, the little-endian triangle count, and one 50-byte record
/// per triangle ending in a zero attribute count.
pub fn write_binary_stl(mesh: &Mesh, name: &str) -> (r: Vec<u8>)
    requires
        mesh.in_bounds(),
        mesh.triangles@.len() <= 0xFFFF_FFFF,
    ensures
        r@.len() == 84 + 50 * mesh.triangles@.len(),
        r@[80] == (mesh.triangles@.len() % 256) as u8,
        r@[81] == (mesh.triangles@.len() as int / 256 % 256) as u8,
        r@[82] == (mesh.triangles@.len() as int / 65536 % 256) as u8,
        r@[83] == (mesh.triangles@.len() as int / 16777216 % 256) as u8,
        forall|k: int|
            84 <= k < r@.len() && ((k - 84) % 50 == 48 || (k - 84) % 50 == 49)
                ==> #[trigger] r@[k] == 0,
        forall|j: int|
            0 <= j < mesh.triangles@.len() ==> r@.subrange(84 + 50 * j, 134 + 50 * j)
                == #[trigger] record_bytes_spec(mesh.triangles@[j]),
{
    let mut out: Vec<u8> = Vec::new();
    let name_bytes = name.as_bytes();
    let mut i: usize = 0;
    while i < 80
        invariant
            i <= 80,
            out@.len() == i,
        decreases 80 - i,
    {
        if i < name_bytes.len() {
            out.push(name_bytes[i]);
        } else {
            out.push(0);
        }
        i = i + 1;
    }
    let count: u32 = mesh.triangles.len() as u32;
    push_le_u32(&mut out, count);
    let mut t: usize = 0;
    while t < mesh.triangles.len()
        invariant
            mesh.in_bounds(),
            mesh.triangles@.len() <= 0xFFFF_FFFF,
            t <= mesh.triangles@.len(),
            out@.len() == 84 + 50 * t,
            out@[80] == (mesh.triangles@.len() % 256) as u8,
            out@[81] == (mesh.triangles@.len() as int / 256 % 256) as u8,
            out@[82] == (mesh.triangles@.len() as int / 65536 % 256) as u8,
            out@[83] == (mesh.triangles@.len() as int / 16777216 % 256) as u8,
            forall|k: int|
                84 <= k < out@.len() && ((k - 84) % 50 == 48 || (k - 84) % 50 == 49)
                    ==> #[trigger] out@[k] == 0,
            forall|j: int|
                0 <= j < t ==> out@.subrange(84 + 50 * j, 134 + 50 * j)
                    == #[trigger] record_bytes_spec(mesh.triangles@[j]),
        decreases mesh.triangles@.len() - t,
    {
        let ghost pre_len = out@.len() as int;
        let ghost entry_out = out@;
        push_triangle_record(&mut out, &mesh.triangles[t]);
        proof {
            assert(pre_len == 84 + 50 * t);
            assert(out@[pre_len + 48] == 0);
            assert(out@[pre_len + 49] == 0);
            assert(out@[84 + 50 * (t as int) + 48] == 0);
            assert(out@[84 + 50 * (t as int) + 49] == 0);
            assert(out@.len() == 84 + 50 * (t + 1)) by (nonlinear_arith)
                requires
                    out@.len() == 84 + 50 * t + 50,
            ;
            assert forall|k: int|
                84 <= k < out@.len() && ((k - 84) % 50 == 48 || (k - 84) % 50 == 49)
                    implies #[trigger] out@[k] == 0 by {
                if k < pre_len {
                    assert(out@[k] == entry_out[k]);
                } else {
                    let d = k - pre_len;
                    assert(k - 84 == 50 * t + d) by (nonlinear_arith)
                        requires
                            pre_len == 84 + 50 * t,
                            d == k - pre_len,
                    ;
                    vstd::arithmetic::div_mod::lemma_mod_multiples_vanish(t as int, d, 50);
                    vstd::arithmetic::div_mod::lemma_small_mod(d as nat, 50);
                    assert((k - 84) % 50 == d);
                    assert(d == 48 || d == 49);
                    assert(out@[k] == out@[pre_len + d]);
                }
            }
            assert(record_bytes_spec(mesh.triangles@[t as int]).len() == 50);
            assert forall|j: int| 0 <= j < t + 1 implies out@.subrange(84 + 50 * j, 134 + 50 * j)
                == #[trigger] record_bytes_spec(mesh.triangles@[j]) by {
                if j < t {
                    assert(134 + 50 * j <= pre_len) by (nonlinear_arith)
                        requires
                            j <= t - 1,
                            pre_len == 84 + 50 * t,
                    ;
                    assert(out@.subrange(84 + 50 * j, 134 + 50 * j) =~= entry_out.subrange(
                        84 + 50 * j,
                        134 + 50 * j,
                    ));
                } else {
                    assert(out@.subrange(84 + 50 * j, 134 + 50 * j) =~= record_bytes_spec(
                        mesh.triangles@[j],
                    ));
                }
            }
        }
        t = t + 1;
    }
    out
}

/// Appends the 50-byte record of one triangle: three normal fields, nine
/// vertex fields, and a zero attribute count.
/// Pushes the twelve little-endian bytes of three 32-bit values.
fn push_le_u32x3(out: &mut Vec<u8>, a: u32, b: u32, c: u32)
    ensures
        final(out)@ == old(out)@ + le4_spec(a as int) + le4_spec(b as int) + le4_spec(c as int),
{
    push_le_u32(out, a);
    push_le_u32(out, b);
    push_le_u32(out, c);
    proof {
        assert(final(out)@ =~= old(out)@ + le4_spec(a as int) + le4_spec(b as int) + le4_spec(
            c as int,
        ));
    }
}

/// Pushes twelve encoded fields and the zero attribute count.
fn push_record_fields(
    out: &mut Vec<u8>,
    f0: u32,
    f1: u32,
    f2: u32,
    w0: u32,
    w1: u32,
    w2: u32,
    w3: u32,
    w4: u32,
    w5: u32,
    w6: u32,
    w7: u32,
    w8: u32,
)
    ensures
        final(out)@ == old(out)@ + le4_spec(f0 as int) + le4_spec(f1 as int) + le4_spec(f2 as int)
            + le4_spec(w0 as int) + le4_spec(w1 as int) + le4_spec(w2 as int) + le4_spec(
            w3 as int,
        ) + le4_spec(w4 as int) + le4_spec(w5 as int) + le4_spec(w6 as int) + le4_spec(w7 as int)
            + le4_spec(w8 as int) + seq![0u8, 0u8],
{
    push_le_u32x3(out, f0, f1, f2);
    push_le_u32x3(out, w0, w1, w2);
    push_le_u32x3(out, w3, w4, w5);
    push_le_u32x3(out, w6, w7, w8);
    out.push(0);
    out.push(0);
    proof {
        assert(final(out)@ =~= old(out)@ + le4_spec(f0 as int) + le4_spec(f1 as int) + le4_spec(
            f2 as int,
        ) + le4_spec(w0 as int) + le4_spec(w1 as int) + le4_spec(w2 as int) + le4_spec(w3 as int)
            + le4_spec(w4 as int) + le4_spec(w5 as int) + le4_spec(w6 as int) + le4_spec(
            w7 as int,
        ) + le4_spec(w8 as int) + seq![0u8, 0u8]);
    }
}

/// Appends the 50-byte record of one triangle: three normal fields, nine
/// vertex fields, and a zero attribute count.
#[verifier::rlimit(100)]
fn push_triangle_record(out: &mut Vec<u8>, tri: &Triangle)
    requires
        tri.in_bounds(),
    ensures
        final(out)@ == old(out)@ + record_bytes_spec(*tri),
        final(out)@.len() == old(out)@.len() + 50,
        forall|k: int| 0 <= k < old(out)@.len() ==> #[trigger] final(out)@[k] == old(out)@[k],
        final(out)@[old(out)@.len() as int + 48] == 0,
        final(out)@[old(out)@.len() as int + 49] == 0,
{
    let (nx, ny, nz) = triangle_normal_fixed(tri);
    let f0 = f32_bits_of_frac24(nx);
    let f1 = f32_bits_of_frac24(ny);
    let f2 = f32_bits_of_frac24(nz);
    let w0 = f32_bits_of_um(tri.v0.x);
    let w1 = f32_bits_of_um(tri.v0.y);
    let w2 = f32_bits_of_um(tri.v0.z);
    let w3 = f32_bits_of_um(tri.v1.x);
    let w4 = f32_bits_of_um(tri.v1.y);
    let w5 = f32_bits_of_um(tri.v1.z);
    let w6 = f32_bits_of_um(tri.v2.x);
    let w7 = f32_bits_of_um(tri.v2.y);
    let w8 = f32_bits_of_um(tri.v2.z);
    push_record_fields(out, f0, f1, f2, w0, w1, w2, w3, w4, w5, w6, w7, w8);
    proof {
        let n = triangle_normal_spec(*tri);
        assert(f0 as int == f32_bits_of_frac24_spec(n.0));
        assert(f1 as int == f32_bits_of_frac24_spec(n.1));
        assert(f2 as int == f32_bits_of_frac24_spec(n.2));
        assert(record_bytes_spec(*tri) == le4_spec(f0 as int) + le4_spec(f1 as int) + le4_spec(
            f2 as int,
        ) + le4_spec(w0 as int) + le4_spec(w1 as int) + le4_spec(w2 as int) + le4_spec(w3 as int)
            + le4_spec(w4 as int) + le4_spec(w5 as int) + le4_spec(w6 as int) + le4_spec(
            w7 as int,
        ) + le4_spec(w8 as int) + seq![0u8, 0u8]);
        assert(record_bytes_spec(*tri).len() == 50);
        assert(final(out)@[old(out)@.len() as int + 48] == record_bytes_spec(*tri)[48]);
        assert(final(out)@[old(out)@.len() as int + 49] == record_bytes_spec(*tri)[49]);
    }
}

/// Serializes a mesh in the chosen STL format. The binary form holds
/// exactly `84 + 50 T` bytes with the little-endian count at offset 80 and
/// a zero attribute word closing every 50-byte record; the textual form is
/// the UTF-8 bytes of a `solid <name>` ... `endsolid <name>` document.
pub fn write_stl(mesh: &Mesh, format: StlFormat, name: &str) -> (r: Result<Vec<u8>, PixestlError>)
    requires
        mesh.in_bounds(),
        mesh.triangles@.len() <= 0xFFFF_FFFF,
    ensures
        match r {
            Ok(bytes) => {
                &&& format == StlFormat::Binary ==> {
                    &&& bytes@.len() == 84 + 50 * mesh.triangles@.len()
                    &&& bytes@[80] == (mesh.triangles@.len() % 256) as u8
                    &&& bytes@[81] == (mesh.triangles@.len() as int / 256 % 256) as u8
                    &&& bytes@[82] == (mesh.triangles@.len() as int / 65536 % 256) as u8
                    &&& bytes@[83] == (mesh.triangles@.len() as int / 16777216 % 256) as u8
                    &&& forall|k: int|
                        84 <= k < bytes@.len() && ((k - 84) % 50 == 48 || (k - 84) % 50 == 49)
                            ==> #[trigger] bytes@[k] == 0
                    &&& forall|j: int|
                        0 <= j < mesh.triangles@.len() ==> bytes@.subrange(
                            84 + 50 * j,
                            134 + 50 * j,
                        ) == #[trigger] record_bytes_spec(mesh.triangles@[j])
                }
                &&& format == StlFormat::Ascii ==> bytes@ == vstd::utf8::encode_utf8(
                    "solid "@ + name@ + seq!['\n'] + facets_text_from_spec(mesh.triangles@, 0)
                        + "endsolid "@ + name@ + seq!['\n'],
                )
            },
            Err(_) => false,
        },
{
    match format {
        StlFormat::Ascii => {
            let text = write_ascii_stl(mesh, name);
            let bytes = text.as_str().as_bytes_vec();
            Ok(bytes)
        },
        StlFormat::Binary => Ok(write_binary_stl(mesh, name)),
    }
}

} // verus!

