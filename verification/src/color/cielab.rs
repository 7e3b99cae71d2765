//! CIELab color in fixed point: L, a and b scaled by 100000.
//!
//! The conversion follows the usual three stages on exact integers: sRGB
//! channel linearization (a 12/5 power, computed with a floor fifth root),
//! the D65 matrix to XYZ, and the Lab pivot (a floor cube root above the
//! small-value threshold). Scales: linear channel values carry seven decimal
//! places, the whitepoint-relative XYZ twelve, and the Lab coordinates five.

use vstd::prelude::*;
use crate::color::rgb::Rgb;
use crate::mathx::{icbrt128, iroot5_128, isqrt64};

verus! {

/// The fixed-point scale of Lab coordinates: 100000 units per Lab unit.
pub const LAB_ONE: i64 = 100_000;

/// CIELab color, each coordinate scaled by [`LAB_ONE`]. `l` spans 0 to 100
/// Lab units, `a` and `b` roughly -128 to 128.
#[derive(Debug, Clone, Copy, PartialEq, Eq, Structural)]
pub struct CieLab {
    /// Lightness, scaled.
    pub l: i64,
    /// Green-red axis, scaled.
    pub a: i64,
    /// Blue-yellow axis, scaled.
    pub b: i64,
}

/// Whether `r` is the floor fifth root of `n`.
pub open spec fn is_floor_root5(n: int, r: int) -> bool {
    0 <= r && r * r * r * r * r <= n && n < (r + 1) * (r + 1) * (r + 1) * (r + 1) * (r + 1)
}

/// The floor fifth root of a non-negative integer.
pub open spec fn froot5(n: int) -> int {
    choose|r: int| is_floor_root5(n, r)
}

/// Whether `r` is the floor cube root of `n`.
pub open spec fn is_floor_root3(n: int, r: int) -> bool {
    0 <= r && r * r * r <= n && n < (r + 1) * (r + 1) * (r + 1)
}

/// The floor cube root of a non-negative integer.
pub open spec fn fcbrt(n: int) -> int {
    choose|r: int| is_floor_root3(n, r)
}

/// At most one integer is the floor fifth root of a value.
proof fn lemma_root5_unique(n: int, r1: int, r2: int)
    requires
        is_floor_root5(n, r1),
        is_floor_root5(n, r2),
    ensures
        r1 == r2,
{
    if r1 < r2 {
        assert((r1 + 1) * (r1 + 1) * (r1 + 1) * (r1 + 1) * (r1 + 1) <= r2 * r2 * r2 * r2 * r2)
            by (nonlinear_arith)
            requires
                0 <= r1 + 1 <= r2,
        ;
    }
    if r2 < r1 {
        assert((r2 + 1) * (r2 + 1) * (r2 + 1) * (r2 + 1) * (r2 + 1) <= r1 * r1 * r1 * r1 * r1)
            by (nonlinear_arith)
            requires
                0 <= r2 + 1 <= r1,
        ;
    }
}

/// At most one integer is the floor cube root of a value.
proof fn lemma_root3_unique(n: int, r1: int, r2: int)
    requires
        is_floor_root3(n, r1),
        is_floor_root3(n, r2),
    ensures
        r1 == r2,
{
    if r1 < r2 {
        assert((r1 + 1) * (r1 + 1) * (r1 + 1) <= r2 * r2 * r2) by (nonlinear_arith)
            requires
                0 <= r1 + 1 <= r2,
        ;
    }
    if r2 < r1 {
        assert((r2 + 1) * (r2 + 1) * (r2 + 1) <= r1 * r1 * r1) by (nonlinear_arith)
            requires
                0 <= r2 + 1 <= r1,
        ;
    }
}

/// The linearized value of one sRGB channel, scaled by ten million.
///
/// Below the companding threshold (channel values up to 10) the curve is the
/// straight line `n / 12.92`; above it, `((n + 0.055) / 1.055)^2.4`, computed
/// as the floor fifth root of the scaled twelfth power.
pub open spec fn linear_channel_spec(c: int) -> int {
    if c <= 10 {
        c * 100_000_000 / 32946
    } else {
        let x = 1000 * c + 14025;
        let u = x * x * 1_000_000_000_000 / 72_374_450_625;
        let p = u * u * u / 1_000_000_000_000_000_000_000_000;
        let q = p * p / 1_000_000_000_000;
        froot5(q * 100_000_000_000_000_000_000_000)
    }
}

/// Linearizes one sRGB channel.
fn linear_channel(c: u8) -> (r: u64)
    ensures
        r == linear_channel_spec(c as int),
        r <= 10_000_000,
{
    if c <= 10 {
        let v: u64 = (c as u64) * 100_000_000 / 32946;
        proof {
            vstd::arithmetic::div_mod::lemma_div_is_ordered(
                c as int * 100_000_000,
                1_000_000_000,
                32946,
            );
        }
        v
    } else {
        let x: u128 = 1000 * (c as u128) + 14025;
        proof {
            assert(x * x <= 72_374_450_625u128) by (nonlinear_arith)
                requires
                    x <= 269025u128,
            ;
            assert(x * x * 1_000_000_000_000 <= 72_374_450_625_000_000_000_000u128)
                by (nonlinear_arith)
                requires
                    x * x <= 72_374_450_625u128,
            ;
        }
        let u: u128 = x * x * 1_000_000_000_000 / 72_374_450_625;
        proof {
            vstd::arithmetic::div_mod::lemma_div_is_ordered(
                (x * x * 1_000_000_000_000) as int,
                72_374_450_625_000_000_000_000,
                72_374_450_625,
            );
            vstd::arithmetic::div_mod::lemma_div_multiples_vanish(
                1_000_000_000_000,
                72_374_450_625,
            );
            assert(u <= 1_000_000_000_000u128);
            assert(u * u <= 1_000_000_000_000_000_000_000_000u128 && u * u * u
                <= 1_000_000_000_000_000_000_000_000_000_000_000_000u128) by (nonlinear_arith)
                requires
                    u <= 1_000_000_000_000u128,
            ;
        }
        let p: u128 = u * u * u / 1_000_000_000_000_000_000_000_000;
        proof {
            vstd::arithmetic::div_mod::lemma_div_is_ordered(
                (u * u * u) as int,
                1_000_000_000_000_000_000_000_000_000_000_000_000,
                1_000_000_000_000_000_000_000_000,
            );
            vstd::arithmetic::div_mod::lemma_div_multiples_vanish(
                1_000_000_000_000,
                1_000_000_000_000_000_000_000_000,
            );
            assert(u * u <= 1_000_000_000_000_000_000_000_000u128 && u * u * u
                <= 1_000_000_000_000_000_000_000_000_000_000_000_000u128) by (nonlinear_arith)
                requires
                    u <= 1_000_000_000_000u128,
            ;
            assert(p <= 1_000_000_000_000u128);
            assert(p * p <= 1_000_000_000_000_000_000_000_000u128) by (nonlinear_arith)
                requires
                    p <= 1_000_000_000_000u128,
            ;
        }
        let q: u128 = p * p / 1_000_000_000_000;
        proof {
            vstd::arithmetic::div_mod::lemma_div_is_ordered(
                (p * p) as int,
                1_000_000_000_000_000_000_000_000,
                1_000_000_000_000,
            );
            vstd::arithmetic::div_mod::lemma_div_multiples_vanish(
                1_000_000_000_000,
                1_000_000_000_000,
            );
            assert(q <= 1_000_000_000_000u128);
        }
        let arg: u128 = q * 100_000_000_000_000_000_000_000;
        proof {
            assert(arg <= 100_000_000_000_000_000_000_000_000_000_000_000u128)
                by (nonlinear_arith)
                requires
                    q <= 1_000_000_000_000u128,
                    arg == q * 100_000_000_000_000_000_000_000u128,
            ;
        }
        let lin = iroot5_128(arg);
        proof {
            assert(is_floor_root5(arg as int, lin as int));
            assert(exists|r: int| is_floor_root5(arg as int, r)) by {
                assert(is_floor_root5(arg as int, lin as int));
            }
            lemma_root5_unique(arg as int, lin as int, froot5(arg as int));
            assert(lin <= 10_000_000) by (nonlinear_arith)
                requires
                    lin as int * lin as int * lin as int * lin as int * lin as int <= arg as int,
                    arg <= 100_000_000_000_000_000_000_000_000_000_000_000u128,
            ;
        }
        lin as u64
    }
}

/// The whitepoint-relative XYZ coordinates of a color, each scaled by a
/// trillion: the D65 matrix applied to the linear channels, divided by the
/// D65 whitepoint (95.047, 100.0, 108.883).
pub open spec fn xyz_t_spec(c: Rgb) -> (int, int, int) {
    let lr = linear_channel_spec(c.r as int);
    let lg = linear_channel_spec(c.g as int);
    let lb = linear_channel_spec(c.b as int);
    (
        (4124564 * lr + 3575761 * lg + 1804375 * lb) * 1000 / 95047,
        (2126729 * lr + 7151522 * lg + 721750 * lb) / 100,
        (193339 * lr + 1191920 * lg + 9503041 * lb) * 1000 / 108883,
    )
}

/// The Lab pivot of one whitepoint-relative coordinate (scaled by a
/// trillion), yielding a value scaled by 100000: the floor cube root above
/// the threshold 0.008856, and the straight line `t * 7.787037 + 4/29`
/// below it; zero coordinates stay zero.
pub open spec fn pivot_spec(t: int) -> int {
    if t <= 0 {
        0
    } else if t > 8_856_000_000 {
        fcbrt(t * 1000)
    } else {
        (29 * 7787037 * t + 4_000_000_000_000_000_000) * 100_000 / 29_000_000_000_000_000_000
    }
}

/// Applies the Lab pivot to one coordinate.
fn pivot(t: u64) -> (r: u64)
    requires
        t <= 1_000_000_100_000,
    ensures
        r == pivot_spec(t as int),
        r <= 100_001,
{
    if t == 0 {
        0
    } else if t > 8_856_000_000 {
        let arg: u128 = (t as u128) * 1000;
        let root = icbrt128(arg);
        proof {
            assert(is_floor_root3(arg as int, root as int));
            assert(exists|r: int| is_floor_root3(arg as int, r)) by {
                assert(is_floor_root3(arg as int, root as int));
            }
            lemma_root3_unique(arg as int, root as int, fcbrt(arg as int));
            assert(root <= 100_001) by (nonlinear_arith)
                requires
                    root as int * root as int * root as int <= arg as int,
                    arg <= 1_000_000_100_000_000u128,
            ;
        }
        root as u64
    } else {
        let num: u128 = (29u128 * 7787037 * (t as u128) + 4_000_000_000_000_000_000) * 100_000;
        let v: u128 = num / 29_000_000_000_000_000_000;
        proof {
            assert(num <= 600_000_000_000_000_000_000_000_000u128) by (nonlinear_arith)
                requires
                    t <= 8_856_000_000u64,
                    num == (29u128 * 7787037 * (t as u128) + 4_000_000_000_000_000_000)
                        * 100_000u128,
            ;
            vstd::arithmetic::div_mod::lemma_div_is_ordered(
                num as int,
                600_000_000_000_000_000_000_000_000,
                29_000_000_000_000_000_000,
            );
        }
        v as u64
    }
}

/// The Lab coordinates of a color, each scaled by [`LAB_ONE`].
pub open spec fn lab_of_rgb_spec(c: Rgb) -> CieLab {
    let (tx, ty, tz) = xyz_t_spec(c);
    let fx = pivot_spec(tx);
    let fy = pivot_spec(ty);
    let fz = pivot_spec(tz);
    CieLab {
        l: (if 116 * fy >= 1_600_000 {
            116 * fy - 1_600_000
        } else {
            0
        }) as i64,
        a: (500 * (fx - fy)) as i64,
        b: (200 * (fy - fz)) as i64,
    }
}

impl CieLab {
    /// Builds a Lab color from its scaled coordinates.
    pub fn new(l: i64, a: i64, b: i64) -> (r: Self)
        ensures
            r == (CieLab { l, a, b }),
    {
        CieLab { l, a, b }
    }

    /// Coordinates small enough for squared distances to stay in range.
    pub open spec fn in_range(&self) -> bool {
        -100_000_000 <= self.l <= 100_000_000 && -100_000_000 <= self.a <= 100_000_000
            && -100_000_000 <= self.b <= 100_000_000
    }

    /// Converts an 8-bit RGB color to Lab.
    pub fn from_rgb(c: Rgb) -> (r: Self)
        ensures
            r == lab_of_rgb_spec(c),
            r.in_range(),
    {
        let lr = linear_channel(c.r);
        let lg = linear_channel(c.g);
        let lb = linear_channel(c.b);
        let sx: u64 = 4124564 * lr + 3575761 * lg + 1804375 * lb;
        let sy: u64 = 2126729 * lr + 7151522 * lg + 721750 * lb;
        let sz: u64 = 193339 * lr + 1191920 * lg + 9503041 * lb;
        let tx: u64 = sx * 1000 / 95047;
        let ty: u64 = sy / 100;
        let tz: u64 = sz * 1000 / 108883;
        proof {
            vstd::arithmetic::div_mod::lemma_div_is_ordered(
                sx as int * 1000,
                95_047_000_000_000_000,
                95047,
            );
            vstd::arithmetic::div_mod::lemma_div_multiples_vanish(1_000_000_000_000, 95047);
            vstd::arithmetic::div_mod::lemma_div_is_ordered(
                sy as int,
                100_000_010_000_000,
                100,
            );
            vstd::arithmetic::div_mod::lemma_div_multiples_vanish(1_000_000_100_000, 100);
            vstd::arithmetic::div_mod::lemma_div_is_ordered(
                sz as int * 1000,
                108_883_000_000_000_000,
                108883,
            );
            vstd::arithmetic::div_mod::lemma_div_multiples_vanish(1_000_000_000_000, 108883);
        }
        let fx = pivot(tx);
        let fy = pivot(ty);
        let fz = pivot(tz);
        let l: u64 = if 116 * fy >= 1_600_000 {
            116 * fy - 1_600_000
        } else {
            0
        };
        let a: i64 = 500 * (fx as i64 - fy as i64);
        let b: i64 = 200 * (fy as i64 - fz as i64);
        CieLab { l: l as i64, a, b }
    }

    /// The squared CIE76 distance between two Lab colors, in squared scaled
    /// units: the sum of the squared coordinate differences.
    pub open spec fn delta_e_sq_spec(a: CieLab, b: CieLab) -> int {
        (a.l - b.l) * (a.l - b.l) + (a.a - b.a) * (a.a - b.a) + (a.b - b.b) * (a.b - b.b)
    }

    /// Computes the squared CIE76 distance.
    pub fn delta_e_sq(&self, other: &CieLab) -> (r: u64)
        requires
            self.in_range(),
            other.in_range(),
        ensures
            r == CieLab::delta_e_sq_spec(*self, *other),
    {
        let dl = self.l - other.l;
        let da = self.a - other.a;
        let db = self.b - other.b;
        proof {
            assert(dl * dl <= 40_000_000_000_000_000 && da * da <= 40_000_000_000_000_000 && db
                * db <= 40_000_000_000_000_000 && dl * dl >= 0 && da * da >= 0 && db * db >= 0)
                by (nonlinear_arith)
                requires
                    -200_000_000 <= dl <= 200_000_000,
                    -200_000_000 <= da <= 200_000_000,
                    -200_000_000 <= db <= 200_000_000,
            ;
        }
        (dl * dl) as u64 + (da * da) as u64 + (db * db) as u64
    }

    /// The CIE76 distance, scaled by [`LAB_ONE`], rounded down.
    pub fn delta_e(&self, other: &CieLab) -> (r: u64)
        requires
            self.in_range(),
            other.in_range(),
        ensures
            r as int * r as int <= CieLab::delta_e_sq_spec(*self, *other),
            CieLab::delta_e_sq_spec(*self, *other) < (r as int + 1) * (r as int + 1),
    {
        let sq = self.delta_e_sq(other);
        isqrt64(sq)
    }
}

/// The CIE76 distance is symmetric: swapping the two colors leaves the
/// squared distance unchanged.
pub proof fn lemma_delta_e_symmetric(a: CieLab, b: CieLab)
    ensures
        CieLab::delta_e_sq_spec(a, b) == CieLab::delta_e_sq_spec(b, a),
{
    assert((a.l - b.l) * (a.l - b.l) == (b.l - a.l) * (b.l - a.l)) by (nonlinear_arith);
    assert((a.a - b.a) * (a.a - b.a) == (b.a - a.a) * (b.a - a.a)) by (nonlinear_arith);
    assert((a.b - b.b) * (a.b - b.b) == (b.b - a.b) * (b.b - a.b)) by (nonlinear_arith);
}

/// The CIE76 distance is non-negative, and zero exactly when the two colors
/// are equal.
pub proof fn lemma_delta_e_zero_iff_equal(a: CieLab, b: CieLab)
    ensures
        CieLab::delta_e_sq_spec(a, b) >= 0,
        CieLab::delta_e_sq_spec(a, b) == 0 <==> a == b,
{
    assert((a.l - b.l) * (a.l - b.l) >= 0 && ((a.l - b.l) * (a.l - b.l) == 0 <==> a.l == b.l))
        by (nonlinear_arith);
    assert((a.a - b.a) * (a.a - b.a) >= 0 && ((a.a - b.a) * (a.a - b.a) == 0 <==> a.a == b.a))
        by (nonlinear_arith);
    assert((a.b - b.b) * (a.b - b.b) >= 0 && ((a.b - b.b) * (a.b - b.b) == 0 <==> a.b == b.b))
        by (nonlinear_arith);
}

/// The Cauchy-Schwarz inequality in three dimensions: the squared inner
/// product never exceeds the product of the squared norms. The proof splits
/// the Lagrange identity into one expansion per monomial group.
proof fn lemma_cauchy_schwarz_3(u1: int, u2: int, u3: int, v1: int, v2: int, v3: int)
    ensures
        (u1 * v1 + u2 * v2 + u3 * v3) * (u1 * v1 + u2 * v2 + u3 * v3) <= (u1 * u1 + u2 * u2 + u3
            * u3) * (v1 * v1 + v2 * v2 + v3 * v3),
{
    let dot = u1 * v1 + u2 * v2 + u3 * v3;
    let s1 = u1 * u1 + u2 * u2 + u3 * u3;
    let s2 = v1 * v1 + v2 * v2 + v3 * v3;
    let p12 = u1 * v2 - u2 * v1;
    let p13 = u1 * v3 - u3 * v1;
    let p23 = u2 * v3 - u3 * v2;
    let a12 = u1 * v2;
    let b12 = u2 * v1;
    let a13 = u1 * v3;
    let b13 = u3 * v1;
    let a23 = u2 * v3;
    let b23 = u3 * v2;
    assert(p12 * p12 == a12 * a12 + b12 * b12 - 2 * (a12 * b12)) by (nonlinear_arith)
        requires
            p12 == a12 - b12,
    ;
    assert(a12 * a12 == u1 * u1 * (v2 * v2)) by (nonlinear_arith)
        requires
            a12 == u1 * v2,
    ;
    assert(b12 * b12 == u2 * u2 * (v1 * v1)) by (nonlinear_arith)
        requires
            b12 == u2 * v1,
    ;
    assert(a12 * b12 == (u1 * v1) * (u2 * v2)) by (nonlinear_arith)
        requires
            a12 == u1 * v2,
            b12 == u2 * v1,
    ;
    assert(p13 * p13 == a13 * a13 + b13 * b13 - 2 * (a13 * b13)) by (nonlinear_arith)
        requires
            p13 == a13 - b13,
    ;
    assert(a13 * a13 == u1 * u1 * (v3 * v3)) by (nonlinear_arith)
        requires
            a13 == u1 * v3,
    ;
    assert(b13 * b13 == u3 * u3 * (v1 * v1)) by (nonlinear_arith)
        requires
            b13 == u3 * v1,
    ;
    assert(a13 * b13 == (u1 * v1) * (u3 * v3)) by (nonlinear_arith)
        requires
            a13 == u1 * v3,
            b13 == u3 * v1,
    ;
    assert(p23 * p23 == a23 * a23 + b23 * b23 - 2 * (a23 * b23)) by (nonlinear_arith)
        requires
            p23 == a23 - b23,
    ;
    assert(a23 * a23 == u2 * u2 * (v3 * v3)) by (nonlinear_arith)
        requires
            a23 == u2 * v3,
    ;
    assert(b23 * b23 == u3 * u3 * (v2 * v2)) by (nonlinear_arith)
        requires
            b23 == u3 * v2,
    ;
    assert(a23 * b23 == (u2 * v2) * (u3 * v3)) by (nonlinear_arith)
        requires
            a23 == u2 * v3,
            b23 == u3 * v2,
    ;
    assert(dot * dot == (u1 * v1) * (u1 * v1) + (u2 * v2) * (u2 * v2) + (u3 * v3) * (u3 * v3) + 2
        * ((u1 * v1) * (u2 * v2)) + 2 * ((u1 * v1) * (u3 * v3)) + 2 * ((u2 * v2) * (u3 * v3)))
        by (nonlinear_arith)
        requires
            dot == u1 * v1 + u2 * v2 + u3 * v3,
    ;
    assert(s1 * s2 == u1 * u1 * (v1 * v1) + u1 * u1 * (v2 * v2) + u1 * u1 * (v3 * v3) + u2 * u2
        * (v1 * v1) + u2 * u2 * (v2 * v2) + u2 * u2 * (v3 * v3) + u3 * u3 * (v1 * v1) + u3 * u3
        * (v2 * v2) + u3 * u3 * (v3 * v3)) by (nonlinear_arith)
        requires
            s1 == u1 * u1 + u2 * u2 + u3 * u3,
            s2 == v1 * v1 + v2 * v2 + v3 * v3,
    ;
    assert(u1 * u1 * (v1 * v1) == (u1 * v1) * (u1 * v1)) by (nonlinear_arith);
    assert(u2 * u2 * (v2 * v2) == (u2 * v2) * (u2 * v2)) by (nonlinear_arith);
    assert(u3 * u3 * (v3 * v3) == (u3 * v3) * (u3 * v3)) by (nonlinear_arith);
    assert(p12 * p12 >= 0) by (nonlinear_arith);
    assert(p13 * p13 >= 0) by (nonlinear_arith);
    assert(p23 * p23 >= 0) by (nonlinear_arith);
    assert(dot * dot <= s1 * s2);
}

/// The square-free triangle inequality for squared Euclidean norms of two
/// integer vectors and their sum.
proof fn lemma_sq_triangle(u1: int, u2: int, u3: int, v1: int, v2: int, v3: int)
    ensures
        ((u1 + v1) * (u1 + v1) + (u2 + v2) * (u2 + v2) + (u3 + v3) * (u3 + v3) - (u1 * u1 + u2
            * u2 + u3 * u3) - (v1 * v1 + v2 * v2 + v3 * v3)) * ((u1 + v1) * (u1 + v1) + (u2 + v2)
            * (u2 + v2) + (u3 + v3) * (u3 + v3) - (u1 * u1 + u2 * u2 + u3 * u3) - (v1 * v1 + v2
            * v2 + v3 * v3)) <= 4 * ((u1 * u1 + u2 * u2 + u3 * u3) * (v1 * v1 + v2 * v2 + v3
            * v3)),
{
    let dab = u1 * u1 + u2 * u2 + u3 * u3;
    let dbc = v1 * v1 + v2 * v2 + v3 * v3;
    let dac = (u1 + v1) * (u1 + v1) + (u2 + v2) * (u2 + v2) + (u3 + v3) * (u3 + v3);
    let dot = u1 * v1 + u2 * v2 + u3 * v3;
    assert(dac - dab - dbc == 2 * dot) by (nonlinear_arith)
        requires
            dab == u1 * u1 + u2 * u2 + u3 * u3,
            dbc == v1 * v1 + v2 * v2 + v3 * v3,
            dac == (u1 + v1) * (u1 + v1) + (u2 + v2) * (u2 + v2) + (u3 + v3) * (u3 + v3),
            dot == u1 * v1 + u2 * v2 + u3 * v3,
    ;
    lemma_cauchy_schwarz_3(u1, u2, u3, v1, v2, v3);
    assert((2 * dot) * (2 * dot) == 4 * (dot * dot)) by (nonlinear_arith);
    assert((dac - dab - dbc) * (dac - dab - dbc) == (2 * dot) * (2 * dot));
    assert(4 * (dot * dot) <= 4 * (dab * dbc)) by (nonlinear_arith)
        requires
            dot * dot <= dab * dbc,
    ;
}

/// The triangle inequality of the CIE76 distance, in its square-free form:
/// for the squared distances `dab`, `dbc`, `dac` of any three colors,
/// `(dac - dab - dbc)^2 <= 4 * dab * dbc`. This single inequality is
/// equivalent to the two-sided real triangle inequality
/// `|sqrt(dab) - sqrt(dbc)| <= sqrt(dac) <= sqrt(dab) + sqrt(dbc)`.
pub proof fn lemma_delta_e_triangle(a: CieLab, b: CieLab, c: CieLab)
    ensures
        (CieLab::delta_e_sq_spec(a, c) - CieLab::delta_e_sq_spec(a, b) - CieLab::delta_e_sq_spec(
            b,
            c,
        )) * (CieLab::delta_e_sq_spec(a, c) - CieLab::delta_e_sq_spec(a, b)
            - CieLab::delta_e_sq_spec(b, c)) <= 4 * (CieLab::delta_e_sq_spec(a, b)
            * CieLab::delta_e_sq_spec(b, c)),
{
    let u1 = a.l - b.l;
    let u2 = a.a - b.a;
    let u3 = a.b - b.b;
    let v1 = b.l - c.l;
    let v2 = b.a - c.a;
    let v3 = b.b - c.b;
    lemma_sq_triangle(u1, u2, u3, v1, v2, v3);
    assert(u1 + v1 == a.l - c.l && u2 + v2 == a.a - c.a && u3 + v3 == a.b - c.b);
    assert(CieLab::delta_e_sq_spec(a, c) == (u1 + v1) * (u1 + v1) + (u2 + v2) * (u2 + v2) + (u3
        + v3) * (u3 + v3));
    assert(CieLab::delta_e_sq_spec(a, b) == u1 * u1 + u2 * u2 + u3 * u3);
    assert(CieLab::delta_e_sq_spec(b, c) == v1 * v1 + v2 * v2 + v3 * v3);
}

} // verus!
