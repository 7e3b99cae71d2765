//! Integer root extraction for the fixed-point color pipelines.
//!
//! The sRGB linearization and the Lab pivot need fractional powers; on exact
//! integers those are floor roots: the square, cube and fifth root of a
//! scaled value. Each function returns the greatest integer whose power does
//! not exceed the argument.

use vstd::prelude::*;

verus! {

/// Floor square root: the greatest `r` with `r * r <= n`.
pub fn isqrt128(n: u128) -> (r: u128)
    requires
        n < 0x4000_0000_0000_0000_0000_0000_0000_0000u128,
    ensures
        r as int * r as int <= n as int,
        (n as int) < (r as int + 1) * (r as int + 1),
        r < 0x8000_0000_0000_0000u128,
{
    let mut lo: u128 = 0;
    let mut hi: u128 = 0x8000_0000_0000_0000;
    proof {
        assert(hi * hi == 0x4000_0000_0000_0000_0000_0000_0000_0000u128) by (nonlinear_arith)
            requires
                hi == 0x8000_0000_0000_0000u128,
        ;
    }
    while lo + 1 < hi
        invariant
            lo < hi,
            hi <= 0x8000_0000_0000_0000u128,
            lo * lo <= n,
            n < hi * hi,
        decreases hi - lo,
    {
        let mid: u128 = lo + (hi - lo) / 2;
        proof {
            assert(mid * mid <= 0x4000_0000_0000_0000_0000_0000_0000_0000u128) by (nonlinear_arith)
                requires
                    mid <= 0x8000_0000_0000_0000u128,
            ;
        }
        if mid * mid <= n {
            lo = mid;
        } else {
            hi = mid;
        }
    }
    lo
}

/// Floor cube root: the greatest `r` with `r * r * r <= n`.
pub fn icbrt128(n: u128) -> (r: u128)
    requires
        n < 0x100_0000_0000_0000_0000_0000_0000_0000u128,
    ensures
        r as int * r as int * r as int <= n as int,
        (n as int) < (r as int + 1) * (r as int + 1) * (r as int + 1),
        r < 0x100_0000_0000u128,
{
    let mut lo: u128 = 0;
    let mut hi: u128 = 0x100_0000_0000;
    proof {
        assert(hi * hi * hi == 0x100_0000_0000_0000_0000_0000_0000_0000u128) by (nonlinear_arith)
            requires
                hi == 0x100_0000_0000u128,
        ;
    }
    while lo + 1 < hi
        invariant
            lo < hi,
            hi <= 0x100_0000_0000u128,
            lo * lo * lo <= n,
            n < hi * hi * hi,
        decreases hi - lo,
    {
        let mid: u128 = lo + (hi - lo) / 2;
        proof {
            assert(mid * mid <= 0x1_0000_0000_0000_0000_0000u128 && mid * mid * mid
                <= 0x1000_0000_0000_0000_0000_0000_0000_0000u128) by (nonlinear_arith)
                requires
                    mid <= 0x100_0000_0000u128,
            ;
        }
        if mid * mid * mid <= n {
            lo = mid;
        } else {
            hi = mid;
        }
    }
    lo
}

/// Floor fifth root: the greatest `r` with `r^5 <= n`.
pub fn iroot5_128(n: u128) -> (r: u128)
    requires
        n < 0x2000_0000_0000_0000_0000_0000_0000_0000u128,
    ensures
        r as int * r as int * r as int * r as int * r as int <= n as int,
        (n as int) < (r as int + 1) * (r as int + 1) * (r as int + 1) * (r as int + 1) * (r as int
            + 1),
        r < 0x2000000u128,
{
    let mut lo: u128 = 0;
    let mut hi: u128 = 0x2000000;
    proof {
        assert(hi * hi * hi * hi * hi == 0x2000_0000_0000_0000_0000_0000_0000_0000u128)
            by (nonlinear_arith)
            requires
                hi == 0x2000000u128,
        ;
    }
    while lo + 1 < hi
        invariant
            lo < hi,
            hi <= 0x2000000u128,
            lo * lo * lo * lo * lo <= n,
            n < hi * hi * hi * hi * hi,
        decreases hi - lo,
    {
        let mid: u128 = lo + (hi - lo) / 2;
        proof {
            assert(mid * mid <= 0x4_0000_0000_0000u128 && mid * mid * mid
                <= 0x8_0000_0000_0000_0000_0000u128 && mid * mid * mid * mid
                <= 0x10_0000_0000_0000_0000_0000_0000_0000u128 && mid * mid * mid * mid * mid
                <= 0x2000_0000_0000_0000_0000_0000_0000_0000u128) by (nonlinear_arith)
                requires
                    mid <= 0x2000000u128,
            ;
        }
        if mid * mid * mid * mid * mid <= n {
            lo = mid;
        } else {
            hi = mid;
        }
    }
    lo
}

/// Floor square root on `u64` values.
pub fn isqrt64(n: u64) -> (r: u64)
    ensures
        r as int * r as int <= n as int,
        (n as int) < (r as int + 1) * (r as int + 1),
        r <= 0xffff_ffffu64,
{
    let wide: u128 = isqrt128(n as u128);
    proof {
        assert(wide <= 0xffff_ffffu128) by (nonlinear_arith)
            requires
                wide as int * wide as int <= n as int,
                n <= 0xffff_ffff_ffff_ffffu64,
        ;
    }
    wide as u64
}

/// Saturating 64-bit addition: the exact sum, capped at the type maximum.
pub fn sat_add64(a: u64, b: u64) -> (r: u64)
    ensures
        r == (if a + b <= u64::MAX {
            (a + b) as u64
        } else {
            u64::MAX
        }),
{
    if a <= u64::MAX - b {
        a + b
    } else {
        u64::MAX
    }
}

/// Saturating 64-bit multiplication: the exact product, capped at the type
/// maximum.
pub fn sat_mul64(a: u64, b: u64) -> (r: u64)
    ensures
        r == (if a * b <= u64::MAX {
            (a * b) as u64
        } else {
            u64::MAX
        }),
{
    proof {
        assert((a as u128) * (b as u128) <= 0xFFFF_FFFF_FFFF_FFFE_0000_0000_0000_0001u128)
            by (nonlinear_arith)
            requires
                (a as u128) <= 0xFFFF_FFFF_FFFF_FFFFu128,
                (b as u128) <= 0xFFFF_FFFF_FFFF_FFFFu128,
        ;
    }
    let p: u128 = (a as u128) * (b as u128);
    if p <= 0xFFFF_FFFF_FFFF_FFFF {
        p as u64
    } else {
        u64::MAX
    }
}

} // verus!
