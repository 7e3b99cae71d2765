//! CMYK ink fractions in fixed point.
//!
//! Each channel is a fraction of full coverage, held in parts per million:
//! `0` means no ink, [`CMYK_ONE`] means full coverage. Sums of channels (as
//! they arise when layers mix additively) may exceed [`CMYK_ONE`] until
//! [`Cmyk::clamp`] is applied.

use vstd::prelude::*;

verus! {

/// The fixed-point representation of the fraction 1.0: one million parts.
pub const CMYK_ONE: u64 = 1_000_000;

/// A CMYK color; each channel is a fraction scaled by [`CMYK_ONE`].
#[derive(Debug, Clone, Copy, PartialEq, Eq, Structural)]
pub struct Cmyk {
    /// Cyan fraction.
    pub c: u64,
    /// Magenta fraction.
    pub m: u64,
    /// Yellow fraction.
    pub y: u64,
    /// Key (black) fraction.
    pub k: u64,
}

impl Cmyk {
    /// All channels within the unit range.
    pub open spec fn in_range(&self) -> bool {
        self.c <= CMYK_ONE && self.m <= CMYK_ONE && self.y <= CMYK_ONE && self.k <= CMYK_ONE
    }

    /// Builds a CMYK color from the four channel fractions.
    pub fn new(c: u64, m: u64, y: u64, k: u64) -> (r: Self)
        ensures
            r == (Cmyk { c, m, y, k }),
    {
        Cmyk { c, m, y, k }
    }

    /// The channel-wise clamp of a color to the unit range.
    pub open spec fn clamp_spec(&self) -> Cmyk {
        Cmyk {
            c: if self.c <= CMYK_ONE {
                self.c
            } else {
                CMYK_ONE
            },
            m: if self.m <= CMYK_ONE {
                self.m
            } else {
                CMYK_ONE
            },
            y: if self.y <= CMYK_ONE {
                self.y
            } else {
                CMYK_ONE
            },
            k: if self.k <= CMYK_ONE {
                self.k
            } else {
                CMYK_ONE
            },
        }
    }

    /// Limits every channel to the unit range.
    pub fn clamp(&self) -> (r: Self)
        ensures
            r == self.clamp_spec(),
            r.in_range(),
    {
        Cmyk {
            c: if self.c <= CMYK_ONE {
                self.c
            } else {
                CMYK_ONE
            },
            m: if self.m <= CMYK_ONE {
                self.m
            } else {
                CMYK_ONE
            },
            y: if self.y <= CMYK_ONE {
                self.y
            } else {
                CMYK_ONE
            },
            k: if self.k <= CMYK_ONE {
                self.k
            } else {
                CMYK_ONE
            },
        }
    }
}

} // verus!
