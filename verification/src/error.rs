//! Error kinds for lithophane generation.

use vstd::prelude::*;

verus! {

/// Everything the core can refuse: an invalid configuration, an image whose
/// resized dimensions compute to zero, a malformed hex code, an unusable
/// palette, or a failure at the serialization boundary.
#[derive(Debug, Clone, PartialEq, Eq)]
pub enum PixestlError {
    /// A configuration field fails a validation predicate.
    Config(String),
    /// Image processing cannot proceed (for example a zero-sized grid).
    ImageProcess(String),
    /// A hex color string is not of the form `#RRGGBB`.
    InvalidHexCode(String),
    /// The palette is empty, inconsistent, or lacks white in additive mode.
    InvalidPalette(String),
    /// A low-level write failure at the STL boundary.
    Serialization(String),
}

impl PixestlError {
    /// The human-readable text carried by the error.
    pub fn message(&self) -> (r: &String)
        ensures
            r@ == self.message_spec(),
    {
        match self {
            PixestlError::Config(s) => s,
            PixestlError::ImageProcess(s) => s,
            PixestlError::InvalidHexCode(s) => s,
            PixestlError::InvalidPalette(s) => s,
            PixestlError::Serialization(s) => s,
        }
    }

    /// The text of the error, as a sequence of characters.
    pub open spec fn message_spec(&self) -> Seq<char> {
        match self {
            PixestlError::Config(s) => s@,
            PixestlError::ImageProcess(s) => s@,
            PixestlError::InvalidHexCode(s) => s@,
            PixestlError::InvalidPalette(s) => s@,
            PixestlError::Serialization(s) => s@,
        }
    }
}

} // verus!
