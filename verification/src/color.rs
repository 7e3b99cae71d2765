//! Color space representations and conversions.
//!
//! Four representations take part in palette work: 8-bit `Rgb`, `Cmyk` ink
//! fractions in parts per million, `Hsl` in thousandths of a degree or of a
//! percent, and `CieLab` coordinates scaled by 100000. All conversions are
//! exact integer arithmetic on those fixed-point scales.

pub mod cielab;
pub mod cmyk;
pub mod distance;
pub mod hsl;
pub mod rgb;

pub use cielab::CieLab;
pub use cmyk::Cmyk;
pub use distance::find_closest_color;
pub use distance::find_closest_color_precomputed;
pub use distance::ColorDistanceMethod;
pub use hsl::Hsl;
pub use rgb::Rgb;
