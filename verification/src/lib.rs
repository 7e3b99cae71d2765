//! Color lithophane mesh generation.
//!
//! Converts a raster image into a set of 3D-printable surface meshes that,
//! printed with filament swaps between layers, reproduce the image in color.
//! All physical quantities are held as exact fixed-point integers: lengths in
//! micrometers, CMYK ink fractions in parts per million, CIELab coordinates
//! scaled by 100000.

pub mod color;
pub mod error;
pub mod image;
pub mod lithophane;
pub mod mathx;
pub mod palette;
pub mod stl;
pub mod text;
