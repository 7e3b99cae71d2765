//! Lithophane mesh generation: configuration, geometry, the color and
//! texture synthesizers, the support plate, the calibration pattern, and
//! the orchestrator.

pub mod calibration;
pub mod color_layer;
pub mod config;
pub mod generator;
pub mod support_plate;
pub mod texture_layer;
pub mod geometry;

pub use config::LithophaneConfig;
pub use config::PixelCreationMethod;
pub use generator::LithophaneGenerator;
pub use geometry::Mesh;
pub use geometry::Triangle;
pub use geometry::Vector3;
