//! Palette model: filament layers, stacked combinations, the generator, the
//! loader, and quantization.

pub mod color_combi;
pub mod color_layer;
pub mod generator;
pub mod loader;
pub mod quantize;
pub mod store;

pub use color_combi::ColorCombi;
pub use color_layer::ColorLayer;
pub use generator::combine_combi_groups;
pub use generator::create_multi_combi;
pub use loader::PaletteLoader;
pub use loader::PaletteLoaderConfig;
pub use loader::PixelCreationMethod;
pub use store::Palette;
pub use quantize::quantize_image;
pub use quantize::quantize_pixels;
pub use quantize::quantize_with_stats;
pub use quantize::QuantizationStats;
