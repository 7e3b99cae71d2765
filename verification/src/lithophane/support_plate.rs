//! The support plate: one box under the color stack.

use vstd::prelude::*;
use crate::error::PixestlError;
use crate::image::PixelGrid;
use crate::lithophane::config::LithophaneConfig;
use crate::lithophane::geometry::{cube_spec, Mesh, Vector3};

verus! {

/// Builds the flat support plate of a color grid: one box spanning the
/// grid's physical extent, centered half a plate thickness below the base
/// plane.
pub fn generate_support_plate(image: &PixelGrid, config: &LithophaneConfig) -> (r: Result<
    Mesh,
    PixestlError,
>)
    requires
        config.color_pixel_width >= 1,
        image.width_spec() * config.color_pixel_width <= 10_000_000,
        image.height_spec() * config.color_pixel_width <= 10_000_000,
        config.plate_thickness <= 1_000_000,
    ensures
        match r {
            Ok(m) => {
                &&& m.triangles@.len() == 12
                &&& m.triangles@ == cube_spec(
                    image.width_spec() * config.color_pixel_width,
                    image.height_spec() * config.color_pixel_width,
                    config.plate_thickness as int,
                    Vector3 {
                        x: (image.width_spec() * config.color_pixel_width / 2) as i64,
                        y: (image.height_spec() * config.color_pixel_width / 2) as i64,
                        z: (0 - config.plate_thickness / 2) as i64,
                    },
                )
                &&& m.in_bounds()
            },
            Err(_) => false,
        },
{
    proof {
        assert(0 <= image.width_spec() * config.color_pixel_width && 0 <= image.height_spec()
            * config.color_pixel_width) by (nonlinear_arith)
            requires
                image.width_spec() >= 0,
                image.height_spec() >= 0,
                config.color_pixel_width >= 1,
        ;
    }
    let plate_width: u64 = (image.width() as u64) * config.color_pixel_width;
    let plate_depth: u64 = (image.height() as u64) * config.color_pixel_width;
    let plate_height: u64 = config.plate_thickness;
    let center = Vector3 {
        x: (plate_width / 2) as i64,
        y: (plate_depth / 2) as i64,
        z: 0 - (plate_height / 2) as i64,
    };
    Ok(Mesh::cube(plate_width, plate_depth, plate_height, center))
}

} // verus!
