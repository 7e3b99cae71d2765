//! Lithophane generation parameters, all lengths in micrometers.

use vstd::prelude::*;
use crate::color::distance::ColorDistanceMethod;
use crate::error::PixestlError;
use vstd::string::StringExecFns;

verus! {

/// How the color pixels are realized as geometry.
#[derive(Debug, Clone, Copy, PartialEq, Eq, Structural)]
pub enum PixelCreationMethod {
    /// Only the layers a pixel actually needs are stacked.
    Additive,
    /// Every pixel is filled to the full layer count.
    Full,
}

/// The validated parameter bundle of a generation run. Lengths count
/// micrometers; the curve angle counts degrees.
#[derive(Debug, Clone)]
pub struct LithophaneConfig {
    /// Target physical width in micrometers; 0 derives it from the image.
    pub dest_width_um: u64,
    /// Target physical height in micrometers; 0 derives it from the image.
    pub dest_height_um: u64,
    /// Width of one color pixel in micrometers.
    pub color_pixel_width: u64,
    /// Thickness of one printed layer in micrometers.
    pub color_pixel_layer_thickness: u64,
    /// Printed layers stacked per pixel and slot group.
    pub color_pixel_layer_number: u32,
    /// Whether the color pipeline runs.
    pub color_layer: bool,
    /// Width of one texture sample in micrometers.
    pub texture_pixel_width: u64,
    /// Smallest relief thickness in micrometers.
    pub texture_min_thickness: u64,
    /// Largest relief thickness in micrometers.
    pub texture_max_thickness: u64,
    /// Whether the texture pipeline runs.
    pub texture_layer: bool,
    /// Thickness of the support plate in micrometers.
    pub plate_thickness: u64,
    /// How color pixels are realized.
    pub pixel_creation_method: PixelCreationMethod,
    /// Slot quota; 0 uses all filaments in one group.
    pub color_number: usize,
    /// The metric used by quantization.
    pub color_distance_method: ColorDistanceMethod,
    /// Cylindrical wrap angle in degrees, 0 to 360; 0 stays flat.
    pub curve: u32,
}

impl Default for LithophaneConfig {
    /// The defaults: 0.8 mm color pixels, 0.1 mm layers, five layers, both
    /// pipelines on, 0.25 mm texture samples, 0.3 to 1.8 mm relief, 0.2 mm
    /// plate, additive mixing, perceptual matching, flat.
    fn default() -> (r: Self)
        ensures
            r == LithophaneConfig::default_spec(),
    {
        LithophaneConfig {
            dest_width_um: 0,
            dest_height_um: 0,
            color_pixel_width: 800,
            color_pixel_layer_thickness: 100,
            color_pixel_layer_number: 5,
            color_layer: true,
            texture_pixel_width: 250,
            texture_min_thickness: 300,
            texture_max_thickness: 1800,
            texture_layer: true,
            plate_thickness: 200,
            pixel_creation_method: PixelCreationMethod::Additive,
            color_number: 0,
            color_distance_method: ColorDistanceMethod::CieLab,
            curve: 0,
        }
    }
}

impl LithophaneConfig {
    /// The default parameter bundle.
    pub open spec fn default_spec() -> LithophaneConfig {
        LithophaneConfig {
            dest_width_um: 0,
            dest_height_um: 0,
            color_pixel_width: 800,
            color_pixel_layer_thickness: 100,
            color_pixel_layer_number: 5,
            color_layer: true,
            texture_pixel_width: 250,
            texture_min_thickness: 300,
            texture_max_thickness: 1800,
            texture_layer: true,
            plate_thickness: 200,
            pixel_creation_method: PixelCreationMethod::Additive,
            color_number: 0,
            color_distance_method: ColorDistanceMethod::CieLab,
            curve: 0,
        }
    }

    /// The nominal validation predicates: positive pixel and layer sizes,
    /// a positive layer count, a relief range with `max > min > 0`, a
    /// non-negative plate (unsigned here by construction), at least one
    /// pipeline enabled, and a curve within a full turn.
    pub open spec fn nominal_spec(&self) -> bool {
        &&& self.color_pixel_width > 0
        &&& self.texture_pixel_width > 0
        &&& self.color_pixel_layer_thickness > 0
        &&& self.color_pixel_layer_number > 0
        &&& self.texture_min_thickness > 0
        &&& self.texture_max_thickness > self.texture_min_thickness
        &&& (self.color_layer || self.texture_layer)
        &&& self.curve <= 360
    }

    /// The machine limits of the micrometer fixed-point model, beyond the
    /// nominal predicates: destinations within ten meters, pixels within a
    /// meter, layers within a tenth of a meter and a thousand per stack,
    /// relief and plate within a meter. These caps keep every vertex
    /// inside the geometry kernel's coordinate range; a configuration past
    /// them is refused even though the nominal predicates accept it.
    pub open spec fn fits_fixed_point_spec(&self) -> bool {
        &&& self.dest_width_um <= 10_000_000
        &&& self.dest_height_um <= 10_000_000
        &&& self.color_pixel_width <= 1_000_000
        &&& self.texture_pixel_width <= 1_000_000
        &&& self.color_pixel_layer_thickness <= 100_000
        &&& self.color_pixel_layer_number <= 1000
        &&& self.texture_max_thickness <= 1_000_000
        &&& self.plate_thickness <= 1_000_000
    }

    /// A configuration the generator accepts: the nominal predicates and
    /// the fixed-point caps together.
    pub open spec fn valid_spec(&self) -> bool {
        self.nominal_spec() && self.fits_fixed_point_spec()
    }

    /// Checks the configuration; the error names the first failing field.
    /// Accepts exactly the nominal predicates within the fixed-point caps.
    pub fn validate(&self) -> (r: Result<(), PixestlError>)
        ensures
            match r {
                Ok(_) => self.valid_spec(),
                Err(e) => !self.valid_spec() && e is Config,
            },
    {
        if self.color_pixel_width == 0 || self.color_pixel_width > 1_000_000 {
            return Err(
                PixestlError::Config(String::from_str("color_pixel_width must be positive")),
            );
        }
        if self.texture_pixel_width == 0 || self.texture_pixel_width > 1_000_000 {
            return Err(
                PixestlError::Config(String::from_str("texture_pixel_width must be positive")),
            );
        }
        if self.color_pixel_layer_thickness == 0 || self.color_pixel_layer_thickness > 100_000 {
            return Err(
                PixestlError::Config(
                    String::from_str("color_pixel_layer_thickness must be positive"),
                ),
            );
        }
        if self.color_pixel_layer_number == 0 || self.color_pixel_layer_number > 1000 {
            return Err(
                PixestlError::Config(
                    String::from_str("color_pixel_layer_number must be positive"),
                ),
            );
        }
        if self.texture_min_thickness == 0 {
            return Err(
                PixestlError::Config(String::from_str("texture_min_thickness must be positive")),
            );
        }
        if self.texture_max_thickness <= self.texture_min_thickness
            || self.texture_max_thickness > 1_000_000 {
            return Err(
                PixestlError::Config(
                    String::from_str(
                        "texture_max_thickness must be greater than texture_min_thickness",
                    ),
                ),
            );
        }
        if self.plate_thickness > 1_000_000 {
            return Err(
                PixestlError::Config(String::from_str("plate_thickness is too large")),
            );
        }
        if !self.color_layer && !self.texture_layer {
            return Err(
                PixestlError::Config(
                    String::from_str(
                        "At least one of color_layer or texture_layer must be enabled",
                    ),
                ),
            );
        }
        if self.curve > 360 {
            return Err(
                PixestlError::Config(
                    String::from_str("curve must be between 0 and 360 degrees"),
                ),
            );
        }
        if self.dest_width_um > 10_000_000 || self.dest_height_um > 10_000_000 {
            return Err(
                PixestlError::Config(String::from_str("destination size is too large")),
            );
        }
        Ok(())
    }

    /// The total height of the color stack in micrometers.
    pub fn total_color_layer_height(&self) -> (r: u64)
        requires
            self.color_pixel_layer_thickness <= 100_000,
            self.color_pixel_layer_number <= 1000,
        ensures
            r == self.color_pixel_layer_thickness * self.color_pixel_layer_number,
    {
        proof {
            assert(self.color_pixel_layer_thickness * self.color_pixel_layer_number
                <= 100_000_000) by (nonlinear_arith)
                requires
                    self.color_pixel_layer_thickness <= 100_000u64,
                    self.color_pixel_layer_number <= 1000u32,
        ;
        }
        self.color_pixel_layer_thickness * (self.color_pixel_layer_number as u64)
    }
}

} // verus!
