//! The texture synthesizer: a triangulated relief surface driven by
//! darkness, sealed by vertical walls along the image borders.
//!
//! Each interior quad of the grid becomes two top triangles whose corner
//! heights follow the key (black) fraction of the corner pixels; along the
//! four borders, wall quads seal the surface down to the base plane. For a
//! grid of `w x h` pixels with `w, h >= 2` the mesh holds exactly
//! `2 (w-1) (h-1)` top triangles and `4 (w-1) + 4 (h-1)` wall triangles.

use vstd::prelude::*;
use crate::error::PixestlError;
use crate::image::{PixelGrid, Rgba};
use crate::lithophane::config::LithophaneConfig;
use crate::lithophane::geometry::{Mesh, Triangle, Vector3};

verus! {

/// The relief height of one pixel in micrometers: the key fraction of its
/// color scaled between the two thickness bounds.
pub open spec fn pixel_height_spec(p: Rgba, min_thickness: int, max_thickness: int) -> int {
    min_thickness + p.rgb_spec().to_cmyk_spec().k * (max_thickness - min_thickness) / 1_000_000
}

/// Computes the relief height of the pixel at `(x, y)`.
pub fn get_pixel_height(
    image: &PixelGrid,
    x: usize,
    y: usize,
    min_thickness: u64,
    max_thickness: u64,
) -> (r: u64)
    requires
        image.wf(),
        x < image.width_spec(),
        y < image.height_spec(),
        min_thickness <= max_thickness,
        max_thickness <= 1_000_000,
    ensures
        r == pixel_height_spec(
            image.pixel_at(x as int, y as int),
            min_thickness as int,
            max_thickness as int,
        ),
        min_thickness <= r <= max_thickness,
{
    let pixel = image.get_pixel(x, y);
    let rgb = pixel.rgb();
    let cmyk = rgb.to_cmyk();
    let k = cmyk.k;
    let span = max_thickness - min_thickness;
    proof {
        assert(k * span <= 1_000_000_000_000) by (nonlinear_arith)
            requires
                k <= 1_000_000u64,
                span <= 1_000_000u64,
        ;
        assert(k * span / 1_000_000 <= span) by (nonlinear_arith)
            requires
                k <= 1_000_000u64,
                0 <= span,
                0 <= k,
        ;
        assert(k * span / 1_000_000 >= 0) by (nonlinear_arith)
            requires
                0 <= k,
                0 <= span,
        ;
    }
    min_thickness + k * span / 1_000_000
}

/// The triangles one quad of the relief contributes, in emission order:
/// the two top triangles over the quad's corner heights, then wall pairs
/// along whichever image borders the quad touches.
pub open spec fn quad_tris_spec(
    g: &PixelGrid,
    pw: int,
    min_t: int,
    max_t: int,
    x: int,
    y: int,
) -> Seq<Triangle> {
    let i = (x * pw) as i64;
    let j = (y * pw) as i64;
    let i1 = ((x + 1) * pw) as i64;
    let j1 = ((y + 1) * pw) as i64;
    let h00 = pixel_height_spec(g.pixel_at(x, y), min_t, max_t) as i64;
    let h10 = pixel_height_spec(g.pixel_at(x + 1, y), min_t, max_t) as i64;
    let h01 = pixel_height_spec(g.pixel_at(x, y + 1), min_t, max_t) as i64;
    let h11 = pixel_height_spec(g.pixel_at(x + 1, y + 1), min_t, max_t) as i64;
    seq![
        Triangle {
            v0: Vector3 { x: i, y: j, z: h00 },
            v1: Vector3 { x: i, y: j1, z: h01 },
            v2: Vector3 { x: i1, y: j, z: h10 },
        },
        Triangle {
            v0: Vector3 { x: i1, y: j1, z: h11 },
            v1: Vector3 { x: i, y: j1, z: h01 },
            v2: Vector3 { x: i1, y: j, z: h10 },
        },
    ] + (if x == 0 {
        seq![
            Triangle {
                v0: Vector3 { x: i, y: j, z: h00 },
                v1: Vector3 { x: i, y: j1, z: h01 },
                v2: Vector3 { x: i, y: j1, z: 0 },
            },
            Triangle {
                v0: Vector3 { x: i, y: j, z: h00 },
                v1: Vector3 { x: i, y: j, z: 0 },
                v2: Vector3 { x: i, y: j1, z: 0 },
            },
        ]
    } else {
        Seq::empty()
    }) + (if y == 0 {
        seq![
            Triangle {
                v0: Vector3 { x: i, y: j, z: h00 },
                v1: Vector3 { x: i1, y: j, z: h10 },
                v2: Vector3 { x: i1, y: j, z: 0 },
            },
            Triangle {
                v0: Vector3 { x: i, y: j, z: h00 },
                v1: Vector3 { x: i, y: j, z: 0 },
                v2: Vector3 { x: i1, y: j, z: 0 },
            },
        ]
    } else {
        Seq::empty()
    }) + (if x == g.width_spec() - 2 {
        seq![
            Triangle {
                v0: Vector3 { x: i1, y: j, z: h10 },
                v1: Vector3 { x: i1, y: j1, z: h11 },
                v2: Vector3 { x: i1, y: j1, z: 0 },
            },
            Triangle {
                v0: Vector3 { x: i1, y: j, z: h10 },
                v1: Vector3 { x: i1, y: j, z: 0 },
                v2: Vector3 { x: i1, y: j1, z: 0 },
            },
        ]
    } else {
        Seq::empty()
    }) + (if y == g.height_spec() - 2 {
        seq![
            Triangle {
                v0: Vector3 { x: i, y: j1, z: h01 },
                v1: Vector3 { x: i1, y: j1, z: h11 },
                v2: Vector3 { x: i1, y: j1, z: 0 },
            },
            Triangle {
                v0: Vector3 { x: i, y: j1, z: h01 },
                v1: Vector3 { x: i, y: j1, z: 0 },
                v2: Vector3 { x: i1, y: j1, z: 0 },
            },
        ]
    } else {
        Seq::empty()
    })
}

/// The triangles of one relief row from column `x` onward.
pub open spec fn tex_row_from_spec(
    g: &PixelGrid,
    pw: int,
    min_t: int,
    max_t: int,
    y: int,
    x: int,
) -> Seq<Triangle>
    decreases g.width_spec() - 1 - x,
{
    if x >= g.width_spec() - 1 || x < 0 {
        Seq::empty()
    } else {
        quad_tris_spec(g, pw, min_t, max_t, x, y) + tex_row_from_spec(
            g,
            pw,
            min_t,
            max_t,
            y,
            x + 1,
        )
    }
}

/// The triangles of the relief from row `y` downward.
pub open spec fn tex_rows_from_spec(
    g: &PixelGrid,
    pw: int,
    min_t: int,
    max_t: int,
    y: int,
) -> Seq<Triangle>
    decreases g.height_spec() - 1 - y,
{
    if y >= g.height_spec() - 1 || y < 0 {
        Seq::empty()
    } else {
        tex_row_from_spec(g, pw, min_t, max_t, y, 0) + tex_rows_from_spec(
            g,
            pw,
            min_t,
            max_t,
            y + 1,
        )
    }
}

/// Every triangle of the relief of a grid: rows in order, quads left to
/// right, top triangles before walls within a quad.
pub open spec fn texture_tris_spec(g: &PixelGrid, config: &LithophaneConfig) -> Seq<Triangle> {
    if g.width_spec() < 2 || g.height_spec() < 2 {
        Seq::empty()
    } else {
        tex_rows_from_spec(
            g,
            config.texture_pixel_width as int,
            config.texture_min_thickness as int,
            config.texture_max_thickness as int,
            0,
        )
    }
}

/// Builds the triangles one quad contributes, exactly `quad_tris_spec`.
#[verifier::rlimit(100)]
fn quad_mesh(
    image: &PixelGrid,
    pw: u64,
    min_t: u64,
    max_t: u64,
    x: usize,
    y: usize,
) -> (r: Mesh)
    requires
        image.wf(),
        x < image.width_spec() - 1,
        y < image.height_spec() - 1,
        image.width_spec() <= 10_000_000,
        image.height_spec() <= 10_000_000,
        1 <= pw,
        image.width_spec() * pw <= 10_000_000,
        image.height_spec() * pw <= 10_000_000,
        min_t <= max_t <= 1_000_000,
    ensures
        r.triangles@ == quad_tris_spec(
            image,
            pw as int,
            min_t as int,
            max_t as int,
            x as int,
            y as int,
        ),
        r.in_bounds(),
        r.triangles@.len() == 2 + (if x == 0 {
            2int
        } else {
            0int
        }) + (if y == 0 {
            2int
        } else {
            0int
        }) + (if x == image.width_spec() - 2 {
            2int
        } else {
            0int
        }) + (if y == image.height_spec() - 2 {
            2int
        } else {
            0int
        }),
{
    let width = image.width();
    let height = image.height();
    proof {
        assert(x * pw <= width * pw && (x + 1) * pw <= width * pw && y * pw <= height * pw && (y
            + 1) * pw <= height * pw && 0 <= x * pw && 0 <= y * pw) by (nonlinear_arith)
            requires
                0 <= x < width,
                0 <= y < height,
                1 <= pw,
        ;
    }
    let i: i64 = ((x as u64) * pw) as i64;
    let j: i64 = ((y as u64) * pw) as i64;
    let i1: i64 = ((x as u64 + 1) * pw) as i64;
    let j1: i64 = ((y as u64 + 1) * pw) as i64;
    let h00 = get_pixel_height(image, x, y, min_t, max_t) as i64;
    let h10 = get_pixel_height(image, x + 1, y, min_t, max_t) as i64;
    let h01 = get_pixel_height(image, x, y + 1, min_t, max_t) as i64;
    let h11 = get_pixel_height(image, x + 1, y + 1, min_t, max_t) as i64;
    let mut mesh = Mesh::new();
    mesh.add_triangle(
        Triangle {
            v0: Vector3 { x: i, y: j, z: h00 },
            v1: Vector3 { x: i, y: j1, z: h01 },
            v2: Vector3 { x: i1, y: j, z: h10 },
        },
    );
    mesh.add_triangle(
        Triangle {
            v0: Vector3 { x: i1, y: j1, z: h11 },
            v1: Vector3 { x: i, y: j1, z: h01 },
            v2: Vector3 { x: i1, y: j, z: h10 },
        },
    );
    if x == 0 {
        mesh.add_triangle(
            Triangle {
                v0: Vector3 { x: i, y: j, z: h00 },
                v1: Vector3 { x: i, y: j1, z: h01 },
                v2: Vector3 { x: i, y: j1, z: 0 },
            },
        );
        mesh.add_triangle(
            Triangle {
                v0: Vector3 { x: i, y: j, z: h00 },
                v1: Vector3 { x: i, y: j, z: 0 },
                v2: Vector3 { x: i, y: j1, z: 0 },
            },
        );
    }
    if y == 0 {
        mesh.add_triangle(
            Triangle {
                v0: Vector3 { x: i, y: j, z: h00 },
                v1: Vector3 { x: i1, y: j, z: h10 },
                v2: Vector3 { x: i1, y: j, z: 0 },
            },
        );
        mesh.add_triangle(
            Triangle {
                v0: Vector3 { x: i, y: j, z: h00 },
                v1: Vector3 { x: i, y: j, z: 0 },
                v2: Vector3 { x: i1, y: j, z: 0 },
            },
        );
    }
    if x == width - 2 {
        mesh.add_triangle(
            Triangle {
                v0: Vector3 { x: i1, y: j, z: h10 },
                v1: Vector3 { x: i1, y: j1, z: h11 },
                v2: Vector3 { x: i1, y: j1, z: 0 },
            },
        );
        mesh.add_triangle(
            Triangle {
                v0: Vector3 { x: i1, y: j, z: h10 },
                v1: Vector3 { x: i1, y: j, z: 0 },
                v2: Vector3 { x: i1, y: j1, z: 0 },
            },
        );
    }
    if y == height - 2 {
        mesh.add_triangle(
            Triangle {
                v0: Vector3 { x: i, y: j1, z: h01 },
                v1: Vector3 { x: i1, y: j1, z: h11 },
                v2: Vector3 { x: i1, y: j1, z: 0 },
            },
        );
        mesh.add_triangle(
            Triangle {
                v0: Vector3 { x: i, y: j1, z: h01 },
                v1: Vector3 { x: i, y: j1, z: 0 },
                v2: Vector3 { x: i1, y: j1, z: 0 },
            },
        );
    }
    proof {
        assert(mesh.triangles@ =~= quad_tris_spec(
            image,
            pw as int,
            min_t as int,
            max_t as int,
            x as int,
            y as int,
        ));
    }
    mesh
}

/// Generates the relief mesh of a grayscale grid. Grids narrower or
/// shorter than two pixels produce no triangles; otherwise the count is
/// exactly `2 (w-1) (h-1) + 4 (w-1) + 4 (h-1)`.
#[verifier::rlimit(100)]
pub fn generate_texture_layer(image: &PixelGrid, config: &LithophaneConfig) -> (r: Result<
    Mesh,
    PixestlError,
>)
    requires
        image.wf(),
        config.texture_pixel_width >= 1,
        image.width_spec() * config.texture_pixel_width <= 10_000_000,
        image.height_spec() * config.texture_pixel_width <= 10_000_000,
        config.texture_min_thickness <= config.texture_max_thickness,
        config.texture_max_thickness <= 1_000_000,
    ensures
        match r {
            Ok(m) => {
                &&& m.triangles@ == texture_tris_spec(image, config)
                &&& (image.width_spec() >= 2 && image.height_spec() >= 2) ==> m.triangles@.len()
                    == 2 * (image.width_spec() - 1) * (image.height_spec() - 1) + 4 * (
                image.width_spec() - 1) + 4 * (image.height_spec() - 1)
                &&& (image.width_spec() < 2 || image.height_spec() < 2) ==> m.triangles@.len()
                    == 0
                &&& m.in_bounds()
            },
            Err(_) => false,
        },
{
    let width = image.width();
    let height = image.height();
    if width < 2 || height < 2 {
        let empty = Mesh::new();
        proof {
            assert(empty.triangles@ =~= texture_tris_spec(image, config));
        }
        return Ok(empty);
    }
    proof {
        assert(width <= 10_000_000 && height <= 10_000_000) by (nonlinear_arith)
            requires
                width * config.texture_pixel_width <= 10_000_000,
                height * config.texture_pixel_width <= 10_000_000,
                config.texture_pixel_width >= 1,
                0 <= width,
                0 <= height,
        ;
    }
    let pw = config.texture_pixel_width;
    let min_t = config.texture_min_thickness;
    let max_t = config.texture_max_thickness;
    let mut mesh = Mesh::new();
    let mut y: usize = 0;
    while y < height - 1
        invariant
            image.wf(),
            width == image.width_spec(),
            height == image.height_spec(),
            2 <= width <= 10_000_000,
            2 <= height <= 10_000_000,
            y <= height - 1,
            pw == config.texture_pixel_width,
            min_t == config.texture_min_thickness,
            max_t == config.texture_max_thickness,
            1 <= pw,
            width * pw <= 10_000_000,
            height * pw <= 10_000_000,
            min_t <= max_t <= 1_000_000,
            mesh.in_bounds(),
            tex_rows_from_spec(image, pw as int, min_t as int, max_t as int, 0) == mesh.triangles@
                + tex_rows_from_spec(image, pw as int, min_t as int, max_t as int, y as int),
            mesh.triangles@.len() == 2 * (width - 1) * y + 4 * y + (if y >= 1 {
                2 * (width - 1)
            } else {
                0int
            }) + (if y >= height - 1 {
                2 * (width - 1)
            } else {
                0int
            }),
        decreases height - 1 - y,
    {
        let ghost row_start = mesh.triangles@.len() as int;
        let ghost row_base = mesh.triangles@;
        let mut x: usize = 0;
        while x < width - 1
            invariant
                image.wf(),
                width == image.width_spec(),
                height == image.height_spec(),
                2 <= width <= 10_000_000,
                2 <= height <= 10_000_000,
                y < height - 1,
                x <= width - 1,
                pw == config.texture_pixel_width,
                min_t == config.texture_min_thickness,
                max_t == config.texture_max_thickness,
                1 <= pw,
                width * pw <= 10_000_000,
                height * pw <= 10_000_000,
                min_t <= max_t <= 1_000_000,
                mesh.in_bounds(),
                tex_row_from_spec(image, pw as int, min_t as int, max_t as int, y as int, 0)
                    == mesh.triangles@.skip(row_start) + tex_row_from_spec(
                    image,
                    pw as int,
                    min_t as int,
                    max_t as int,
                    y as int,
                    x as int,
                ),
                0 <= row_start <= mesh.triangles@.len(),
                row_start == row_base.len(),
                mesh.triangles@.take(row_start) == row_base,
                mesh.triangles@.len() == row_start + 2 * x + (if x >= 1 {
                    2int
                } else {
                    0int
                }) + (if y == 0 {
                    2 * x
                } else {
                    0int
                }) + (if x >= width - 1 {
                    2int
                } else {
                    0int
                }) + (if y == height - 2 {
                    2 * x
                } else {
                    0int
                }),
            decreases width - 1 - x,
        {
            let ghost pre_quad = mesh.triangles@;
            let quad = quad_mesh(image, pw, min_t, max_t, x, y);
            mesh.merge_owned(quad);
            proof {
                assert(mesh.triangles@.skip(row_start) =~= pre_quad.skip(row_start)
                    + quad_tris_spec(
                    image,
                    pw as int,
                    min_t as int,
                    max_t as int,
                    x as int,
                    y as int,
                ));
                assert(mesh.triangles@.take(row_start) =~= row_base);
            }
            x = x + 1;
        }
        proof {
            assert(2 * (width - 1) * (y + 1) == 2 * (width - 1) * y + 2 * (width - 1))
                by (nonlinear_arith);
            assert(tex_row_from_spec(
                image,
                pw as int,
                min_t as int,
                max_t as int,
                y as int,
                width as int - 1,
            ) =~= Seq::<Triangle>::empty());
            assert(mesh.triangles@ =~= row_base + mesh.triangles@.skip(row_start));
        }
        y = y + 1;
    }
    proof {
        assert(tex_rows_from_spec(
            image,
            pw as int,
            min_t as int,
            max_t as int,
            height as int - 1,
        ) =~= Seq::<Triangle>::empty());
        assert(mesh.triangles@ + Seq::<Triangle>::empty() =~= mesh.triangles@);
        assert(mesh.triangles@ == texture_tris_spec(image, config));
    }
    Ok(mesh)
}

} // verus!
