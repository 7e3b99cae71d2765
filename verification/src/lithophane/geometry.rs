//! 3D geometry primitives in micrometer fixed point.
//!
//! Coordinates are integers counting micrometers. A triangle stores its
//! three vertices; a mesh is a plain list of triangles with no topology.

use vstd::prelude::*;

verus! {

/// Coordinates stay within thirty-two meters of the origin, which keeps
/// every later computation (normals, serialization) inside 128-bit arithmetic.
pub const COORD_LIMIT: i64 = 32_000_000;

/// A 3D point or direction in micrometers.
#[derive(Debug, Clone, Copy, PartialEq, Eq, Structural)]
pub struct Vector3 {
    /// X coordinate in micrometers.
    pub x: i64,
    /// Y coordinate in micrometers.
    pub y: i64,
    /// Z coordinate in micrometers.
    pub z: i64,
}

impl Vector3 {
    /// All coordinates within [`COORD_LIMIT`].
    pub open spec fn in_bounds(&self) -> bool {
        -COORD_LIMIT <= self.x <= COORD_LIMIT && -COORD_LIMIT <= self.y <= COORD_LIMIT
            && -COORD_LIMIT <= self.z <= COORD_LIMIT
    }

    /// Builds a vector from its coordinates.
    pub fn new(x: i64, y: i64, z: i64) -> (r: Self)
        ensures
            r == (Vector3 { x, y, z }),
    {
        Vector3 { x, y, z }
    }

    /// The origin.
    pub fn zero() -> (r: Self)
        ensures
            r == (Vector3 { x: 0, y: 0, z: 0 }),
    {
        Vector3 { x: 0, y: 0, z: 0 }
    }

    /// The component-wise sum of two vectors.
    pub open spec fn add_spec(a: Vector3, b: Vector3) -> Vector3 {
        Vector3 { x: (a.x + b.x) as i64, y: (a.y + b.y) as i64, z: (a.z + b.z) as i64 }
    }

    /// Adds another vector component-wise.
    pub fn add(&self, other: &Vector3) -> (r: Vector3)
        requires
            self.in_bounds(),
            other.in_bounds(),
        ensures
            r == Vector3::add_spec(*self, *other),
            r.x == self.x + other.x && r.y == self.y + other.y && r.z == self.z + other.z,
    {
        Vector3 { x: self.x + other.x, y: self.y + other.y, z: self.z + other.z }
    }

    /// Subtracts another vector component-wise.
    pub fn sub(&self, other: &Vector3) -> (r: Vector3)
        requires
            self.in_bounds(),
            other.in_bounds(),
        ensures
            r.x == self.x - other.x && r.y == self.y - other.y && r.z == self.z - other.z,
    {
        Vector3 { x: self.x - other.x, y: self.y - other.y, z: self.z - other.z }
    }

    /// The dot product of two vectors.
    pub fn dot(&self, other: &Vector3) -> (r: i128)
        requires
            self.in_bounds(),
            other.in_bounds(),
        ensures
            r == self.x * other.x + self.y * other.y + self.z * other.z,
    {
        proof {
            lemma_product_bound(self.x as int, other.x as int);
            lemma_product_bound(self.y as int, other.y as int);
            lemma_product_bound(self.z as int, other.z as int);
        }
        (self.x as i128) * (other.x as i128) + (self.y as i128) * (other.y as i128) + (
        self.z as i128) * (other.z as i128)
    }

    /// The cross product of two vectors.
    pub fn cross(&self, other: &Vector3) -> (r: (i128, i128, i128))
        requires
            self.in_bounds(),
            other.in_bounds(),
        ensures
            r.0 == self.y * other.z - self.z * other.y,
            r.1 == self.z * other.x - self.x * other.z,
            r.2 == self.x * other.y - self.y * other.x,
    {
        proof {
            lemma_product_bound(self.y as int, other.z as int);
            lemma_product_bound(self.z as int, other.y as int);
            lemma_product_bound(self.z as int, other.x as int);
            lemma_product_bound(self.x as int, other.z as int);
            lemma_product_bound(self.x as int, other.y as int);
            lemma_product_bound(self.y as int, other.x as int);
        }
        (
            (self.y as i128) * (other.z as i128) - (self.z as i128) * (other.y as i128),
            (self.z as i128) * (other.x as i128) - (self.x as i128) * (other.z as i128),
            (self.x as i128) * (other.y as i128) - (self.y as i128) * (other.x as i128),
        )
    }

    /// The length of the vector in micrometers, rounded down.
    pub fn length(&self) -> (r: u64)
        requires
            self.in_bounds(),
        ensures
            r as int * r as int <= self.x * self.x + self.y * self.y + self.z * self.z,
            self.x * self.x + self.y * self.y + self.z * self.z < (r as int + 1) * (r as int
                + 1),
    {
        proof {
            lemma_product_bound(self.x as int, self.x as int);
            lemma_product_bound(self.y as int, self.y as int);
            lemma_product_bound(self.z as int, self.z as int);
            lemma_square_nonneg(self.x as int);
            lemma_square_nonneg(self.y as int);
            lemma_square_nonneg(self.z as int);
        }
        let sq: u128 = ((self.x as i128) * (self.x as i128) + (self.y as i128) * (self.y as i128)
            + (self.z as i128) * (self.z as i128)) as u128;
        let root = crate::mathx::isqrt128(sq);
        proof {
            assert(root < 0x1_0000_0000_0000u128) by (nonlinear_arith)
                requires
                    root as int * root as int <= sq as int,
                    sq <= 0x4000_0000_0000_0000_0000_0000u128,
            ;
        }
        root as u64
    }
}

/// The product of two coordinates within [`COORD_LIMIT`] is tiny compared
/// to the 128-bit range.
proof fn lemma_product_bound(a: int, b: int)
    requires
        -32_000_000 <= a <= 32_000_000,
        -32_000_000 <= b <= 32_000_000,
    ensures
        -1_024_000_000_000_000 <= a * b <= 1_024_000_000_000_000,
{
    assert(-1_024_000_000_000_000 <= a * b <= 1_024_000_000_000_000) by (nonlinear_arith)
        requires
            -32_000_000 <= a <= 32_000_000,
            -32_000_000 <= b <= 32_000_000,
    ;
}

/// A square is never negative.
proof fn lemma_square_nonneg(a: int)
    ensures
        a * a >= 0,
{
    assert(a * a >= 0) by (nonlinear_arith);
}

/// A triangle given by its three vertices; the outward normal is derived,
/// when needed, from the cross product of its first two edges.
#[derive(Debug, Clone, Copy, PartialEq, Eq, Structural)]
pub struct Triangle {
    /// First vertex.
    pub v0: Vector3,
    /// Second vertex.
    pub v1: Vector3,
    /// Third vertex.
    pub v2: Vector3,
}

impl Triangle {
    /// All vertices within bounds.
    pub open spec fn in_bounds(&self) -> bool {
        self.v0.in_bounds() && self.v1.in_bounds() && self.v2.in_bounds()
    }

    /// Builds a triangle from its vertices.
    pub fn new(v0: Vector3, v1: Vector3, v2: Vector3) -> (r: Self)
        ensures
            r == (Triangle { v0, v1, v2 }),
    {
        Triangle { v0, v1, v2 }
    }

    /// The triangle moved by an offset.
    pub open spec fn translate_spec(&self, offset: Vector3) -> Triangle {
        Triangle {
            v0: Vector3::add_spec(self.v0, offset),
            v1: Vector3::add_spec(self.v1, offset),
            v2: Vector3::add_spec(self.v2, offset),
        }
    }

    /// Moves the triangle by an offset.
    pub fn translate(&self, offset: Vector3) -> (r: Triangle)
        requires
            self.in_bounds(),
            offset.in_bounds(),
        ensures
            r == self.translate_spec(offset),
    {
        Triangle {
            v0: self.v0.add(&offset),
            v1: self.v1.add(&offset),
            v2: self.v2.add(&offset),
        }
    }
}

/// A triangle soup: an ordered list of triangles with no topology.
#[derive(Debug, Clone)]
pub struct Mesh {
    /// The triangles, in emission order.
    pub triangles: Vec<Triangle>,
}

/// The twelve triangles of an axis-aligned box: for each face two
/// triangles, in the fixed order front (+Y), back (-Y), right (+X), left
/// (-X), top (+Z), bottom (-Z), with outward-facing winding.
pub open spec fn cube_spec(width: int, depth: int, height: int, c: Vector3) -> Seq<Triangle> {
    let x0 = c.x - width / 2;
    let x1 = c.x + (width - width / 2);
    let y0 = c.y - depth / 2;
    let y1 = c.y + (depth - depth / 2);
    let z0 = c.z - height / 2;
    let z1 = c.z + (height - height / 2);
    let v000 = Vector3 { x: x0 as i64, y: y0 as i64, z: z0 as i64 };
    let v001 = Vector3 { x: x0 as i64, y: y0 as i64, z: z1 as i64 };
    let v010 = Vector3 { x: x0 as i64, y: y1 as i64, z: z0 as i64 };
    let v011 = Vector3 { x: x0 as i64, y: y1 as i64, z: z1 as i64 };
    let v100 = Vector3 { x: x1 as i64, y: y0 as i64, z: z0 as i64 };
    let v101 = Vector3 { x: x1 as i64, y: y0 as i64, z: z1 as i64 };
    let v110 = Vector3 { x: x1 as i64, y: y1 as i64, z: z0 as i64 };
    let v111 = Vector3 { x: x1 as i64, y: y1 as i64, z: z1 as i64 };
    seq![
        Triangle { v0: v010, v1: v110, v2: v111 },
        Triangle { v0: v010, v1: v111, v2: v011 },
        Triangle { v0: v000, v1: v101, v2: v100 },
        Triangle { v0: v000, v1: v001, v2: v101 },
        Triangle { v0: v100, v1: v110, v2: v101 },
        Triangle { v0: v110, v1: v111, v2: v101 },
        Triangle { v0: v000, v1: v011, v2: v001 },
        Triangle { v0: v000, v1: v010, v2: v011 },
        Triangle { v0: v001, v1: v101, v2: v111 },
        Triangle { v0: v001, v1: v111, v2: v011 },
        Triangle { v0: v000, v1: v110, v2: v010 },
        Triangle { v0: v000, v1: v100, v2: v110 },
    ]
}

impl Mesh {
    /// An empty mesh.
    pub fn new() -> (r: Self)
        ensures
            r.triangles@.len() == 0,
    {
        Mesh { triangles: Vec::new() }
    }

    /// An empty mesh with storage reserved for `capacity` triangles.
    pub fn with_capacity(capacity: usize) -> (r: Self)
        ensures
            r.triangles@.len() == 0,
    {
        Mesh { triangles: Vec::with_capacity(capacity) }
    }

    /// Appends one triangle.
    pub fn add_triangle(&mut self, triangle: Triangle)
        ensures
            final(self).triangles@ == old(self).triangles@.push(triangle),
    {
        self.triangles.push(triangle);
    }

    /// The number of triangles.
    pub fn triangle_count(&self) -> (r: usize)
        ensures
            r == self.triangles@.len(),
    {
        self.triangles.len()
    }

    /// Every vertex of every triangle within bounds.
    pub open spec fn in_bounds(&self) -> bool {
        forall|i: int|
            0 <= i < self.triangles@.len() ==> (#[trigger] self.triangles@[i]).in_bounds()
    }

    /// The mesh moved by an offset, triangle for triangle.
    pub fn translate(&self, offset: Vector3) -> (r: Mesh)
        requires
            self.in_bounds(),
            offset.in_bounds(),
        ensures
            r.triangles@.len() == self.triangles@.len(),
            forall|i: int|
                0 <= i < self.triangles@.len() ==> #[trigger] r.triangles@[i]
                    == self.triangles@[i].translate_spec(offset),
    {
        let mut out: Vec<Triangle> = Vec::new();
        let mut i: usize = 0;
        while i < self.triangles.len()
            invariant
                i <= self.triangles@.len(),
                self.in_bounds(),
                offset.in_bounds(),
                out@.len() == i,
                forall|j: int|
                    0 <= j < i ==> #[trigger] out@[j] == self.triangles@[j].translate_spec(
                        offset,
                    ),
            decreases self.triangles@.len() - i,
        {
            out.push(self.triangles[i].translate(offset));
            i = i + 1;
        }
        Mesh { triangles: out }
    }

    /// Appends all triangles of another mesh, keeping their order.
    pub fn merge(&mut self, other: &Mesh)
        ensures
            final(self).triangles@ == old(self).triangles@ + other.triangles@,
    {
        let mut i: usize = 0;
        while i < other.triangles.len()
            invariant
                i <= other.triangles@.len(),
                self.triangles@ == old(self).triangles@ + other.triangles@.take(i as int),
            decreases other.triangles@.len() - i,
        {
            self.triangles.push(other.triangles[i]);
            proof {
                assert(old(self).triangles@ + other.triangles@.take(i + 1) =~= (old(
                    self,
                ).triangles@ + other.triangles@.take(i as int)).push(
                    other.triangles@[i as int],
                ));
            }
            i = i + 1;
        }
        proof {
            assert(other.triangles@.take(other.triangles@.len() as int) =~= other.triangles@);
        }
    }

    /// Consumes another mesh and appends its triangles, keeping their order.
    pub fn merge_owned(&mut self, other: Mesh)
        ensures
            final(self).triangles@ == old(self).triangles@ + other.triangles@,
    {
        let mut incoming = other.triangles;
        self.triangles.append(&mut incoming);
    }

    /// Builds the twelve-triangle axis-aligned box of the given dimensions
    /// around a center point.
    pub fn cube(width: u64, depth: u64, height: u64, center: Vector3) -> (r: Mesh)
        requires
            width <= 10_000_000,
            depth <= 10_000_000,
            height <= 10_000_000,
            -20_000_000 <= center.x <= 20_000_000,
            -20_000_000 <= center.y <= 20_000_000,
            -20_000_000 <= center.z <= 20_000_000,
        ensures
            r.triangles@ == cube_spec(width as int, depth as int, height as int, center),
            r.triangles@.len() == 12,
            r.in_bounds(),
    {
        let hw = (width / 2) as i64;
        let hw2 = (width - width / 2) as i64;
        let hd = (depth / 2) as i64;
        let hd2 = (depth - depth / 2) as i64;
        let hh = (height / 2) as i64;
        let hh2 = (height - height / 2) as i64;
        let x0 = center.x - hw;
        let x1 = center.x + hw2;
        let y0 = center.y - hd;
        let y1 = center.y + hd2;
        let z0 = center.z - hh;
        let z1 = center.z + hh2;
        let v000 = Vector3 { x: x0, y: y0, z: z0 };
        let v001 = Vector3 { x: x0, y: y0, z: z1 };
        let v010 = Vector3 { x: x0, y: y1, z: z0 };
        let v011 = Vector3 { x: x0, y: y1, z: z1 };
        let v100 = Vector3 { x: x1, y: y0, z: z0 };
        let v101 = Vector3 { x: x1, y: y0, z: z1 };
        let v110 = Vector3 { x: x1, y: y1, z: z0 };
        let v111 = Vector3 { x: x1, y: y1, z: z1 };
        let mut mesh = Mesh::new();
        mesh.add_triangle(Triangle { v0: v010, v1: v110, v2: v111 });
        mesh.add_triangle(Triangle { v0: v010, v1: v111, v2: v011 });
        mesh.add_triangle(Triangle { v0: v000, v1: v101, v2: v100 });
        mesh.add_triangle(Triangle { v0: v000, v1: v001, v2: v101 });
        mesh.add_triangle(Triangle { v0: v100, v1: v110, v2: v101 });
        mesh.add_triangle(Triangle { v0: v110, v1: v111, v2: v101 });
        mesh.add_triangle(Triangle { v0: v000, v1: v011, v2: v001 });
        mesh.add_triangle(Triangle { v0: v000, v1: v010, v2: v011 });
        mesh.add_triangle(Triangle { v0: v001, v1: v101, v2: v111 });
        mesh.add_triangle(Triangle { v0: v001, v1: v111, v2: v011 });
        mesh.add_triangle(Triangle { v0: v000, v1: v110, v2: v010 });
        mesh.add_triangle(Triangle { v0: v000, v1: v100, v2: v110 });
        proof {
            assert(mesh.triangles@ =~= cube_spec(
                width as int,
                depth as int,
                height as int,
                center,
            ));
        }
        mesh
    }
}

} // verus!
