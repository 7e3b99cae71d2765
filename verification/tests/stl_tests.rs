//! Tests of the STL serializer and its fixed-point float encoding.

use pixestl::lithophane::geometry::{Mesh, Triangle, Vector3};
use pixestl::stl::{f32_bits_of_um, write_ascii_stl, write_binary_stl, write_stl, StlFormat};

#[test]
fn test_write_ascii_stl_empty() {
    let mesh = Mesh::new();
    let result = write_ascii_stl(&mesh, "test");
    assert!(result.contains("solid test"));
    assert!(result.contains("endsolid test"));
}

#[test]
fn test_write_ascii_stl_single_triangle() {
    let mut mesh = Mesh::new();
    mesh.add_triangle(Triangle::new(
        Vector3::new(0, 0, 0),
        Vector3::new(1000, 0, 0),
        Vector3::new(0, 1000, 0),
    ));
    let result = write_ascii_stl(&mesh, "test");
    assert!(result.contains("solid test"));
    assert!(result.contains("facet normal"));
    assert!(result.contains("vertex 0 0 0"));
    assert!(result.contains("vertex 1 0 0"));
    assert!(result.contains("vertex 0 1 0"));
    assert!(result.contains("endfacet"));
}

#[test]
fn test_write_ascii_fractional_vertex() {
    let mut mesh = Mesh::new();
    mesh.add_triangle(Triangle::new(
        Vector3::new(400, -1250, 30),
        Vector3::new(1000, 0, 0),
        Vector3::new(0, 1000, 0),
    ));
    let result = write_ascii_stl(&mesh, "test");
    assert!(result.contains("vertex 0.4 -1.25 0.03"));
}

#[test]
fn test_write_binary_stl_empty() {
    let mesh = Mesh::new();
    let output = write_binary_stl(&mesh, "test");
    assert_eq!(output.len(), 84);
    let count = u32::from_le_bytes([output[80], output[81], output[82], output[83]]);
    assert_eq!(count, 0);
}

#[test]
fn test_write_binary_stl_single_triangle() {
    let mut mesh = Mesh::new();
    mesh.add_triangle(Triangle::new(
        Vector3::new(0, 0, 0),
        Vector3::new(1000, 0, 0),
        Vector3::new(0, 1000, 0),
    ));
    let output = write_binary_stl(&mesh, "test");
    assert_eq!(output.len(), 134);
    let count = u32::from_le_bytes([output[80], output[81], output[82], output[83]]);
    assert_eq!(count, 1);
}

#[test]
fn test_write_binary_vertex_encoding() {
    // The first vertex field sits at offset 84 + 12: v0.x of the triangle.
    let mut mesh = Mesh::new();
    mesh.add_triangle(Triangle::new(
        Vector3::new(1000, -1500, 400),
        Vector3::new(2000, -1500, 400),
        Vector3::new(1000, -500, 400),
    ));
    let output = write_binary_stl(&mesh, "test");
    let field = |i: usize| {
        f32::from_bits(u32::from_le_bytes([
            output[84 + 4 * i],
            output[84 + 4 * i + 1],
            output[84 + 4 * i + 2],
            output[84 + 4 * i + 3],
        ]))
    };
    // this triangle lies in a horizontal plane: its normal points along +z
    assert!(field(0).abs() < 1e-6);
    assert!(field(1).abs() < 1e-6);
    assert!((field(2) - 1.0).abs() < 1e-6);
    // vertex coordinates in millimeters
    assert_eq!(field(3), 1.0);
    assert_eq!(field(4), -1.5);
    assert_eq!(field(5), 0.4);
}

#[test]
fn test_write_binary_size_formula() {
    // 84 + 50 T for a cube of twelve triangles.
    let mesh = Mesh::cube(2000, 2000, 2000, Vector3::new(1000, 1000, 1000));
    let output = write_binary_stl(&mesh, "cube");
    assert_eq!(output.len(), 84 + 50 * 12);
}

#[test]
fn test_write_ascii_cube() {
    let mesh = Mesh::cube(2000, 2000, 2000, Vector3::zero());
    let result = write_ascii_stl(&mesh, "cube");
    assert_eq!(result.matches("facet normal").count(), 12);
}

#[test]
fn test_stl_format_equality() {
    assert_eq!(StlFormat::Ascii, StlFormat::Ascii);
    assert_ne!(StlFormat::Ascii, StlFormat::Binary);
}

#[test]
fn test_write_stl_wrappers() {
    let mesh = Mesh::new();
    let output = write_stl(&mesh, StlFormat::Ascii, "test").unwrap();
    assert!(String::from_utf8(output).unwrap().contains("solid test"));

    let output = write_stl(&mesh, StlFormat::Binary, "test").unwrap();
    assert_eq!(output.len(), 84);
}

#[test]
fn test_f32_bits_match_native_encoding() {
    // Exactly representable millimeter values must encode bit for bit.
    for (um, mm) in [
        (0i64, 0.0f32),
        (1000, 1.0),
        (-1000, -1.0),
        (500, 0.5),
        (250, 0.25),
        (1500, 1.5),
        (-2750, -2.75),
        (32_000_000, 32000.0),
        (8, 0.008),
        (400, 0.4),
        (100, 0.1),
        (-300, -0.3),
        (1234, 1.234),
    ] {
        assert_eq!(
            f32_bits_of_um(um),
            mm.to_bits(),
            "encoding of {} micrometers",
            um
        );
    }
}
