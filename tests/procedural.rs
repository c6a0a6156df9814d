use mash::build::{cube, unit_cube, vector_cube, ONE};
use mash::{TriangularMesh, Vector, Vertex};

#[test]
fn can_build_cube() {
    let cube: TriangularMesh<Vector, u64> = unit_cube();
    assert_eq!(cube.triangles().count(), 12);
}

#[test]
fn unit_cube_layout() {
    let mesh: TriangularMesh<Vector, u8> = unit_cube();
    assert_eq!(mesh.vertices.len(), 8);
    assert_eq!(mesh.indices.len(), 36);
    assert_eq!(mesh.vertices[0], Vector(1.0f32.to_bits(), (-1.0f32).to_bits(), (-1.0f32).to_bits()));
    assert_eq!(mesh.vertices[6], Vector((-1.0f32).to_bits(), 1.0f32.to_bits(), 1.0f32.to_bits()));
    assert_eq!(&mesh.indices[0..6], &[1, 3, 0, 7, 5, 4]);
}

#[test]
fn scaled_cube_corners() {
    let mesh: TriangularMesh<Vector, u16> = cube(2.5f32.to_bits());
    let s = 2.5f32.to_bits();
    let n = (-2.5f32).to_bits();
    assert_eq!(mesh.vertices[1], Vector(s, n, s));
    assert_eq!(mesh.vertices[5], Vector(s, s, s));
    assert_eq!(mesh.vertices[3], Vector(n, n, n));
}

#[test]
fn vector_cube_matches_unit_cube() {
    let a: TriangularMesh<Vector, u32> = vector_cube(ONE);
    let b: TriangularMesh<Vector, u32> = unit_cube();
    assert_eq!(a, b);
    assert_eq!(a.vertices[4].position(), Vector(ONE, ONE, (-1.0f32).to_bits()));
}
