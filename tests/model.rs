use mash::build;
use mash::{Error, ErrorKind, Index, Model, Triangle, TriangularMesh, Vector};

fn v(x: f32, y: f32, z: f32) -> Vector {
    Vector(x.to_bits(), y.to_bits(), z.to_bits())
}

fn tri(a: Vector, b: Vector, c: Vector) -> Triangle<Vector> {
    Triangle { vertices: [a, b, c] }
}

#[test]
fn can_enumerate_triangles() {
    let cube: TriangularMesh<Vector, u64> = build::unit_cube();
    assert_eq!(cube.triangles().count(), 12);
}

#[test]
fn can_build_out_of_triangles() {
    let triangles = vec![
        Triangle { vertices: [v(1.0, 1.0, 1.0), v(2.0, 2.0, 2.0), v(3.0, 3.0, 3.0)] },
        Triangle { vertices: [v(5.0, 5.0, 5.0), v(6.0, 6.0, 6.0), v(7.0, 7.0, 7.0)] },
    ];

    let mesh: TriangularMesh<_, u16> = TriangularMesh::from_triangles(triangles).unwrap();
    let processed_triangles: Vec<_> = mesh.triangles().collect();

    assert_eq!(processed_triangles, vec![
        Triangle { vertices: [v(1.0, 1.0, 1.0), v(2.0, 2.0, 2.0), v(3.0, 3.0, 3.0)] },
        Triangle { vertices: [v(5.0, 5.0, 5.0), v(6.0, 6.0, 6.0), v(7.0, 7.0, 7.0)] },
    ]);
}

#[test]
fn disjoint_triangles_keep_six_sorted_vertices() {
    let triangles = vec![
        tri(v(7.0, 7.0, 7.0), v(5.0, 5.0, 5.0), v(6.0, 6.0, 6.0)),
        tri(v(3.0, 3.0, 3.0), v(1.0, 1.0, 1.0), v(2.0, 2.0, 2.0)),
    ];
    let mesh: TriangularMesh<Vector, u32> = TriangularMesh::from_triangles(triangles).unwrap();
    assert_eq!(mesh.vertices, vec![
        v(1.0, 1.0, 1.0),
        v(2.0, 2.0, 2.0),
        v(3.0, 3.0, 3.0),
        v(5.0, 5.0, 5.0),
        v(6.0, 6.0, 6.0),
        v(7.0, 7.0, 7.0),
    ]);
    assert_eq!(mesh.indices, vec![5, 3, 4, 2, 0, 1]);
}

#[test]
fn shared_vertices_are_merged() {
    let a = v(0.0, 0.0, 0.0);
    let b = v(1.0, 0.0, 0.0);
    let c = v(0.0, 1.0, 0.0);
    let d = v(1.0, 1.0, 0.0);
    let mesh: TriangularMesh<Vector, u16> =
        TriangularMesh::from_triangles(vec![tri(a, b, c), tri(c, b, d)]).unwrap();
    assert_eq!(mesh.vertices, vec![a, c, b, d]);
    assert_eq!(mesh.indices, vec![0, 2, 1, 1, 2, 3]);
}

#[test]
fn nearly_equal_vertices_stay_apart() {
    let a = v(1.0, 1.0, 1.0);
    let b = Vector(a.0, a.1, a.2 + 1);
    let mesh: TriangularMesh<Vector, u8> =
        TriangularMesh::from_triangles(vec![tri(a, b, a)]).unwrap();
    assert_eq!(mesh.vertices.len(), 2);
    assert_eq!(mesh.indices, vec![0, 1, 0]);
}

#[test]
fn negative_coordinates_sort_first() {
    let mesh: TriangularMesh<Vector, u16> = TriangularMesh::from_triangles(vec![tri(
        v(1.0, 0.0, 0.0),
        v(-2.0, 0.0, 0.0),
        v(-1.0, 0.0, 0.0),
    )])
    .unwrap();
    assert_eq!(mesh.vertices, vec![v(-2.0, 0.0, 0.0), v(-1.0, 0.0, 0.0), v(1.0, 0.0, 0.0)]);
    assert_eq!(mesh.indices, vec![2, 0, 1]);
}

#[test]
fn empty_input_gives_empty_mesh() {
    let mesh: TriangularMesh<Vector, u8> = TriangularMesh::from_triangles(Vec::new()).unwrap();
    assert!(mesh.vertices.is_empty());
    assert!(mesh.indices.is_empty());
    assert_eq!(mesh.triangles().count(), 0);
}

#[test]
fn too_many_vertices_for_index_type() {
    let mut triangles = Vec::new();
    for t in 0..86u32 {
        let base = (3 * t) as f32;
        triangles.push(tri(v(base, 0.0, 0.0), v(base + 1.0, 0.0, 0.0), v(base + 2.0, 0.0, 0.0)));
    }
    let r: Result<TriangularMesh<Vector, u8>, Error> = TriangularMesh::from_triangles(triangles);
    let err = r.err().unwrap();
    assert_eq!(err.kind, ErrorKind::IndexTooSmall(255, 8));
}

#[test]
fn exactly_max_vertices_fit() {
    let mut triangles = Vec::new();
    for t in 0..85u32 {
        let base = (3 * t) as f32;
        triangles.push(tri(v(base, 0.0, 0.0), v(base + 1.0, 0.0, 0.0), v(base + 2.0, 0.0, 0.0)));
    }
    let mesh: TriangularMesh<Vector, u8> = TriangularMesh::from_triangles(triangles).unwrap();
    assert_eq!(mesh.vertices.len(), 255);
    assert_eq!(*mesh.indices.last().unwrap(), 254);
}

#[test]
fn triangle_count_is_a_third_of_the_indices() {
    let mesh = TriangularMesh::<Vector, u32> {
        vertices: vec![v(0.0, 0.0, 0.0), v(1.0, 0.0, 0.0), v(0.0, 1.0, 0.0)],
        indices: vec![0, 1, 2, 2, 1, 0, 0, 0, 0],
    };
    assert_eq!(mesh.triangles().count(), 3);
    let mut it = mesh.triangles();
    it.next();
    let second = it.next().unwrap();
    assert_eq!(second.vertices, [v(0.0, 1.0, 0.0), v(1.0, 0.0, 0.0), v(0.0, 0.0, 0.0)]);
    assert_eq!(it.count(), 1);
}

#[test]
fn round_trip_keeps_triangles() {
    let cube: TriangularMesh<Vector, u32> = build::unit_cube();
    let before: Vec<_> = cube.triangles().collect();
    let merged: TriangularMesh<Vector, u16> =
        TriangularMesh::from_triangles(cube.triangles().collect()).unwrap();
    let after: Vec<_> = merged.triangles().collect();
    assert_eq!(before, after);
    assert_eq!(merged.vertices.len(), 8);
}

#[test]
fn merging_twice_changes_nothing() {
    let a = v(0.0, 0.0, 0.0);
    let b = v(1.0, 0.0, 0.0);
    let c = v(0.0, 1.0, 0.0);
    let d = v(1.0, 1.0, 0.0);
    let first: TriangularMesh<Vector, u32> =
        TriangularMesh::from_triangles(vec![tri(d, b, c), tri(c, b, a), tri(a, a, d)]).unwrap();
    let second: TriangularMesh<Vector, u32> =
        TriangularMesh::from_triangles(first.triangles().collect()).unwrap();
    assert_eq!(first.vertices, second.vertices);
    assert_eq!(first.indices, second.indices);
}

#[test]
fn index_from_u64_bounds() {
    assert_eq!(<u8 as Index>::from_u64(254).unwrap(), 254u8);
    assert_eq!(<u8 as Index>::from_u64(255).err().unwrap().kind, ErrorKind::IndexTooSmall(255, 8));
    assert_eq!(<u16 as Index>::from_u64(65534).unwrap(), 65534u16);
    assert_eq!(
        <u16 as Index>::from_u64(70000).err().unwrap().kind,
        ErrorKind::IndexTooSmall(70000, 16)
    );
    assert_eq!(<u32 as Index>::from_u64(0).unwrap(), 0u32);
    assert_eq!(
        <u32 as Index>::from_u64(u32::MAX as u64).err().unwrap().kind,
        ErrorKind::IndexTooSmall(u32::MAX as u64, 32)
    );
    assert_eq!(<u64 as Index>::from_u64(u64::MAX - 1).unwrap(), u64::MAX - 1);
    assert_eq!(
        <u64 as Index>::from_u64(u64::MAX).err().unwrap().kind,
        ErrorKind::IndexTooSmall(u64::MAX, 64)
    );
    assert_eq!(<u16 as Index>::to_u64(7u16), 7);
}

#[test]
fn empty_model_and_mesh() {
    let model: Model<Vector, u16> = Model::empty();
    assert!(model.mesh.vertices.is_empty());
    assert!(model.mesh.indices.is_empty());
    let mesh: TriangularMesh<Vector, u16> = TriangularMesh::empty();
    assert_eq!(mesh.triangles().count(), 0);
}

#[test]
fn error_kind_accessor() {
    let e = Error::new(ErrorKind::UnknownModelFormat("ply".to_string()));
    assert_eq!(*e.kind(), ErrorKind::UnknownModelFormat("ply".to_string()));
}
