use mash::load::wavefront::{MaterialData, MeshData, ModelData, Vertex, Wavefront};
use mash::{BuildModel, Color, ErrorKind, Model, Vector};

fn bits(values: &[f32]) -> Vec<u32> {
    values.iter().map(|x| x.to_bits()).collect()
}

/// A cube with four vertices of its own on each face, as a parser hands it over.
fn cube_model(name: &str, material_id: Option<usize>) -> ModelData {
    let faces: [[[f32; 3]; 4]; 6] = [
        [[1.0, -1.0, -1.0], [1.0, -1.0, 1.0], [-1.0, -1.0, 1.0], [-1.0, -1.0, -1.0]],
        [[1.0, 1.0, -1.0], [-1.0, 1.0, -1.0], [-1.0, 1.0, 1.0], [1.0, 1.0, 1.0]],
        [[1.0, -1.0, -1.0], [1.0, 1.0, -1.0], [1.0, 1.0, 1.0], [1.0, -1.0, 1.0]],
        [[1.0, -1.0, 1.0], [1.0, 1.0, 1.0], [-1.0, 1.0, 1.0], [-1.0, -1.0, 1.0]],
        [[-1.0, -1.0, 1.0], [-1.0, 1.0, 1.0], [-1.0, 1.0, -1.0], [-1.0, -1.0, -1.0]],
        [[1.0, 1.0, -1.0], [1.0, -1.0, -1.0], [-1.0, -1.0, -1.0], [-1.0, 1.0, -1.0]],
    ];
    let mut positions = Vec::new();
    let mut indices = Vec::new();
    for (f, face) in faces.iter().enumerate() {
        for corner in face.iter() {
            positions.extend_from_slice(corner);
        }
        let b = 4 * f as u32;
        indices.extend_from_slice(&[b, b + 1, b + 2, b, b + 2, b + 3]);
    }
    ModelData {
        name: name.to_string(),
        mesh: MeshData {
            positions: bits(&positions),
            normals: Vec::new(),
            texcoords: Vec::new(),
            indices,
            material_id,
        },
    }
}

fn material(name: &str) -> MaterialData {
    MaterialData {
        name: name.to_string(),
        ambient: Color(0.1f32.to_bits(), 0.2f32.to_bits(), 0.3f32.to_bits()),
        diffuse: Color(0.4f32.to_bits(), 0.5f32.to_bits(), 0.6f32.to_bits()),
        specular: Color(0.7f32.to_bits(), 0.8f32.to_bits(), 0.9f32.to_bits()),
        shininess: 96.0f32.to_bits(),
        dissolve: 1.0f32.to_bits(),
        optical_density: 1.5f32.to_bits(),
        ambient_texture: "ambient.png".to_string(),
        diffuse_texture: "diffuse.png".to_string(),
        specular_texture: "specular.png".to_string(),
        normal_texture: "normal.png".to_string(),
        dissolve_texture: "dissolve.png".to_string(),
    }
}

fn cube() -> Wavefront {
    Wavefront::new(vec![cube_model("Cube", None)], Vec::new()).unwrap()
}

pub type Vert = Vector;

#[test]
fn can_build_file() {
    let cube: Model<Vert, u64> = Model::new(cube()).unwrap();

    assert_eq!(cube.mesh.vertices.len(), 24);
    assert_eq!(cube.mesh.indices.len(), 36);
}

#[test]
fn can_enumerate_objects() {
    let cube = cube();
    assert_eq!(cube.objects().count(), 1);
    assert_eq!(cube.objects().next().unwrap().name(), "Cube");
}

#[test]
fn can_build_object() {
    let cube: Model<Vert, u64> = Model::new(cube().objects().next().unwrap()).unwrap();
    assert_eq!(cube.mesh.vertices.len(), 24);
    assert_eq!(cube.mesh.indices.len(), 36);
}

#[test]
fn scene_indices_are_made_absolute() {
    let scene = || {
        Wavefront::new(vec![cube_model("a", None), cube_model("b", None)], Vec::new()).unwrap()
    };
    let whole: Model<Vector, u32> = scene().build_model().unwrap();
    assert_eq!(whole.mesh.vertices.len(), 48);
    assert_eq!(whole.mesh.indices.len(), 72);
    assert_eq!(&whole.mesh.indices[36..42], &[24, 25, 26, 24, 26, 27]);
    assert_eq!(whole.mesh.triangles().count(), 24);

    let scene = scene();
    let mut objects = scene.objects();
    objects.next();
    let second: Model<Vector, u32> = objects.next().unwrap().build_model().unwrap();
    assert_eq!(&second.mesh.indices[0..6], &[0, 1, 2, 0, 2, 3]);
    assert!(objects.next().is_none());
}

#[test]
fn scene_index_too_small() {
    let models: Vec<ModelData> = (0..11).map(|i| cube_model(&format!("c{}", i), None)).collect();
    let scene = Wavefront::new(models, Vec::new()).unwrap();
    let r: Result<Model<Vector, u8>, _> = Model::new(scene);
    // The eleventh cube starts at vertex 240, so its own vertex 15 becomes 255.
    assert_eq!(r.err().unwrap().kind, ErrorKind::IndexTooSmall(255, 8));
}

#[test]
fn vertex_attributes_are_optional() {
    let mut model = cube_model("lit", None);
    let normals: Vec<f32> = (0..72).map(|i| i as f32).collect();
    let texcoords: Vec<f32> = (0..48).map(|i| i as f32 + 0.5).collect();
    model.mesh.normals = bits(&normals);
    model.mesh.texcoords = bits(&texcoords);
    let scene = Wavefront::new(vec![model], Vec::new()).unwrap();
    let object = scene.objects().next().unwrap();
    let converted: Model<Vector, u16> = object.build_model().unwrap();
    assert_eq!(converted.mesh.vertices[1], Vector(1.0f32.to_bits(), (-1.0f32).to_bits(), 1.0f32.to_bits()));

    let v = Vertex {
        position: Vector(1, 2, 3),
        normal: None,
        texture_coords: Some(Vector(4, 5, 6)),
    };
    assert_eq!(Vector::from(v), Vector(1, 2, 3));
}

#[test]
fn normals_and_texcoords_are_read_per_vertex() {
    let mut model = cube_model("lit", None);
    let normals: Vec<f32> = (0..72).map(|i| i as f32).collect();
    let texcoords: Vec<f32> = (0..48).map(|i| i as f32 + 0.5).collect();
    model.mesh.normals = bits(&normals);
    model.mesh.texcoords = bits(&texcoords);
    let scene = Wavefront::new(vec![model], Vec::new()).unwrap();
    let built: Model<Vertex, u16> = scene.build_model().unwrap();
    let v1 = built.mesh.vertices[1];
    assert_eq!(v1.normal, Some(Vector(3.0f32.to_bits(), 4.0f32.to_bits(), 5.0f32.to_bits())));
    assert_eq!(v1.texture_coords, Some(Vector(2.5f32.to_bits(), 3.5f32.to_bits(), 0)));
    let v23 = built.mesh.vertices[23];
    assert_eq!(v23.normal, Some(Vector(69.0f32.to_bits(), 70.0f32.to_bits(), 71.0f32.to_bits())));
    assert_eq!(v23.texture_coords, Some(Vector(46.5f32.to_bits(), 47.5f32.to_bits(), 0)));
    let plain: Model<Vertex, u16> =
        Wavefront::new(vec![cube_model("plain", None)], Vec::new()).unwrap().build_model().unwrap();
    assert_eq!(plain.mesh.vertices[0].normal, None);
    assert_eq!(plain.mesh.vertices[0].texture_coords, None);
}

#[test]
fn materials_are_looked_up_by_id() {
    let scene = Wavefront::new(
        vec![cube_model("plain", None), cube_model("door", Some(1))],
        vec![material("wood"), material("steel")],
    )
    .unwrap();
    let mut objects = scene.objects();
    assert!(objects.next().unwrap().material().is_none());
    let door = objects.next().unwrap();
    let m = door.material().unwrap();
    assert_eq!(m.name(), "steel");
    assert_eq!(m.ambient_color(), Color(0.1f32.to_bits(), 0.2f32.to_bits(), 0.3f32.to_bits()));
    assert_eq!(m.diffuse_color(), Color(0.4f32.to_bits(), 0.5f32.to_bits(), 0.6f32.to_bits()));
    assert_eq!(m.specular_color(), Color(0.7f32.to_bits(), 0.8f32.to_bits(), 0.9f32.to_bits()));
    assert_eq!(f32::from_bits(m.shininess()), 96.0);
    assert_eq!(f32::from_bits(m.alpha()), 1.0);
    assert_eq!(f32::from_bits(m.optical_density()), 1.5);
    assert_eq!(m.ambient_texture(), "ambient.png");
    assert_eq!(m.diffuse_texture(), "diffuse.png");
    assert_eq!(m.specular_texture(), "specular.png");
    assert_eq!(m.normal_texture(), "normal.png");
    assert_eq!(m.dissolve_texture(), "dissolve.png");
}

#[test]
fn malformed_scenes_are_refused() {
    assert!(Wavefront::new(vec![cube_model("x", Some(0))], Vec::new()).is_none());
    let mut bad_index = cube_model("x", None);
    bad_index.mesh.indices[0] = 24;
    assert!(Wavefront::new(vec![bad_index], Vec::new()).is_none());
    let mut ragged = cube_model("x", None);
    ragged.mesh.positions.pop();
    assert!(Wavefront::new(vec![ragged], Vec::new()).is_none());
    let mut short_normals = cube_model("x", None);
    short_normals.mesh.normals = vec![0; 70];
    assert!(Wavefront::new(vec![short_normals], Vec::new()).is_none());
    let mut short_texcoords = cube_model("x", None);
    short_texcoords.mesh.texcoords = vec![0; 47];
    assert!(Wavefront::new(vec![short_texcoords], Vec::new()).is_none());
    assert!(Wavefront::new(Vec::new(), Vec::new()).unwrap().objects().count() == 0);
}

#[test]
fn format_builds_the_whole_scene() {
    let scene = Wavefront::new(vec![cube_model("a", None), cube_model("b", None)], Vec::new())
        .unwrap();
    let m: Model<Vector, u16> = mash::load::Format::build_model(scene).unwrap();
    assert_eq!(m.mesh.vertices.len(), 48);
    assert_eq!(m.mesh.indices[71], 47);
}

#[test]
fn parsed_vertices_merge_by_all_attributes() {
    let p = Vector(1, 2, 3);
    let a = Vertex { position: p, normal: None, texture_coords: None };
    let b = Vertex { position: p, normal: Some(Vector(0, 0, 1)), texture_coords: None };
    let c = Vertex { position: p, normal: Some(Vector(0, 0, 1)), texture_coords: Some(Vector(5, 5, 0)) };
    let mesh: mash::TriangularMesh<Vertex, u16> = mash::TriangularMesh::from_triangles(vec![
        mash::Triangle { vertices: [c, b, a] },
        mash::Triangle { vertices: [a, c, c] },
    ])
    .unwrap();
    assert_eq!(mesh.vertices, vec![a, b, c]);
    assert_eq!(mesh.indices, vec![2, 1, 0, 0, 2, 2]);
}
