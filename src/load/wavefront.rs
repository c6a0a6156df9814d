//! Adapter for scenes read from Wavefront `.obj` files.
//!
//! Parsing the text format is left to a parser; this module takes what the
//! parser found, as plain values, and turns it into models. Floats are held
//! as their IEEE-754 bit patterns.
use vstd::prelude::*;
use crate::errors::Error;
use crate::geometry::{vector_precedes, Color, Vector};
use core::cmp::Ordering;
use crate::index::Index;
use crate::load::Format;
use crate::model::{BuildModel, Model, TriangularMesh};
use vstd::std_specs::convert::FromSpec;

verus! {

/// A vertex as a Wavefront file describes it.
#[derive(Clone, Copy, Debug, PartialEq)]
pub struct Vertex {
    pub position: Vector,
    pub normal: Option<Vector>,
    pub texture_coords: Option<Vector>,
}

/// The geometry of one object, as the parser hands it over.
pub struct MeshData {
    /// Positions, three coordinates per vertex.
    pub positions: Vec<u32>,
    /// Normals; empty when the file has none.
    pub normals: Vec<u32>,
    /// Texture coordinates; empty when the file has none.
    pub texcoords: Vec<u32>,
    /// Triangle indices into this object's own vertices.
    pub indices: Vec<u32>,
    /// The position of the object's material in the material list.
    pub material_id: Option<usize>,
}

/// A named object, as the parser hands it over.
pub struct ModelData {
    pub name: String,
    pub mesh: MeshData,
}

/// A material, as the parser hands it over.
pub struct MaterialData {
    pub name: String,
    pub ambient: Color,
    pub diffuse: Color,
    pub specular: Color,
    pub shininess: u32,
    pub dissolve: u32,
    pub optical_density: u32,
    pub ambient_texture: String,
    pub diffuse_texture: String,
    pub specular_texture: String,
    pub normal_texture: String,
    pub dissolve_texture: String,
}

/// The number of vertices of a mesh.
pub open spec fn vertex_count(m: MeshData) -> nat {
    m.positions@.len() / 3
}

/// The three values of `elems` from `base` on, as a vector.
pub open spec fn vector_at(elems: Seq<u32>, base: int) -> Vector {
    Vector(elems[base], elems[base + 1], elems[base + 2])
}

/// The normal of vertex `i`: the three values from `3 * i` on; absent when
/// the file gives no normals.
pub open spec fn normal_at(elems: Seq<u32>, i: int) -> Option<Vector> {
    if elems.len() == 0 {
        None
    } else {
        Some(vector_at(elems, 3 * i))
    }
}

/// The texture coordinates of vertex `i`: the two values from `2 * i` on,
/// with a third coordinate of zero; absent when the file gives none.
pub open spec fn texcoord_at(elems: Seq<u32>, i: int) -> Option<Vector> {
    if elems.len() == 0 {
        None
    } else {
        Some(Vector(elems[2 * i], elems[2 * i + 1], 0))
    }
}

/// Vertex `i` of a mesh.
pub open spec fn vertex_at(m: MeshData, i: int) -> Vertex {
    Vertex {
        position: vector_at(m.positions@, 3 * i),
        normal: normal_at(m.normals@, i),
        texture_coords: texcoord_at(m.texcoords@, i),
    }
}

/// The vertices of a mesh, in order.
pub open spec fn mesh_vertices(m: MeshData) -> Seq<Vertex> {
    Seq::new(vertex_count(m), |i: int| vertex_at(m, i))
}

/// An attribute list gives every vertex `stride` values, or is empty.
pub open spec fn attribute_ok(elems: Seq<u32>, count: nat, stride: nat) -> bool {
    elems.len() == 0 || elems.len() == stride * count
}

/// A mesh that the parser can hand over: whole vertices and triangles, and
/// indices that name its own vertices.
pub open spec fn mesh_ok(m: MeshData) -> bool {
    &&& m.positions@.len() % 3 == 0
    &&& attribute_ok(m.normals@, vertex_count(m), 3)
    &&& attribute_ok(m.texcoords@, vertex_count(m), 2)
    &&& m.indices@.len() % 3 == 0
    &&& forall|k: int| 0 <= k < m.indices@.len() ==> (#[trigger] m.indices@[k]) < vertex_count(m)
}

/// The number of vertices of all the objects.
pub open spec fn total_count(ms: Seq<ModelData>) -> nat
    decreases ms.len(),
{
    if ms.len() == 0 {
        0
    } else {
        total_count(ms.drop_last()) + vertex_count(ms.last().mesh)
    }
}

/// The vertices of all the objects, one object after another.
pub open spec fn all_vertices(ms: Seq<ModelData>) -> Seq<Vertex>
    decreases ms.len(),
{
    if ms.len() == 0 {
        Seq::empty()
    } else {
        all_vertices(ms.drop_last()) + mesh_vertices(ms.last().mesh)
    }
}

/// The indices of all the objects, each shifted by the number of vertices
/// of the objects before it.
pub open spec fn all_indices(ms: Seq<ModelData>) -> Seq<nat>
    decreases ms.len(),
{
    if ms.len() == 0 {
        Seq::empty()
    } else {
        all_indices(ms.drop_last()) + ms.last().mesh.indices@.map_values(
            |i: u32| (total_count(ms.drop_last()) + i) as nat,
        )
    }
}

/// A whole scene: every object is well formed, every material reference
/// names a material, and all the vertices fit in one list.
pub open spec fn scene_ok(ms: Seq<ModelData>, materials: Seq<MaterialData>) -> bool {
    &&& forall|m: int| 0 <= m < ms.len() ==> mesh_ok(#[trigger] ms[m].mesh)
    &&& forall|m: int|
        0 <= m < ms.len() ==> (#[trigger] ms[m].mesh.material_id matches Some(id) ==> id
            < materials.len())
    &&& total_count(ms) <= usize::MAX
}

/// A Wavefront scene.
pub struct Wavefront {
    models: Vec<ModelData>,
    materials: Vec<MaterialData>,
}

impl Wavefront {
    /// The objects of the scene.
    pub closed spec fn spec_models(&self) -> Seq<ModelData> {
        self.models@
    }

    /// The materials of the scene.
    pub closed spec fn spec_materials(&self) -> Seq<MaterialData> {
        self.materials@
    }

    #[verifier::type_invariant]
    spec fn inv(&self) -> bool {
        scene_ok(self.models@, self.materials@)
    }

    /// Makes a scene out of what the parser found; `None` when that is not a
    /// well-formed scene.
    pub fn new(models: Vec<ModelData>, materials: Vec<MaterialData>) -> (r: Option<Wavefront>)
        ensures
            r is Some <==> scene_ok(models@, materials@),
            r is Some ==> r->Some_0.spec_models() == models@ && r->Some_0.spec_materials()
                == materials@,
    {
        let mut total: usize = 0;
        let mut m: usize = 0;
        while m < models.len()
            invariant
                m <= models@.len(),
                total == total_count(models@.take(m as int)),
                forall|j: int| 0 <= j < m ==> mesh_ok(#[trigger] models@[j].mesh),
                forall|j: int|
                    0 <= j < m ==> (#[trigger] models@[j].mesh.material_id matches Some(id) ==> id
                        < materials@.len()),
            decreases models@.len() - m,
        {
            let mesh = &models[m].mesh;
            proof {
                assert(models@.take(m + 1).drop_last() =~= models@.take(m as int));
            }
            if !check_mesh(mesh) {
                return None;
            }
            match mesh.material_id {
                Some(id) => {
                    if id >= materials.len() {
                        return None;
                    }
                },
                None => {},
            }
            let count = mesh.positions.len() / 3;
            if count > usize::MAX - total {
                proof {
                    lemma_total_prefix(models@, m as int + 1);
                }
                return None;
            }
            total = total + count;
            m = m + 1;
        }
        proof {
            assert(models@.take(m as int) =~= models@);
        }
        Some(Wavefront { models, materials })
    }
}

/// The vertex count of a prefix is at most that of the whole.
proof fn lemma_total_prefix(ms: Seq<ModelData>, n: int)
    requires
        0 <= n <= ms.len(),
    ensures
        total_count(ms.take(n)) <= total_count(ms),
    decreases ms.len() - n,
{
    if n < ms.len() {
        lemma_total_prefix(ms, n + 1);
        assert(ms.take(n + 1).drop_last() =~= ms.take(n));
    } else {
        assert(ms.take(n) =~= ms);
    }
}

/// Whether a mesh is well formed.
fn check_mesh(m: &MeshData) -> (r: bool)
    ensures
        r == mesh_ok(*m),
{
    if m.positions.len() % 3 != 0 || m.indices.len() % 3 != 0 {
        return false;
    }
    let count = m.positions.len() / 3;
    let normals_ok = m.normals.len() == 0 || m.normals.len() == m.positions.len();
    let texcoords_ok = m.texcoords.len() == 0 || (m.texcoords.len() % 2 == 0
        && m.texcoords.len() / 2 == count);
    if !normals_ok || !texcoords_ok {
        return false;
    }
    let mut k: usize = 0;
    while k < m.indices.len()
        invariant
            k <= m.indices@.len(),
            count == vertex_count(*m),
            forall|j: int| 0 <= j < k ==> (#[trigger] m.indices@[j]) < vertex_count(*m),
        decreases m.indices@.len() - k,
    {
        if m.indices[k] as usize >= count {
            return false;
        }
        k = k + 1;
    }
    true
}


/// The normal of vertex `i`, if the mesh has normals.
fn build_normal(elems: &Vec<u32>, i: usize) -> (r: Option<Vector>)
    requires
        elems@.len() == 0 || 3 * i + 2 < elems@.len(),
    ensures
        r == normal_at(elems@, i as int),
{
    if elems.len() != 0 {
        Some(Vector(elems[3 * i], elems[3 * i + 1], elems[3 * i + 2]))
    } else {
        None
    }
}

/// The texture coordinates of vertex `i`, if the mesh has any.
fn build_texcoord(elems: &Vec<u32>, i: usize) -> (r: Option<Vector>)
    requires
        elems@.len() == 0 || 2 * i + 1 < elems@.len(),
    ensures
        r == texcoord_at(elems@, i as int),
{
    if elems.len() != 0 {
        Some(Vector(elems[2 * i], elems[2 * i + 1], 0))
    } else {
        None
    }
}

/// Appends the vertices of a mesh to `out`, converted into `V`.
fn push_vertices<V: From<Vertex>>(out: Vec<V>, mesh: &MeshData) -> (r: Vec<V>)
    requires
        mesh_ok(*mesh),
    ensures
        r@.len() == out@.len() + vertex_count(*mesh),
        r@.take(out@.len() as int) == out@,
        <V as FromSpec<Vertex>>::obeys_from_spec() ==> forall|i: int|
            0 <= i < vertex_count(*mesh) ==> #[trigger] r@[out@.len() + i] == <V as FromSpec<
                Vertex,
            >>::from_spec(vertex_at(*mesh, i)),
{
    let mut out = out;
    let ghost start = out@;
    let len = mesh.positions.len();
    let count = len / 3;
    let mut i: usize = 0;
    while i < count
        invariant
            mesh_ok(*mesh),
            count == vertex_count(*mesh),
            mesh.positions@.len() <= usize::MAX,
            i <= count,
            out@.len() == start.len() + i,
            out@.take(start.len() as int) == start,
            <V as FromSpec<Vertex>>::obeys_from_spec() ==> forall|j: int|
                0 <= j < i ==> #[trigger] out@[start.len() + j] == <V as FromSpec<
                    Vertex,
                >>::from_spec(vertex_at(*mesh, j)),
        decreases count - i,
    {
        proof {
            let len = mesh.positions@.len() as int;
            let c = count as int;
            let ii = i as int;
            assert(3 * ii + 3 <= len) by (nonlinear_arith)
                requires
                    ii < c,
                    c == len / 3,
                    len >= 0,
            ;
            assert(2 * ii + 2 <= 2 * c) by (nonlinear_arith)
                requires
                    ii < c,
            ;
        }
        let base = 3 * i;
        let position = Vector(
            mesh.positions[base],
            mesh.positions[base + 1],
            mesh.positions[base + 2],
        );
        let normal = build_normal(&mesh.normals, i);
        let texture_coords = build_texcoord(&mesh.texcoords, i);
        let wave_vertex = Vertex { position, normal, texture_coords };
        assert(wave_vertex == vertex_at(*mesh, i as int));
        let ghost before = out@;
        out.push(V::from(wave_vertex));
        assert(out@.take(start.len() as int) =~= before.take(start.len() as int));
        proof {
            assert forall|j: int| 0 <= j < i + 1 implies #[trigger] out@[start.len() + j]
                == before.push(out@.last())[start.len() + j] by {}
        }
        i = i + 1;
    }
    out
}

/// Appends to `out` the indices `offset + local[k]`, converted into `I`;
/// fails with the first that does not fit.
fn push_indices<I: Index>(out: Vec<I>, offset: usize, local: &Vec<u32>) -> (r: Result<Vec<I>, Error>)
    requires
        forall|k: int| 0 <= k < local@.len() ==> offset + #[trigger] local@[k] <= usize::MAX,
    ensures
        r is Ok <==> forall|k: int|
            0 <= k < local@.len() ==> offset + #[trigger] local@[k] < I::max_value(),
        r is Ok ==> r->Ok_0@.len() == out@.len() + local@.len() && r->Ok_0@.take(out@.len() as int)
            == out@ && forall|k: int|
            0 <= k < local@.len() ==> #[trigger] r->Ok_0@[out@.len() + k].value() == offset
                + local@[k],
        r is Err ==> exists|k: int|
            0 <= k < local@.len() && offset + local@[k] >= I::max_value() && r->Err_0
                == Error::index_too_small((offset + local@[k]) as u64, I::bits()) && forall|j: int|
                0 <= j < k ==> offset + #[trigger] local@[j] < I::max_value(),
{
    let mut out = out;
    let ghost start = out@;
    let mut k: usize = 0;
    while k < local.len()
        invariant
            forall|k: int| 0 <= k < local@.len() ==> offset + #[trigger] local@[k] <= usize::MAX,
            k <= local@.len(),
            out@.len() == start.len() + k,
            out@.take(start.len() as int) == start,
            forall|j: int|
                0 <= j < k ==> #[trigger] out@[start.len() + j].value() == offset + local@[j],
            forall|j: int| 0 <= j < k ==> offset + #[trigger] local@[j] < I::max_value(),
        decreases local@.len() - k,
    {
        assert(offset + local@[k as int] <= usize::MAX);
        let abs = offset + local[k] as usize;
        match I::from_u64(abs as u64) {
            Ok(i) => {
                let ghost before = out@;
                out.push(i);
                assert(out@.take(start.len() as int) =~= before.take(start.len() as int));
                assert forall|j: int| 0 <= j < k + 1 implies #[trigger] out@[start.len()
                    + j].value() == offset + local@[j] by {
                    if j < k {
                        assert(out@[start.len() + j] == before[start.len() + j]);
                    }
                }
            },
            Err(e) => {
                return Err(e);
            },
        }
        k = k + 1;
    }
    Ok(out)
}


/// The vertex list of all objects has as many vertices as they hold.
proof fn lemma_all_vertices_len(ms: Seq<ModelData>)
    ensures
        all_vertices(ms).len() == total_count(ms),
    decreases ms.len(),
{
    if ms.len() > 0 {
        lemma_all_vertices_len(ms.drop_last());
    }
}

/// The indices of the first `n` objects begin the indices of all of them.
proof fn lemma_indices_prefix(ms: Seq<ModelData>, n: int)
    requires
        0 <= n <= ms.len(),
    ensures
        all_indices(ms.take(n)).len() <= all_indices(ms).len(),
        forall|j: int|
            0 <= j < all_indices(ms.take(n)).len() ==> all_indices(ms)[j] == all_indices(
                ms.take(n),
            )[j],
    decreases ms.len() - n,
{
    if n < ms.len() {
        lemma_indices_prefix(ms, n + 1);
        assert(ms.take(n + 1).drop_last() =~= ms.take(n));
    } else {
        assert(ms.take(n) =~= ms);
    }
}

impl BuildModel for Wavefront {
    type Vertex = Vertex;

    /// The indices of all objects, made absolute.
    open spec fn spec_indices(&self) -> Seq<nat> {
        all_indices(self.spec_models())
    }

    open spec fn spec_vertices(&self) -> Seq<Vertex> {
        all_vertices(self.spec_models())
    }

    fn build_model<V: crate::geometry::Vertex + From<Vertex>, I: Index>(self) -> (r: Result<
        Model<V, I>,
        Error,
    >) {
        proof {
            use_type_invariant(&self);
        }
        let ghost ms = self.models@;
        let mut vertices: Vec<V> = Vec::new();
        let mut indices: Vec<I> = Vec::new();
        let mut m: usize = 0;
        proof {
            assert(ms.take(0) =~= Seq::<ModelData>::empty());
        }
        while m < self.models.len()
            invariant
                ms == self.models@,
                scene_ok(ms, self.materials@),
                m <= ms.len(),
                vertices@.len() == total_count(ms.take(m as int)),
                indices@.len() == all_indices(ms.take(m as int)).len(),
                forall|k: int|
                    0 <= k < indices@.len() ==> #[trigger] indices@[k].value() == all_indices(
                        ms.take(m as int),
                    )[k] && all_indices(ms.take(m as int))[k] < I::max_value(),
                <V as FromSpec<Vertex>>::obeys_from_spec() ==> forall|i: int|
                    0 <= i < vertices@.len() ==> #[trigger] vertices@[i] == <V as FromSpec<
                        Vertex,
                    >>::from_spec(all_vertices(ms.take(m as int))[i]),
            decreases ms.len() - m,
        {
            let mesh = &self.models[m].mesh;
            let ghost prev = ms.take(m as int);
            let ghost next = ms.take(m + 1);
            let ghost offset = vertices@.len();
            proof {
                assert(mesh_ok(ms[m as int].mesh));
                assert(next.drop_last() =~= prev);
                lemma_total_prefix(ms, m + 1);
                lemma_all_vertices_len(prev);
                lemma_indices_prefix(ms, m as int);
                lemma_indices_prefix(ms, m + 1);
                let shifted = mesh.indices@.map_values(|i: u32| (total_count(prev) + i) as nat);
                assert(all_indices(next) == all_indices(prev) + shifted);
            }
            let ghost old_indices = indices@;
            match push_indices(indices, vertices.len(), &mesh.indices) {
                Ok(ix) => {
                    indices = ix;
                    proof {
                        let base = old_indices.len() as int;
                        assert forall|k: int| 0 <= k < indices@.len() implies #[trigger] indices@[k].value()
                            == all_indices(next)[k] && all_indices(next)[k] < I::max_value() by {
                            if k < base {
                                assert(indices@.take(base)[k] == indices@[k]);
                                assert(old_indices[k].value() == all_indices(prev)[k]);
                            } else {
                                assert(indices@[base + (k - base)].value() == offset
                                    + mesh.indices@[k - base]);
                            }
                        }
                    }
                },
                Err(e) => {
                    proof {
                        let k = choose|k: int|
                            0 <= k < mesh.indices@.len() && offset + mesh.indices@[k]
                                >= I::max_value() && e == Error::index_too_small(
                                (offset + mesh.indices@[k]) as u64,
                                I::bits(),
                            ) && forall|j: int|
                                0 <= j < k ==> offset + #[trigger] mesh.indices@[j]
                                    < I::max_value();
                        let base = all_indices(prev).len() as int;
                        let whole = all_indices(ms);
                        assert(whole[base + k] == offset + mesh.indices@[k]);
                        assert forall|j: int| 0 <= j < base + k implies whole[j] < I::max_value() by {
                            if j >= base {
                                assert(whole[j] == all_indices(next)[j]);
                                assert(whole[j] == offset + mesh.indices@[j - base]);
                            } else {
                                assert(old_indices[j].value() == all_indices(prev)[j]);
                            }
                        }
                    }
                    return Err(e);
                },
            }
            let ghost old_vertices = vertices@;
            vertices = push_vertices(vertices, mesh);
            proof {
                lemma_all_vertices_len(prev);
                lemma_all_vertices_len(next);
                let av = all_vertices(next);
                assert(av == all_vertices(prev) + mesh_vertices(ms[m as int].mesh));
                if <V as FromSpec<Vertex>>::obeys_from_spec() {
                    let base = old_vertices.len() as int;
                    assert forall|i: int| 0 <= i < vertices@.len() implies #[trigger] vertices@[i]
                        == <V as FromSpec<Vertex>>::from_spec(av[i]) by {
                        if i < base {
                            assert(vertices@.take(base)[i] == vertices@[i]);
                            assert(old_vertices[i] == <V as FromSpec<Vertex>>::from_spec(
                                all_vertices(prev)[i],
                            ));
                        } else {
                            assert(vertices@[base + (i - base)] == <V as FromSpec<
                                Vertex,
                            >>::from_spec(vertex_at(*mesh, i - base)));
                        }
                    }
                }
            }
            m = m + 1;
        }
        proof {
            assert(ms.take(m as int) =~= ms);
            lemma_all_vertices_len(ms);
            lemma_all_indices_in_range(ms);
            let idx = all_indices(ms);
            assert forall|k: int| 0 <= k < idx.len() implies idx[k] < I::max_value() by {
                assert(indices@[k].value() == idx[k]);
            }
        }
        Ok(Model { mesh: TriangularMesh { vertices, indices } })
    }
}


impl Wavefront {
    /// All of the objects contained within the wavefront.
    pub fn objects(&self) -> (r: Objects<'_>)
        ensures
            r.well_formed(),
            r.remaining() == self.spec_models(),
    {
        proof {
            use_type_invariant(self);
        }
        let r = Objects { wavefront: self, next: 0 };
        assert(r.remaining() =~= self.spec_models());
        r
    }
}

/// An iterator over all objects in a file.
pub struct Objects<'a> {
    wavefront: &'a Wavefront,
    next: usize,
}

impl<'a> Objects<'a> {
    /// The cursor stands within the scene.
    pub closed spec fn well_formed(&self) -> bool {
        self.next <= self.wavefront.models@.len()
    }

    /// The objects not handed out yet.
    pub closed spec fn remaining(&self) -> Seq<ModelData> {
        self.wavefront.models@.skip(self.next as int)
    }

    /// Hands out the next object, or `None` when all have been handed out.
    pub fn next(&mut self) -> (r: Option<Object<'a>>)
        requires
            old(self).well_formed(),
        ensures
            final(self).well_formed(),
            old(self).remaining().len() == 0 ==> r is None && final(self).remaining()
                == old(self).remaining(),
            old(self).remaining().len() > 0 ==> r is Some && r->Some_0.spec_model()
                == old(self).remaining()[0] && final(self).remaining()
                == old(self).remaining().drop_first(),
    {
        if self.next < self.wavefront.models.len() {
            let o = Object { wavefront: self.wavefront, index: self.next };
            self.next = self.next + 1;
            assert(self.remaining() =~= old(self).remaining().drop_first());
            Some(o)
        } else {
            None
        }
    }

    /// The number of objects not handed out yet.
    pub fn count(self) -> (r: usize)
        requires
            self.well_formed(),
        ensures
            r == self.remaining().len(),
    {
        self.wavefront.models.len() - self.next
    }
}

/// A named object in a Wavefront file.
pub struct Object<'a> {
    wavefront: &'a Wavefront,
    index: usize,
}

impl<'a> Object<'a> {
    #[verifier::type_invariant]
    spec fn inv(&self) -> bool {
        self.index < self.wavefront.models@.len()
    }

    /// What the parser found for this object.
    pub closed spec fn spec_model(&self) -> ModelData {
        self.wavefront.models@[self.index as int]
    }

    /// The materials of the scene that the object belongs to.
    pub closed spec fn spec_materials(&self) -> Seq<MaterialData> {
        self.wavefront.materials@
    }

    /// Gets the name of the object.
    pub fn name(&self) -> (r: &str)
        ensures
            r@ == self.spec_model().name@,
    {
        proof {
            use_type_invariant(self);
        }
        self.wavefront.models[self.index].name.as_str()
    }

    /// Gets the material associated with the object.
    pub fn material(&self) -> (r: Option<Material<'a>>)
        ensures
            self.spec_model().mesh.material_id is None ==> r is None,
            self.spec_model().mesh.material_id matches Some(id) ==> r is Some
                && id < self.spec_materials().len() && r->Some_0.spec_material()
                == self.spec_materials()[id as int],
    {
        proof {
            use_type_invariant(self);
            use_type_invariant(self.wavefront);
            assert(mesh_ok(self.spec_model().mesh));
        }
        match self.wavefront.models[self.index].mesh.material_id {
            Some(id) => Some(Material { material: &self.wavefront.materials[id] }),
            None => None,
        }
    }
}

impl<'a> BuildModel for Object<'a> {
    type Vertex = Vertex;

    /// The object's own indices.
    open spec fn spec_indices(&self) -> Seq<nat> {
        self.spec_model().mesh.indices@.map_values(|i: u32| i as nat)
    }

    open spec fn spec_vertices(&self) -> Seq<Vertex> {
        mesh_vertices(self.spec_model().mesh)
    }

    fn build_model<V: crate::geometry::Vertex + From<Vertex>, I: Index>(self) -> (r: Result<
        Model<V, I>,
        Error,
    >) {
        proof {
            use_type_invariant(&self);
            use_type_invariant(self.wavefront);
        }
        let mesh = &self.wavefront.models[self.index].mesh;
        proof {
            assert(mesh_ok(*mesh));
        }
        let ghost idx = self.spec_indices();
        let ghost verts = self.spec_vertices();
        let indices: Vec<I> = match push_indices(Vec::new(), 0, &mesh.indices) {
            Ok(ix) => ix,
            Err(e) => {
                proof {
                    let k = choose|k: int|
                        0 <= k < mesh.indices@.len() && 0 + mesh.indices@[k] >= I::max_value()
                            && e == Error::index_too_small(
                            (0 + mesh.indices@[k]) as u64,
                            I::bits(),
                        ) && forall|j: int|
                            0 <= j < k ==> 0 + #[trigger] mesh.indices@[j] < I::max_value();
                    assert(idx[k] == mesh.indices@[k]);
                    assert forall|j: int| 0 <= j < k implies idx[j] < I::max_value() by {
                        assert(0 + mesh.indices@[j] < I::max_value());
                    }
                }
                return Err(e);
            },
        };
        let vertices: Vec<V> = push_vertices(Vec::new(), mesh);
        proof {
            assert forall|k: int| 0 <= k < indices@.len() implies #[trigger] indices@[k].value()
                < vertices@.len() by {
                assert(indices@[0 + k].value() == 0 + mesh.indices@[k]);
            }
            assert forall|k: int| 0 <= k < idx.len() implies idx[k] < I::max_value() by {
                assert(0 + mesh.indices@[k] < I::max_value());
            }
            assert forall|k: int| 0 <= k < idx.len() implies #[trigger] indices@[k].value()
                == idx[k] by {
                assert(indices@[0 + k].value() == 0 + mesh.indices@[k]);
            }
            if <V as FromSpec<Vertex>>::obeys_from_spec() {
                assert forall|i: int| 0 <= i < verts.len() implies #[trigger] vertices@[i]
                    == <V as FromSpec<Vertex>>::from_spec(verts[i]) by {
                    assert(vertices@[0 + i] == <V as FromSpec<Vertex>>::from_spec(
                        vertex_at(*mesh, i),
                    ));
                }
            }
        }
        Ok(Model { mesh: TriangularMesh { vertices, indices } })
    }
}

/// A material.
pub struct Material<'a> {
    material: &'a MaterialData,
}

impl<'a> Material<'a> {
    /// What the parser found for this material.
    pub closed spec fn spec_material(&self) -> MaterialData {
        *self.material
    }

    /// Gets the name of the material.
    pub fn name(&self) -> (r: &str)
        ensures
            r@ == self.spec_material().name@,
    {
        self.material.name.as_str()
    }

    /// Gets the ambient color.
    pub fn ambient_color(&self) -> (r: Color)
        ensures
            r == self.spec_material().ambient,
    {
        self.material.ambient
    }

    /// Gets the diffuse color.
    pub fn diffuse_color(&self) -> (r: Color)
        ensures
            r == self.spec_material().diffuse,
    {
        self.material.diffuse
    }

    /// Gets the specular color.
    pub fn specular_color(&self) -> (r: Color)
        ensures
            r == self.spec_material().specular,
    {
        self.material.specular
    }

    /// Gets the shininess factor, as the bits of an `f32`.
    pub fn shininess(&self) -> (r: u32)
        ensures
            r == self.spec_material().shininess,
    {
        self.material.shininess
    }

    /// Gets the opacity factor, as the bits of an `f32`.
    pub fn alpha(&self) -> (r: u32)
        ensures
            r == self.spec_material().dissolve,
    {
        self.material.dissolve
    }

    /// Gets the optical density, as the bits of an `f32`.
    pub fn optical_density(&self) -> (r: u32)
        ensures
            r == self.spec_material().optical_density,
    {
        self.material.optical_density
    }

    /// Gets the ambient texture image file.
    pub fn ambient_texture(&self) -> (r: &str)
        ensures
            r@ == self.spec_material().ambient_texture@,
    {
        self.material.ambient_texture.as_str()
    }

    /// Gets the diffuse texture image file.
    pub fn diffuse_texture(&self) -> (r: &str)
        ensures
            r@ == self.spec_material().diffuse_texture@,
    {
        self.material.diffuse_texture.as_str()
    }

    /// Gets the specular texture image file.
    pub fn specular_texture(&self) -> (r: &str)
        ensures
            r@ == self.spec_material().specular_texture@,
    {
        self.material.specular_texture.as_str()
    }

    /// Gets the normal texture image file.
    pub fn normal_texture(&self) -> (r: &str)
        ensures
            r@ == self.spec_material().normal_texture@,
    {
        self.material.normal_texture.as_str()
    }

    /// Gets the dissolve texture image file.
    pub fn dissolve_texture(&self) -> (r: &str)
        ensures
            r@ == self.spec_material().dissolve_texture@,
    {
        self.material.dissolve_texture.as_str()
    }
}


impl From<Vertex> for Vector {
    fn from(v: Vertex) -> (r: Vector) {
        v.position
    }
}

impl vstd::std_specs::convert::FromSpecImpl<Vertex> for Vector {
    open spec fn obeys_from_spec() -> bool {
        true
    }

    open spec fn from_spec(v: Vertex) -> Vector {
        v.position
    }
}


impl Format for Wavefront {
    type Vertex = Vertex;

    open spec fn format_indices(&self) -> Seq<nat> {
        all_indices(self.spec_models())
    }

    open spec fn format_vertices(&self) -> Seq<Vertex> {
        all_vertices(self.spec_models())
    }

    fn build_model<V: crate::geometry::Vertex + From<Vertex>, I: Index>(self) -> (r: Result<
        Model<V, I>,
        Error,
    >) {
        BuildModel::build_model(self)
    }
}


/// The shifted indices of well-formed objects come in whole triangles and
/// each names one of their vertices.
pub proof fn lemma_all_indices_in_range(ms: Seq<ModelData>)
    requires
        forall|m: int| 0 <= m < ms.len() ==> mesh_ok(#[trigger] ms[m].mesh),
    ensures
        all_indices(ms).len() % 3 == 0,
        forall|k: int|
            0 <= k < all_indices(ms).len() ==> #[trigger] all_indices(ms)[k] < total_count(ms),
    decreases ms.len(),
{
    if ms.len() > 0 {
        let init = ms.drop_last();
        assert forall|m: int| 0 <= m < init.len() implies mesh_ok(#[trigger] init[m].mesh) by {
            assert(init[m] == ms[m]);
        }
        lemma_all_indices_in_range(init);
        assert(mesh_ok(ms[ms.len() - 1].mesh));
        let whole = all_indices(ms);
        let base = all_indices(init).len() as int;
        assert forall|k: int| 0 <= k < whole.len() implies #[trigger] whole[k] < total_count(ms) by {
            if k < base {
                assert(whole[k] == all_indices(init)[k]);
            } else {
                assert(ms.last().mesh.indices@[k - base] < vertex_count(ms.last().mesh));
            }
        }
    }
}


/// Order of optional attributes: an absent one comes first, present ones
/// go by the vector order.
pub open spec fn option_precedes(a: Option<Vector>, b: Option<Vector>) -> bool {
    match (a, b) {
        (None, Some(_)) => true,
        (Some(x), Some(y)) => vector_precedes(x, y),
        _ => false,
    }
}

/// Compares two optional attributes in the order of `option_precedes`.
fn compare_option(a: &Option<Vector>, b: &Option<Vector>) -> (r: Ordering)
    ensures
        (r == Ordering::Less) == option_precedes(*a, *b),
        (r == Ordering::Equal) == (*a == *b),
        (r == Ordering::Greater) == option_precedes(*b, *a),
{
    match (a, b) {
        (None, None) => Ordering::Equal,
        (None, Some(_)) => Ordering::Less,
        (Some(_), None) => Ordering::Greater,
        (Some(x), Some(y)) => <Vector as crate::geometry::Vertex>::compare(x, y),
    }
}

/// The optional-attribute order is a strict total order.
proof fn lemma_option_order(a: Option<Vector>, b: Option<Vector>, c: Option<Vector>)
    ensures
        !option_precedes(a, a),
        option_precedes(a, b) && option_precedes(b, c) ==> option_precedes(a, c),
        a == b || option_precedes(a, b) || option_precedes(b, a),
{
    if a is Some && b is Some && c is Some {
        <Vector as crate::geometry::Vertex>::lemma_total_order(a->Some_0, b->Some_0, c->Some_0);
    } else if a is Some && b is Some {
        <Vector as crate::geometry::Vertex>::lemma_total_order(a->Some_0, b->Some_0, a->Some_0);
    } else if a is Some {
        <Vector as crate::geometry::Vertex>::lemma_total_order(a->Some_0, a->Some_0, a->Some_0);
    }
}

/// A Wavefront vertex keeps all that the file gives; it is ordered by
/// position, then normal, then texture coordinates.
impl crate::geometry::Vertex for Vertex {
    open spec fn spec_position(&self) -> Vector {
        self.position
    }

    open spec fn precedes(&self, other: &Self) -> bool {
        vector_precedes(self.position, other.position) || (self.position == other.position && (
        option_precedes(self.normal, other.normal) || (self.normal == other.normal
            && option_precedes(self.texture_coords, other.texture_coords))))
    }

    proof fn lemma_total_order(a: Self, b: Self, c: Self) {
        <Vector as crate::geometry::Vertex>::lemma_total_order(a.position, b.position, c.position);
        <Vector as crate::geometry::Vertex>::lemma_total_order(a.position, a.position, a.position);
        lemma_option_order(a.normal, b.normal, c.normal);
        lemma_option_order(a.texture_coords, b.texture_coords, c.texture_coords);
    }

    fn position(&self) -> (r: Vector) {
        self.position
    }

    fn compare(&self, other: &Self) -> (r: Ordering) {
        proof {
            <Vector as crate::geometry::Vertex>::lemma_total_order(self.position, other.position, self.position);
            lemma_option_order(self.normal, other.normal, self.normal);
            lemma_option_order(self.texture_coords, other.texture_coords, self.texture_coords);
        }
        match <Vector as crate::geometry::Vertex>::compare(&self.position, &other.position) {
            Ordering::Equal => match compare_option(&self.normal, &other.normal) {
                Ordering::Equal => compare_option(&self.texture_coords, &other.texture_coords),
                o => o,
            },
            o => o,
        }
    }

    fn duplicate(&self) -> (r: Self) {
        *self
    }
}


/// A scene of one object has that object's indices and vertices, so it
/// builds the same model as the object does.
pub proof fn lemma_single_object(ms: Seq<ModelData>)
    requires
        ms.len() == 1,
    ensures
        all_indices(ms) == ms[0].mesh.indices@.map_values(|i: u32| i as nat),
        all_vertices(ms) == mesh_vertices(ms[0].mesh),
{
    let init = ms.drop_last();
    assert(init.len() == 0);
    assert(total_count(init) == 0);
    assert(all_indices(init) =~= Seq::<nat>::empty());
    assert(all_vertices(init) =~= Seq::<Vertex>::empty());
    assert(all_indices(ms) =~= ms[0].mesh.indices@.map_values(|i: u32| i as nat));
    assert(all_vertices(ms) =~= mesh_vertices(ms[0].mesh));
}

} // verus!
