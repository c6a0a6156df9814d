//! Procedural meshes.
use vstd::prelude::*;
use crate::geometry::{Vector, Vertex};
use crate::index::Index;
use crate::model::TriangularMesh;
use vstd::std_specs::convert::FromSpec;

verus! {

/// The bits of the `f32` value one.
pub const ONE: u32 = 0x3F80_0000;

/// The sign bit of an `f32`.
const SIGN: u32 = 0x8000_0000;

/// The negation of an `f32` given by its bits: the sign bit flipped.
pub open spec fn negated(x: u32) -> u32 {
    x ^ 0x8000_0000u32
}

/// The corners of a cube whose coordinates are `s` and its negation.
pub open spec fn cube_corners(s: u32) -> Seq<Vector> {
    let n = negated(s);
    seq![
        Vector(s, n, n),
        Vector(s, n, s),
        Vector(n, n, s),
        Vector(n, n, n),
        Vector(s, s, n),
        Vector(s, s, s),
        Vector(n, s, s),
        Vector(n, s, n),
    ]
}

/// The index list of a cube: two triangles per face, over `cube_corners`.
pub open spec fn cube_indices() -> Seq<nat> {
    seq![
        1, 3, 0, 7, 5, 4, 4, 1, 0, 5, 2, 1, 2, 7, 3, 0, 7, 4,
        1, 2, 3, 7, 6, 5, 4, 5, 1, 5, 6, 2, 2, 6, 7, 0, 3, 7,
    ]
}

/// An index below 255, which every index type holds.
fn small_index<I: Index>(v: u64) -> (r: I)
    requires
        v < 255,
    ensures
        r.value() == v,
{
    proof {
        I::lemma_bounds();
    }
    match I::from_u64(v) {
        Ok(i) => i,
        Err(_) => unreached(),
    }
}

/// Creates a cube with a side length of one; for plain vectors,
/// `vector_cube(ONE)` gives the same mesh with its corners stated.
pub fn unit_cube<V: Vertex + From<Vector>, I: Index>() -> (r: TriangularMesh<V, I>)
    ensures
        r.well_formed(),
        r.vertices@.len() == 8,
        r.indices@.len() == 36,
        forall|k: int| 0 <= k < 36 ==> #[trigger] r.index_at(k) == cube_indices()[k],
        <V as FromSpec<Vector>>::obeys_from_spec() ==> forall|i: int|
            0 <= i < 8 ==> #[trigger] r.vertices@[i] == <V as FromSpec<Vector>>::from_spec(
                cube_corners(ONE)[i],
            ),
{
    cube(ONE)
}

/// The index list of a cube, converted into `I`.
fn cube_index_list<I: Index>() -> (r: Vec<I>)
    ensures
        r@.len() == 36,
        forall|k: int| 0 <= k < 36 ==> #[trigger] r@[k].value() == cube_indices()[k],
        forall|k: int| 0 <= k < 36 ==> #[trigger] r@[k].value() < 8,
{
    let table: [u64; 36] = [
        1, 3, 0, 7, 5, 4, 4, 1, 0, 5, 2, 1, 2, 7, 3, 0, 7, 4,
        1, 2, 3, 7, 6, 5, 4, 5, 1, 5, 6, 2, 2, 6, 7, 0, 3, 7,
    ];
    assert(table@.map_values(|v: u64| v as nat) =~= cube_indices());
    let mut indices: Vec<I> = Vec::new();
    let mut k: usize = 0;
    while k < 36
        invariant
            k <= 36,
            table@.map_values(|v: u64| v as nat) == cube_indices(),
            indices@.len() == k,
            forall|j: int| 0 <= j < k ==> #[trigger] indices@[j].value() == cube_indices()[j],
            forall|j: int| 0 <= j < k ==> #[trigger] indices@[j].value() < 8,
        decreases 36 - k,
    {
        assert(table@[k as int] as nat == cube_indices()[k as int]);
        assert(cube_indices()[k as int] < 8);
        indices.push(small_index(table[k]));
        k = k + 1;
    }
    indices
}

/// The corners of a cube whose coordinates are `scale` and its negation.
fn corners(scale: u32) -> (r: [Vector; 8])
    ensures
        r@ == cube_corners(scale),
{
    let s = scale;
    let n = scale ^ SIGN;
    let r: [Vector; 8] = [
        Vector(s, n, n),
        Vector(s, n, s),
        Vector(n, n, s),
        Vector(n, n, n),
        Vector(s, s, n),
        Vector(s, s, s),
        Vector(n, s, s),
        Vector(n, s, n),
    ];
    assert(r@ =~= cube_corners(scale));
    r
}

/// Creates a cube of plain vectors whose corners have coordinates `scale`
/// and `-scale`, given by the bits of an `f32`.
pub fn vector_cube<I: Index>(scale: u32) -> (r: TriangularMesh<Vector, I>)
    ensures
        r.well_formed(),
        r.vertices@ == cube_corners(scale),
        r.indices@.len() == 36,
        forall|k: int| 0 <= k < 36 ==> #[trigger] r.index_at(k) == cube_indices()[k],
{
    let c = corners(scale);
    let mut vertices: Vec<Vector> = Vec::new();
    let mut i: usize = 0;
    while i < 8
        invariant
            i <= 8,
            c@ == cube_corners(scale),
            vertices@ == cube_corners(scale).take(i as int),
        decreases 8 - i,
    {
        vertices.push(c[i]);
        assert(vertices@ =~= cube_corners(scale).take(i + 1));
        i = i + 1;
    }
    assert(vertices@ =~= cube_corners(scale));
    let indices = cube_index_list();
    TriangularMesh { vertices, indices }
}

/// Creates a cube whose corners have coordinates `scale` and `-scale`,
/// given by the bits of an `f32`, each corner converted into `V`.
pub fn cube<V: Vertex + From<Vector>, I: Index>(scale: u32) -> (r: TriangularMesh<V, I>)
    ensures
        r.well_formed(),
        r.vertices@.len() == 8,
        r.indices@.len() == 36,
        forall|k: int| 0 <= k < 36 ==> #[trigger] r.index_at(k) == cube_indices()[k],
        <V as FromSpec<Vector>>::obeys_from_spec() ==> forall|i: int|
            0 <= i < 8 ==> #[trigger] r.vertices@[i] == <V as FromSpec<Vector>>::from_spec(
                cube_corners(scale)[i],
            ),
{
    let c = corners(scale);
    let mut vertices: Vec<V> = Vec::new();
    let mut i: usize = 0;
    while i < 8
        invariant
            i <= 8,
            c@ == cube_corners(scale),
            vertices@.len() == i,
            <V as FromSpec<Vector>>::obeys_from_spec() ==> forall|j: int|
                0 <= j < i ==> #[trigger] vertices@[j] == <V as FromSpec<Vector>>::from_spec(
                    cube_corners(scale)[j],
                ),
        decreases 8 - i,
    {
        vertices.push(V::from(c[i]));
        i = i + 1;
    }
    let indices = cube_index_list();
    TriangularMesh { vertices, indices }
}

} // verus!
