//! Format-independent mesh representation.
use vstd::prelude::*;
use core::cmp::Ordering;
use crate::errors::Error;
use crate::geometry::{Triangle, Vertex};
use crate::index::Index;
use vstd::std_specs::convert::FromSpec;

verus! {

/// A 3D model.
#[derive(Clone, Debug, PartialEq, Eq)]
pub struct Model<V, I> {
    /// The mesh that makes up the model.
    pub mesh: TriangularMesh<V, I>,
}

/// A triangular mesh.
#[derive(Clone, Debug, PartialEq, Eq)]
pub struct TriangularMesh<V, I> {
    /// The vertex list.
    pub vertices: Vec<V>,
    /// The index list; each run of three indices is one triangle.
    pub indices: Vec<I>,
}

/// Each element comes strictly before every later one.
pub open spec fn strictly_sorted<V: Vertex>(s: Seq<V>) -> bool {
    forall|i: int, j: int| 0 <= i < j < s.len() ==> #[trigger] s[i].precedes(&s[j])
}

/// `s` holds each vertex of `flat` exactly once, in ascending order.
pub open spec fn is_merge_of<V: Vertex>(s: Seq<V>, flat: Seq<V>) -> bool {
    &&& strictly_sorted(s)
    &&& forall|x: V| s.contains(x) <==> flat.contains(x)
}

/// `s` with `x` put in its place in the order, unless it is there already.
pub open spec fn insert_in_order<V: Vertex>(s: Seq<V>, x: V) -> Seq<V>
    decreases s.len(),
{
    if s.len() == 0 {
        seq![x]
    } else if s[0] == x {
        s
    } else if s[0].precedes(&x) {
        seq![s[0]] + insert_in_order(s.drop_first(), x)
    } else {
        seq![x] + s
    }
}

/// The distinct vertices of `flat` in ascending order.
pub open spec fn merged<V: Vertex>(flat: Seq<V>) -> Seq<V>
    decreases flat.len(),
{
    if flat.len() == 0 {
        Seq::empty()
    } else {
        insert_in_order(merged(flat.drop_last()), flat.last())
    }
}

/// The vertices of a sequence of triangles, one after another.
pub open spec fn flatten<V>(ts: Seq<Seq<V>>) -> Seq<V> {
    Seq::new((3 * ts.len()) as nat, |k: int| ts[k / 3][k % 3])
}

/// The vertex sequences of some triangles.
pub open spec fn triangle_views<V>(ts: Seq<Triangle<V>>) -> Seq<Seq<V>> {
    ts.map_values(|t: Triangle<V>| t.vertices@)
}

/// The vertices of a sequence of triangles, one after another.
pub open spec fn flat_vertices<V>(ts: Seq<Triangle<V>>) -> Seq<V> {
    flatten(triangle_views(ts))
}

impl<V: Vertex, I: Index> TriangularMesh<V, I> {
    /// The `k`-th entry of the index list, as a number.
    pub open spec fn index_at(&self, k: int) -> int {
        self.indices@[k].value() as int
    }

    /// Indices come in whole triangles and each one names a vertex.
    pub open spec fn well_formed(&self) -> bool {
        &&& self.indices@.len() % 3 == 0
        &&& forall|k: int|
            0 <= k < self.indices@.len() ==> #[trigger] self.index_at(k) < self.vertices@.len()
    }

    /// The vertices of the `k`-th triangle.
    pub open spec fn triangle_at(&self, k: int) -> Seq<V> {
        Seq::new(3, |j: int| self.vertices@[self.index_at(3 * k + j)])
    }

    /// The triangles of the mesh, in the order of the index list.
    pub open spec fn spec_triangles(&self) -> Seq<Seq<V>> {
        Seq::new(self.indices@.len() / 3, |k: int| self.triangle_at(k))
    }

    /// The mesh holds the distinct vertices of `flat` in ascending order, and
    /// its index list names the vertices of `flat` one by one.
    pub open spec fn merges(&self, flat: Seq<V>) -> bool {
        &&& is_merge_of(self.vertices@, flat)
        &&& self.indices@.len() == flat.len()
        &&& forall|k: int|
            0 <= k < flat.len() ==> #[trigger] self.index_at(k) < self.vertices@.len()
                && self.vertices@[self.index_at(k)] == flat[k]
    }

    /// Creates an empty triangular mesh.
    pub fn empty() -> (r: Self)
        ensures
            r.vertices@.len() == 0,
            r.indices@.len() == 0,
            r.well_formed(),
    {
        TriangularMesh { vertices: Vec::new(), indices: Vec::new() }
    }

    /// Gets all of the triangles in a mesh.
    pub fn triangles(&self) -> (r: Triangles<'_, V, I>)
        requires
            self.well_formed(),
        ensures
            r.well_formed(),
            r.remaining() == self.spec_triangles(),
            r.remaining().len() == self.indices@.len() / 3,
    {
        Triangles { mesh: self, next: 0 }
    }
}


/// The position in the vertex list that an index names.
fn offset<I: Index>(i: I, len: usize) -> (r: usize)
    requires
        i.value() < len,
    ensures
        r == i.value(),
{
    let v: u64 = i.to_u64();
    v as usize
}

/// All of the triangles in a mesh, handed out one at a time.
pub struct Triangles<'a, V, I> {
    mesh: &'a TriangularMesh<V, I>,
    next: usize,
}

impl<'a, V: Vertex, I: Index> Triangles<'a, V, I> {
    /// The mesh is well formed and the cursor stands at a triangle boundary.
    pub closed spec fn well_formed(&self) -> bool {
        &&& self.mesh.well_formed()
        &&& self.next % 3 == 0
        &&& self.next <= self.mesh.indices@.len()
    }

    /// The triangles not handed out yet.
    pub closed spec fn remaining(&self) -> Seq<Seq<V>> {
        self.mesh.spec_triangles().skip(self.next as int / 3)
    }

    /// Hands out the next triangle, or `None` when all have been handed out.
    pub fn next(&mut self) -> (r: Option<Triangle<V>>)
        requires
            old(self).well_formed(),
        ensures
            final(self).well_formed(),
            old(self).remaining().len() == 0 ==> r is None && final(self).remaining()
                == old(self).remaining(),
            old(self).remaining().len() > 0 ==> r is Some && r->Some_0.vertices@
                == old(self).remaining()[0] && final(self).remaining()
                == old(self).remaining().drop_first(),
    {
        let ghost all = self.mesh.spec_triangles();
        if self.next < self.mesh.indices.len() {
            let k = self.next;
            assert(self.mesh.index_at(k as int) < self.mesh.vertices@.len());
            assert(self.mesh.index_at(k + 1) < self.mesh.vertices@.len());
            assert(self.mesh.index_at(k + 2) < self.mesh.vertices@.len());
            let i1 = offset(self.mesh.indices[k], self.mesh.vertices.len());
            let i2 = offset(self.mesh.indices[k + 1], self.mesh.vertices.len());
            let i3 = offset(self.mesh.indices[k + 2], self.mesh.vertices.len());
            let a = self.mesh.vertices[i1].duplicate();
            let b = self.mesh.vertices[i2].duplicate();
            let c = self.mesh.vertices[i3].duplicate();
            self.next = k + 3;
            let t = Triangle { vertices: [a, b, c] };
            proof {
                let n = k as int / 3;
                assert(3 * n == k);
                assert(all[n] == self.mesh.triangle_at(n));
                assert(t.vertices@[0] == all[n][0]);
                assert(t.vertices@[1] == all[n][1]);
                assert(t.vertices@[2] == all[n][2]);
                assert(t.vertices@ =~= all[n]);
                assert(self.remaining() =~= all.skip(n).drop_first());
            }
            Some(t)
        } else {
            None
        }
    }

    /// The number of triangles not handed out yet.
    pub fn count(self) -> (r: usize)
        requires
            self.well_formed(),
        ensures
            r == self.remaining().len(),
    {
        (self.mesh.indices.len() - self.next) / 3
    }

    /// The triangles not handed out yet, in order.
    pub fn collect(self) -> (r: Vec<Triangle<V>>)
        requires
            self.well_formed(),
        ensures
            triangle_views(r@) == self.remaining(),
    {
        let ghost start = self.remaining();
        let mut it = Triangles { mesh: self.mesh, next: self.next };
        let mut out: Vec<Triangle<V>> = Vec::new();
        loop
            invariant
                it.well_formed(),
                start == self.remaining(),
                start == triangle_views(out@) + it.remaining(),
            decreases it.remaining().len(),
        {
            let ghost before = it.remaining();
            match it.next() {
                Some(t) => {
                    let ghost prev = out@;
                    let ghost tv = t.vertices@;
                    out.push(t);
                    proof {
                        assert(triangle_views(out@) =~= triangle_views(prev).push(tv));
                        assert(before =~= seq![tv] + it.remaining());
                        assert(start =~= triangle_views(out@) + it.remaining());
                    }
                },
                None => {
                    assert(start =~= triangle_views(out@));
                    return out;
                },
            }
        }
    }
}


/// Looks `v` up in a strictly ascending list: `Ok` with its position, or
/// `Err` with the position where it would go.
fn search<V: Vertex>(s: &Vec<V>, v: &V) -> (r: Result<usize, usize>)
    requires
        strictly_sorted(s@),
    ensures
        r is Ok ==> r->Ok_0 < s@.len() && s@[r->Ok_0 as int] == *v,
        r is Err ==> r->Err_0 <= s@.len() && (forall|i: int|
            0 <= i < r->Err_0 ==> #[trigger] s@[i].precedes(v)) && (forall|i: int|
            r->Err_0 <= i < s@.len() ==> v.precedes(#[trigger] &s@[i])),
{
    let mut lo: usize = 0;
    let mut hi: usize = s.len();
    while lo < hi
        invariant
            strictly_sorted(s@),
            lo <= hi <= s@.len(),
            forall|i: int| 0 <= i < lo ==> #[trigger] s@[i].precedes(v),
            forall|i: int| hi <= i < s@.len() ==> v.precedes(#[trigger] &s@[i]),
        decreases hi - lo,
    {
        let mid = lo + (hi - lo) / 2;
        match s[mid].compare(v) {
            Ordering::Less => {
                assert forall|i: int| 0 <= i < mid + 1 implies #[trigger] s@[i].precedes(v) by {
                    V::lemma_total_order(s@[i], s@[mid as int], *v);
                    if i < mid {
                        assert(s@[i].precedes(&s@[mid as int]));
                    }
                }
                lo = mid + 1;
            },
            Ordering::Greater => {
                assert forall|i: int| mid <= i < s@.len() implies v.precedes(
                    #[trigger] &s@[i],
                ) by {
                    V::lemma_total_order(*v, s@[mid as int], s@[i]);
                    if i > mid {
                        assert(s@[mid as int].precedes(&s@[i]));
                    }
                }
                hi = mid;
            },
            Ordering::Equal => {
                return Ok(mid);
            },
        }
    }
    Err(lo)
}

/// No element comes strictly before an earlier one.
pub open spec fn sorted<V: Vertex>(s: Seq<V>) -> bool {
    forall|i: int, j: int| 0 <= i < j < s.len() ==> !(#[trigger] s[j].precedes(&s[i]))
}

/// `x` stands in `s` at some position in `lo .. hi`.
pub open spec fn in_range<V>(s: Seq<V>, lo: int, hi: int, x: V) -> bool {
    exists|k: int| lo <= k < hi && #[trigger] s[k] == x
}

/// Merges two ascending lists into one.
fn merge<V: Vertex>(a: Vec<V>, b: Vec<V>) -> (r: Vec<V>)
    requires
        sorted(a@),
        sorted(b@),
    ensures
        sorted(r@),
        forall|x: V| r@.contains(x) <==> (a@.contains(x) || b@.contains(x)),
{
    let mut r: Vec<V> = Vec::new();
    let mut i: usize = 0;
    let mut j: usize = 0;
    while i < a.len() || j < b.len()
        invariant
            sorted(a@),
            sorted(b@),
            i <= a@.len(),
            j <= b@.len(),
            sorted(r@),
            forall|x: V| r@.contains(x) <==> (in_range(a@, 0, i as int, x) || in_range(b@, 0, j as int, x)),
            forall|k: int, p: int|
                0 <= k < r@.len() && i <= p < a@.len() ==> !(#[trigger] a@[p].precedes(&r@[k])),
            forall|k: int, q: int|
                0 <= k < r@.len() && j <= q < b@.len() ==> !(#[trigger] b@[q].precedes(&r@[k])),
        decreases a@.len() + b@.len() - i - j,
    {
        let take_a = if i == a.len() {
            false
        } else if j == b.len() {
            true
        } else {
            match b[j].compare(&a[i]) {
                Ordering::Less => false,
                _ => true,
            }
        };
        let ghost prev = r@;
        if take_a {
            let x = a[i].duplicate();
            r.push(x);
            proof {
                assert forall|q: int| j <= q < b@.len() implies !(#[trigger] b@[q].precedes(&x)) by {
                    V::lemma_total_order(b@[j as int], b@[q], x);
                    V::lemma_total_order(b@[q], b@[j as int], x);
                    if q > j {
                        assert(!b@[q].precedes(&b@[j as int]));
                    }
                }
                assert forall|p: int| i + 1 <= p < a@.len() implies !(#[trigger] a@[p].precedes(&x)) by {
                    assert(!a@[p].precedes(&a@[i as int]));
                }
                assert forall|y: V| r@.contains(y) <==> (in_range(a@, 0, i + 1, y) || in_range(b@, 0, j as int, y)) by {
                    if r@.contains(y) {
                        let k = choose|k: int| 0 <= k < r@.len() && r@[k] == y;
                        if k < prev.len() {
                            assert(prev.contains(y));
                        } else {
                            assert(a@[i as int] == y);
                        }
                    }
                    if in_range(a@, 0, i + 1, y) {
                        let k = choose|k: int| 0 <= k < i + 1 && a@[k] == y;
                        if k < i {
                            assert(in_range(a@, 0, i as int, y));
                            assert(prev.contains(y));
                            let m = choose|m: int| 0 <= m < prev.len() && prev[m] == y;
                            assert(r@[m] == y);
                        } else {
                            assert(r@[prev.len() as int] == y);
                        }
                    }
                    if in_range(b@, 0, j as int, y) {
                        assert(prev.contains(y));
                        let m = choose|m: int| 0 <= m < prev.len() && prev[m] == y;
                        assert(r@[m] == y);
                    }
                }
            }
            i = i + 1;
        } else {
            let x = b[j].duplicate();
            r.push(x);
            proof {
                assert forall|p: int| i <= p < a@.len() implies !(#[trigger] a@[p].precedes(&x)) by {
                    V::lemma_total_order(a@[p], x, a@[i as int]);
                    V::lemma_total_order(a@[p], a@[i as int], x);
                    if p > i {
                        assert(!a@[p].precedes(&a@[i as int]));
                    }
                }
                assert forall|q: int| j + 1 <= q < b@.len() implies !(#[trigger] b@[q].precedes(&x)) by {
                    assert(!b@[q].precedes(&b@[j as int]));
                }
                assert forall|y: V| r@.contains(y) <==> (in_range(a@, 0, i as int, y) || in_range(b@, 0, j + 1, y)) by {
                    if r@.contains(y) {
                        let k = choose|k: int| 0 <= k < r@.len() && r@[k] == y;
                        if k < prev.len() {
                            assert(prev.contains(y));
                        } else {
                            assert(b@[j as int] == y);
                        }
                    }
                    if in_range(b@, 0, j + 1, y) {
                        let k = choose|k: int| 0 <= k < j + 1 && b@[k] == y;
                        if k < j {
                            assert(in_range(b@, 0, j as int, y));
                            assert(prev.contains(y));
                            let m = choose|m: int| 0 <= m < prev.len() && prev[m] == y;
                            assert(r@[m] == y);
                        } else {
                            assert(r@[prev.len() as int] == y);
                        }
                    }
                    if in_range(a@, 0, i as int, y) {
                        assert(prev.contains(y));
                        let m = choose|m: int| 0 <= m < prev.len() && prev[m] == y;
                        assert(r@[m] == y);
                    }
                }
            }
            j = j + 1;
        }
    }
    assert forall|x: V| r@.contains(x) <==> (a@.contains(x) || b@.contains(x)) by {
        if a@.contains(x) {
            let k = choose|k: int| 0 <= k < a@.len() && a@[k] == x;
            assert(in_range(a@, 0, i as int, x));
        }
        if b@.contains(x) {
            let k = choose|k: int| 0 <= k < b@.len() && b@[k] == x;
            assert(in_range(b@, 0, j as int, x));
        }
    }
    r
}

/// Two strictly ascending lists with the same elements are equal.
pub proof fn lemma_sorted_unique<V: Vertex>(a: Seq<V>, b: Seq<V>)
    requires
        strictly_sorted(a),
        strictly_sorted(b),
        forall|x: V| a.contains(x) <==> b.contains(x),
    ensures
        a == b,
    decreases a.len(),
{
    if a.len() == 0 {
        if b.len() > 0 {
            assert(b.contains(b[0]));
        }
        assert(a =~= b);
    } else {
        assert(a.contains(a[0]));
        let j = choose|j: int| 0 <= j < b.len() && b[j] == a[0];
        assert(b.contains(b[0]));
        let i = choose|i: int| 0 <= i < a.len() && a[i] == b[0];
        V::lemma_total_order(a[0], b[0], a[0]);
        if i > 0 {
            assert(a[0].precedes(&a[i]));
        }
        if j > 0 {
            assert(b[0].precedes(&b[j]));
        }
        assert(a[0] == b[0]);
        let (ta, tb) = (a.drop_first(), b.drop_first());
        assert forall|x: V| ta.contains(x) <==> tb.contains(x) by {
            if ta.contains(x) {
                let k = choose|k: int| 0 <= k < ta.len() && ta[k] == x;
                assert(a[0].precedes(&a[k + 1]));
                V::lemma_total_order(a[0], a[0], a[0]);
                assert(a.contains(x));
                let m = choose|m: int| 0 <= m < b.len() && b[m] == x;
                if m == 0 {
                    assert(false);
                }
                assert(tb[m - 1] == x);
            }
            if tb.contains(x) {
                let k = choose|k: int| 0 <= k < tb.len() && tb[k] == x;
                assert(b[0].precedes(&b[k + 1]));
                V::lemma_total_order(b[0], b[0], b[0]);
                assert(b.contains(x));
                let m = choose|m: int| 0 <= m < a.len() && a[m] == x;
                if m == 0 {
                    assert(false);
                }
                assert(ta[m - 1] == x);
            }
        }
        assert forall|i: int, j: int| 0 <= i < j < ta.len() implies #[trigger] ta[i].precedes(
            &ta[j],
        ) by {
            assert(a[i + 1].precedes(&a[j + 1]));
        }
        assert forall|i: int, j: int| 0 <= i < j < tb.len() implies #[trigger] tb[i].precedes(
            &tb[j],
        ) by {
            assert(b[i + 1].precedes(&b[j + 1]));
        }
        lemma_sorted_unique(ta, tb);
        assert(a =~= seq![a[0]] + ta);
        assert(b =~= seq![b[0]] + tb);
    }
}

/// A strictly ascending list holds no element twice.
pub proof fn lemma_sorted_no_duplicates<V: Vertex>(s: Seq<V>)
    requires
        strictly_sorted(s),
    ensures
        s.no_duplicates(),
{
    assert forall|i: int, j: int| 0 <= i < s.len() && 0 <= j < s.len() && i != j implies s[i]
        != s[j] by {
        V::lemma_total_order(s[i], s[j], s[i]);
        if i < j {
            assert(s[i].precedes(&s[j]));
        } else {
            assert(s[j].precedes(&s[i]));
        }
    }
}


/// `flat_vertices` at a position, read from the triangles.
proof fn lemma_flat_at<V>(ts: Seq<Triangle<V>>, k: int)
    requires
        0 <= k < 3 * ts.len(),
    ensures
        flat_vertices(ts).len() == 3 * ts.len(),
        flat_vertices(ts)[k] == ts[k / 3].vertices@[k % 3],
{
}

/// A sorted copy of the elements of `s` at positions `lo .. hi`.
fn sort_range<V: Vertex>(s: &Vec<V>, lo: usize, hi: usize) -> (r: Vec<V>)
    requires
        lo <= hi <= s@.len(),
    ensures
        sorted(r@),
        forall|x: V| r@.contains(x) <==> in_range(s@, lo as int, hi as int, x),
    decreases hi - lo,
{
    if hi - lo <= 1 {
        let mut r: Vec<V> = Vec::new();
        if hi - lo == 1 {
            r.push(s[lo].duplicate());
            assert forall|x: V| r@.contains(x) <==> in_range(s@, lo as int, hi as int, x) by {
                if r@.contains(x) {
                    assert(r@[0] == x);
                    assert(s@[lo as int] == x);
                }
                if in_range(s@, lo as int, hi as int, x) {
                    assert(r@[0] == x);
                }
            }
        } else {
            assert forall|x: V| r@.contains(x) <==> in_range(s@, lo as int, hi as int, x) by {}
        }
        return r;
    }
    let mid = lo + (hi - lo) / 2;
    let a = sort_range(s, lo, mid);
    let b = sort_range(s, mid, hi);
    let r = merge(a, b);
    assert forall|x: V| r@.contains(x) <==> in_range(s@, lo as int, hi as int, x) by {
        if in_range(s@, lo as int, hi as int, x) {
            let k = choose|k: int| lo <= k < hi && s@[k] == x;
            if k < mid {
                assert(in_range(s@, lo as int, mid as int, x));
            } else {
                assert(in_range(s@, mid as int, hi as int, x));
            }
        }
    }
    r
}

/// Drops the repeats from a sorted list, which stand side by side.
fn dedup_sorted<V: Vertex>(s: &Vec<V>) -> (r: Vec<V>)
    requires
        sorted(s@),
    ensures
        strictly_sorted(r@),
        forall|x: V| r@.contains(x) <==> s@.contains(x),
{
    let mut r: Vec<V> = Vec::new();
    let mut k: usize = 0;
    while k < s.len()
        invariant
            sorted(s@),
            k <= s@.len(),
            strictly_sorted(r@),
            r@.len() <= k,
            k > 0 ==> r@.len() > 0 && r@.last() == s@[k - 1],
            forall|x: V| r@.contains(x) <==> in_range(s@, 0, k as int, x),
        decreases s@.len() - k,
    {
        let ghost prev = r@;
        let fresh = if r.len() == 0 {
            true
        } else {
            match r[r.len() - 1].compare(&s[k]) {
                Ordering::Equal => false,
                _ => true,
            }
        };
        if fresh {
            let x = s[k].duplicate();
            r.push(x);
            proof {
                if prev.len() > 0 {
                    let last = prev.last();
                    assert(s@[k as int] == x);
                    assert(!s@[k as int].precedes(&s@[k - 1]));
                    V::lemma_total_order(last, x, last);
                    assert(last.precedes(&x));
                    assert forall|i: int, j: int| 0 <= i < j < r@.len() implies #[trigger] r@[i].precedes(
                        &r@[j],
                    ) by {
                        if j == prev.len() && i < prev.len() - 1 {
                            assert(prev[i].precedes(&last));
                            V::lemma_total_order(prev[i], last, x);
                        }
                    }
                }
                assert forall|y: V| r@.contains(y) <==> in_range(s@, 0, k + 1, y) by {
                    if r@.contains(y) {
                        let m = choose|m: int| 0 <= m < r@.len() && r@[m] == y;
                        if m < prev.len() {
                            assert(prev.contains(y));
                        } else {
                            assert(s@[k as int] == y);
                        }
                    }
                    if in_range(s@, 0, k + 1, y) {
                        let m = choose|m: int| 0 <= m < k + 1 && s@[m] == y;
                        if m < k {
                            assert(in_range(s@, 0, k as int, y));
                            assert(prev.contains(y));
                            let n = choose|n: int| 0 <= n < prev.len() && prev[n] == y;
                            assert(r@[n] == y);
                        } else {
                            assert(r@[prev.len() as int] == y);
                        }
                    }
                }
            }
        } else {
            proof {
                assert forall|y: V| r@.contains(y) <==> in_range(s@, 0, k + 1, y) by {
                    if in_range(s@, 0, k + 1, y) {
                        let m = choose|m: int| 0 <= m < k + 1 && s@[m] == y;
                        if m == k {
                            assert(r@[r@.len() - 1] == y);
                        } else {
                            assert(in_range(s@, 0, k as int, y));
                        }
                    }
                }
            }
        }
        k = k + 1;
    }
    assert forall|x: V| r@.contains(x) <==> s@.contains(x) by {
        if s@.contains(x) {
            let m = choose|m: int| 0 <= m < s@.len() && s@[m] == x;
            assert(in_range(s@, 0, k as int, x));
        }
    }
    r
}

/// The distinct vertices of some triangles, in ascending order: all of
/// them are gathered, sorted, and rid of repeats.
fn merge_vertices<V: Vertex>(triangles: &Vec<Triangle<V>>) -> (r: Vec<V>)
    requires
        triangles@.len() <= usize::MAX / 3,
    ensures
        is_merge_of(r@, flat_vertices(triangles@)),
{
    let ghost flat = flat_vertices(triangles@);
    let n = triangles.len() * 3;
    let mut all: Vec<V> = Vec::new();
    let mut k: usize = 0;
    while k < n
        invariant
            n == flat.len(),
            n == 3 * triangles@.len(),
            k <= n,
            flat == flat_vertices(triangles@),
            all@ == flat.take(k as int),
        decreases n - k,
    {
        proof {
            lemma_flat_at(triangles@, k as int);
        }
        all.push(triangles[k / 3].vertices[k % 3].duplicate());
        assert(all@ =~= flat.take(k + 1));
        k = k + 1;
    }
    assert(all@ =~= flat);
    let ordered = sort_range(&all, 0, n);
    let verts = dedup_sorted(&ordered);
    assert forall|x: V| verts@.contains(x) <==> flat.contains(x) by {
        if flat.contains(x) {
            let m = choose|m: int| 0 <= m < flat.len() && flat[m] == x;
            assert(in_range(all@, 0, n as int, x));
        }
        if in_range(all@, 0, n as int, x) {
            let m = choose|m: int| 0 <= m < n && all@[m] == x;
            assert(flat.contains(x));
        }
    }
    verts
}

/// Putting `x` in its place keeps a list strictly ascending and adds `x`.
proof fn lemma_insert_in_order<V: Vertex>(s: Seq<V>, x: V)
    requires
        strictly_sorted(s),
    ensures
        strictly_sorted(insert_in_order(s, x)),
        forall|y: V|
            #![trigger insert_in_order(s, x).contains(y)]
            insert_in_order(s, x).contains(y) <==> (s.contains(y) || y == x),
    decreases s.len(),
{
    let r = insert_in_order(s, x);
    if s.len() == 0 {
        assert forall|y: V| r.contains(y) <==> (s.contains(y) || y == x) by {
            if y == x {
                assert(r[0] == y);
            }
        }
    } else if s[0] == x {
        assert forall|y: V| r.contains(y) <==> (s.contains(y) || y == x) by {
            if y == x {
                assert(s[0] == y);
            }
        }
    } else if s[0].precedes(&x) {
        let tail = s.drop_first();
        assert forall|i: int, j: int| 0 <= i < j < tail.len() implies #[trigger] tail[i].precedes(
            &tail[j],
        ) by {
            assert(s[i + 1].precedes(&s[j + 1]));
        }
        lemma_insert_in_order(tail, x);
        let t = insert_in_order(tail, x);
        assert(r == seq![s[0]] + t);
        assert forall|i: int, j: int| 0 <= i < j < r.len() implies #[trigger] r[i].precedes(
            &r[j],
        ) by {
            if i == 0 {
                assert(r[j] == t[j - 1]);
                assert(t.contains(r[j]));
                if r[j] != x {
                    assert(tail.contains(r[j]));
                    let m = choose|m: int| 0 <= m < tail.len() && tail[m] == r[j];
                    assert(tail[m] == s[m + 1]);
                    assert(s[0].precedes(&s[m + 1]));
                }
                assert(r[0] == s[0]);
            } else {
                assert(r[i] == t[i - 1] && r[j] == t[j - 1]);
            }
        }
        assert forall|y: V| r.contains(y) <==> (s.contains(y) || y == x) by {
            if r.contains(y) {
                let m = choose|m: int| 0 <= m < r.len() && r[m] == y;
                if m == 0 {
                    assert(s[0] == y);
                } else {
                    assert(t[m - 1] == y);
                    assert(t.contains(y));
                    if y != x {
                        assert(tail.contains(y));
                        let q = choose|q: int| 0 <= q < tail.len() && tail[q] == y;
                        assert(s[q + 1] == y);
                    }
                }
            }
            if s.contains(y) {
                let m = choose|m: int| 0 <= m < s.len() && s[m] == y;
                if m == 0 {
                    assert(r[0] == y);
                } else {
                    assert(tail[m - 1] == y);
                    assert(tail.contains(y));
                    assert(t.contains(y));
                    let q = choose|q: int| 0 <= q < t.len() && t[q] == y;
                    assert(r[q + 1] == y);
                }
            }
            if y == x {
                assert(t.contains(y));
                let q = choose|q: int| 0 <= q < t.len() && t[q] == y;
                assert(r[q + 1] == y);
            }
        }
    } else {
        V::lemma_total_order(s[0], x, s[0]);
        assert(r == seq![x] + s);
        assert forall|i: int, j: int| 0 <= i < j < r.len() implies #[trigger] r[i].precedes(
            &r[j],
        ) by {
            if i == 0 {
                if j > 1 {
                    assert(s[0].precedes(&s[j - 1]));
                    V::lemma_total_order(x, s[0], s[j - 1]);
                }
            } else {
                assert(r[i] == s[i - 1] && r[j] == s[j - 1]);
            }
        }
        assert forall|y: V| r.contains(y) <==> (s.contains(y) || y == x) by {
            if r.contains(y) {
                let m = choose|m: int| 0 <= m < r.len() && r[m] == y;
                if m > 0 {
                    assert(s[m - 1] == y);
                }
            }
            if s.contains(y) {
                let m = choose|m: int| 0 <= m < s.len() && s[m] == y;
                assert(r[m + 1] == y);
            }
            if y == x {
                assert(r[0] == y);
            }
        }
    }
}

/// `merged(flat)` is the merge of `flat`: it holds each of its distinct
/// vertices once, in ascending order, so it has as many as `flat` has
/// distinct ones.
pub proof fn lemma_merged_len<V: Vertex>(flat: Seq<V>)
    ensures
        is_merge_of(merged(flat), flat),
        merged(flat).len() == flat.to_set().len(),
    decreases flat.len(),
{
    if flat.len() > 0 {
        let init = flat.drop_last();
        lemma_merged_len(init);
        lemma_insert_in_order(merged(init), flat.last());
        assert forall|y: V| merged(flat).contains(y) <==> flat.contains(y) by {
            if init.contains(y) {
                let m = choose|m: int| 0 <= m < init.len() && init[m] == y;
                assert(flat[m] == y);
            }
            if flat.contains(y) {
                let m = choose|m: int| 0 <= m < flat.len() && flat[m] == y;
                if m < flat.len() - 1 {
                    assert(init[m] == y);
                }
            }
            if y == flat.last() {
                assert(flat[flat.len() - 1] == y);
            }
        }
    } else {
        assert forall|y: V| merged(flat).contains(y) <==> flat.contains(y) by {}
    }
    lemma_sorted_no_duplicates(merged(flat));
    merged(flat).unique_seq_to_set();
    assert(merged(flat).to_set() =~= flat.to_set());
}

/// A computed merge is the merge.
proof fn lemma_merged_is<V: Vertex>(s: Seq<V>, flat: Seq<V>)
    requires
        is_merge_of(s, flat),
    ensures
        merged(flat) == s,
{
    let m = merged(flat);
    lemma_merged_len(flat);
    lemma_sorted_unique(s, m);
}

impl<V: Vertex, I: Index> TriangularMesh<V, I> {
    /// Builds a mesh out of a sequence of triangles, merging equal vertices.
    ///
    /// The vertex list holds each distinct vertex once, in ascending order;
    /// the index list names the vertices of the triangles in their order.
    /// Fails when an index does not fit in `I`, with the first such index.
    pub fn from_triangles(triangles: Vec<Triangle<V>>) -> (r: Result<Self, Error>)
        requires
            triangles@.len() <= usize::MAX / 3,
        ensures
            ({
                let flat = flat_vertices(triangles@);
                let verts = merged(flat);
                &&& (r is Ok <==> flat.to_set().len() <= I::max_value())
                &&& r is Ok ==> r->Ok_0.vertices@ == verts && r->Ok_0.merges(flat)
                &&& r is Err ==> exists|k: int, i: int|
                    0 <= k < flat.len() && 0 <= i < verts.len() && verts[i] == flat[k] && i
                        >= I::max_value() && r->Err_0 == Error::index_too_small(
                        i as u64,
                        I::bits(),
                    ) && forall|j: int, m: int|
                        0 <= j < k && 0 <= m < verts.len() && verts[m] == flat[j] ==> m
                            < I::max_value()
            }),
    {
        let ghost flat = flat_vertices(triangles@);
        let verts = merge_vertices(&triangles);
        proof {
            lemma_merged_is(verts@, flat);
            lemma_sorted_no_duplicates(verts@);
            verts@.unique_seq_to_set();
            assert(verts@.to_set() =~= flat.to_set());
        }
        let n = triangles.len() * 3;
        let mut indices: Vec<I> = Vec::new();
        let mut k: usize = 0;
        while k < n
            invariant
                n == flat.len(),
                n == 3 * triangles@.len(),
                k <= n,
                flat == flat_vertices(triangles@),
                verts@ == merged(flat),
                is_merge_of(verts@, flat),
                verts@.no_duplicates(),
                verts@.len() == flat.to_set().len(),
                indices@.len() == k,
                forall|j: int|
                    0 <= j < k ==> #[trigger] indices@[j].value() < verts@.len() && verts@[indices@[j].value() as int]
                        == flat[j] && indices@[j].value() < I::max_value(),
            decreases n - k,
        {
            let v = &triangles[k / 3].vertices[k % 3];
            proof {
                lemma_flat_at(triangles@, k as int);
                assert(flat.contains(flat[k as int]));
            }
            match search(&verts, v) {
                Ok(i) => {
                    match I::from_u64(i as u64) {
                        Ok(idx) => {
                            indices.push(idx);
                        },
                        Err(e) => {
                            proof {
                                assert forall|j: int, m: int|
                                    0 <= j < k && 0 <= m < verts@.len() && verts@[m] == flat[j]
                                        implies m < I::max_value() by {
                                    assert(indices@[j].value() < verts@.len());
                                }
                                assert(verts@[i as int] == flat[k as int]);
                            }
                            return Err(e);
                        },
                    }
                },
                Err(p) => {
                    proof {
                        let i = choose|i: int| 0 <= i < verts@.len() && verts@[i] == flat[k as int];
                        V::lemma_total_order(*v, *v, *v);
                        if i < p {
                            assert(verts@[i].precedes(v));
                        } else {
                            assert(v.precedes(&verts@[i]));
                        }
                    }
                    return unreached();
                },
            }
            k += 1;
        }
        proof {
            if verts@.len() > 0 {
                let last = verts@.len() - 1;
                assert(verts@.contains(verts@[last]));
                let j = choose|j: int| 0 <= j < flat.len() && flat[j] == verts@[last];
                assert(indices@[j].value() < verts@.len());
            }
        }
        let mesh = TriangularMesh { vertices: verts, indices };
        Ok(mesh)
    }
}


/// The triangles of a well-formed mesh, one vertex after another, are the
/// vertices that its index list names.
pub proof fn lemma_flatten_triangles<V: Vertex, I: Index>(mesh: TriangularMesh<V, I>)
    requires
        mesh.well_formed(),
    ensures
        flatten(mesh.spec_triangles()) == Seq::new(
            mesh.indices@.len(),
            |k: int| mesh.vertices@[mesh.index_at(k)],
        ),
{
    let t = mesh.spec_triangles();
    let f = flatten(t);
    let g = Seq::new(mesh.indices@.len(), |k: int| mesh.vertices@[mesh.index_at(k)]);
    assert forall|k: int| 0 <= k < f.len() implies f[k] == g[k] by {
        let q = k / 3;
        let j = k % 3;
        assert(3 * q + j == k);
        assert(t[q] == mesh.triangle_at(q));
    }
    assert(f =~= g);
}

/// Merging the triangles of a well-formed mesh gives back the same sequence
/// of triangles, over as many vertices as the triangles hold distinct ones.
pub proof fn lemma_round_trip<V: Vertex, I: Index, J: Index>(
    mesh: TriangularMesh<V, I>,
    merged_mesh: TriangularMesh<V, J>,
)
    requires
        mesh.well_formed(),
        merged_mesh.merges(flatten(mesh.spec_triangles())),
    ensures
        merged_mesh.well_formed(),
        merged_mesh.spec_triangles() == mesh.spec_triangles(),
        merged_mesh.vertices@.len() == flatten(mesh.spec_triangles()).to_set().len(),
{
    let flat = flatten(mesh.spec_triangles());
    lemma_flatten_triangles(mesh);
    assert forall|k: int| 0 <= k < merged_mesh.indices@.len() implies #[trigger] merged_mesh.index_at(
        k,
    ) < merged_mesh.vertices@.len() by {
        assert(0 <= k < flat.len());
    }
    let a = merged_mesh.spec_triangles();
    let b = mesh.spec_triangles();
    assert forall|q: int| 0 <= q < a.len() implies a[q] == b[q] by {
        assert forall|j: int| 0 <= j < 3 implies a[q][j] == b[q][j] by {
            assert(0 <= 3 * q + j < flat.len());
            assert(merged_mesh.vertices@[merged_mesh.index_at(3 * q + j)] == flat[3 * q + j]);
        }
        assert(a[q] =~= b[q]);
    }
    assert(a =~= b);
    lemma_sorted_no_duplicates(merged_mesh.vertices@);
    merged_mesh.vertices@.unique_seq_to_set();
    assert(merged_mesh.vertices@.to_set() =~= flat.to_set());
}

/// Merging the triangles of a mesh that is itself a merge changes neither
/// its vertex list nor its index list.
pub proof fn lemma_merge_idempotent<V: Vertex, I: Index, J: Index>(
    triangles: Seq<Triangle<V>>,
    first: TriangularMesh<V, I>,
    second: TriangularMesh<V, J>,
)
    requires
        first.merges(flat_vertices(triangles)),
        second.merges(flatten(first.spec_triangles())),
    ensures
        second.vertices@ == first.vertices@,
        second.indices@.len() == first.indices@.len(),
        forall|k: int| 0 <= k < first.indices@.len() ==> second.index_at(k) == first.index_at(k),
{
    let flat = flat_vertices(triangles);
    assert(first.well_formed()) by {
        assert forall|k: int| 0 <= k < first.indices@.len() implies #[trigger] first.index_at(k)
            < first.vertices@.len() by {
            assert(0 <= k < flat.len());
        }
    }
    lemma_flatten_triangles(first);
    let again = flatten(first.spec_triangles());
    assert forall|k: int| 0 <= k < flat.len() implies again[k] == flat[k] by {
        assert(first.vertices@[first.index_at(k)] == flat[k]);
    }
    assert(again =~= flat);
    lemma_sorted_unique(second.vertices@, first.vertices@);
    lemma_sorted_no_duplicates(first.vertices@);
    assert forall|k: int| 0 <= k < first.indices@.len() implies second.index_at(k)
        == first.index_at(k) by {
        assert(second.vertices@[second.index_at(k)] == flat[k]);
        assert(first.vertices@[first.index_at(k)] == flat[k]);
    }
}


/// `r` is the well-formed model whose index list holds the numbers `idx` and
/// whose vertex list holds `verts` converted into `V`; or, when some number of
/// `idx` does not fit in `I`, the error for the first one.
pub open spec fn builds<T, V: Vertex + From<T>, I: Index>(
    idx: Seq<nat>,
    verts: Seq<T>,
    r: Result<Model<V, I>, Error>,
) -> bool {
    &&& (r is Ok <==> forall|k: int| 0 <= k < idx.len() ==> idx[k] < I::max_value())
    &&& r is Ok ==> {
        let mesh = r->Ok_0.mesh;
        &&& mesh.indices@.len() == idx.len()
        &&& forall|k: int| 0 <= k < idx.len() ==> #[trigger] mesh.indices@[k].value() == idx[k]
        &&& mesh.vertices@.len() == verts.len()
        &&& mesh.well_formed()
        &&& <V as FromSpec<T>>::obeys_from_spec() ==> forall|i: int|
            0 <= i < verts.len() ==> #[trigger] mesh.vertices@[i] == <V as FromSpec<
                T,
            >>::from_spec(verts[i])
    }
    &&& r is Err ==> exists|k: int|
        0 <= k < idx.len() && idx[k] >= I::max_value() && r->Err_0 == Error::index_too_small(
            idx[k] as u64,
            I::bits(),
        ) && forall|j: int| 0 <= j < k ==> idx[j] < I::max_value()
}

/// Something which we can build a model out of.
pub trait BuildModel: Sized {
    /// The vertex type that we need to convert from.
    type Vertex;

    /// The index list of the model to build, as numbers.
    spec fn spec_indices(&self) -> Seq<nat>;

    /// The vertices of the model to build, before conversion.
    spec fn spec_vertices(&self) -> Seq<Self::Vertex>;

    /// Builds the model, converting each vertex with `From`.
    fn build_model<V: Vertex + From<Self::Vertex>, I: Index>(self) -> (r: Result<Model<V, I>, Error>)
        ensures
            builds::<Self::Vertex, V, I>(self.spec_indices(), self.spec_vertices(), r),
    ;
}

impl<V: Vertex, I: Index> Model<V, I> {
    /// Creates an empty model.
    pub fn empty() -> (r: Self)
        ensures
            r.mesh.vertices@.len() == 0,
            r.mesh.indices@.len() == 0,
    {
        Model { mesh: TriangularMesh::empty() }
    }

    /// Creates a new model out of a builder.
    pub fn new<F: BuildModel>(builder: F) -> (r: Result<Self, Error>) where V: From<F::Vertex>
        ensures
            builds::<F::Vertex, V, I>(builder.spec_indices(), builder.spec_vertices(), r),
    {
        builder.build_model()
    }
}

} // verus!
