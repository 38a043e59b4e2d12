use vstd::prelude::*;
use crate::ids::{VertexID, HalfEdgeID, FaceID};
use crate::connectivity_info::{
    ConnectivityInfo, ConnectivityView, HalfEdge, Vertex, Face, lemma_store_fits,
};

verus! {

/// Every slot of every table is live, and every slot index fits in `usize`.
pub open spec fn all_live(c: ConnectivityView) -> bool {
    &&& c.vertices.len() <= usize::MAX
    &&& c.halfedges.len() <= usize::MAX
    &&& c.faces.len() <= usize::MAX
    &&& forall|i: int| 0 <= i < c.vertices.len() ==> #[trigger] c.vertices[i] is Some
    &&& forall|i: int| 0 <= i < c.halfedges.len() ==> #[trigger] c.halfedges[i] is Some
    &&& forall|i: int| 0 <= i < c.faces.len() ==> #[trigger] c.faces[i] is Some
}

/// Index of the half-edge after `i` around its face.
pub open spec fn next_of(c: ConnectivityView, i: int) -> int {
    c.he(i).next->Some_0.index as int
}

/// Index of the half-edge before `i` around its face: for a triangle, `next` twice.
pub open spec fn prev_of(c: ConnectivityView, i: int) -> int {
    next_of(c, next_of(c, i))
}

/// Index of the twin of half-edge `i`.
pub open spec fn twin_of(c: ConnectivityView, i: int) -> int {
    c.he(i).twin->Some_0.index as int
}

/// Index of the vertex that half-edge `i` points to.
pub open spec fn vertex_of(c: ConnectivityView, i: int) -> int {
    c.he(i).vertex->Some_0.index as int
}

/// Index of the face that half-edge `i` borders.
pub open spec fn face_of(c: ConnectivityView, i: int) -> int {
    c.he(i).face->Some_0.index as int
}

pub open spec fn has_face(c: ConnectivityView, i: int) -> bool {
    c.he(i).face is Some
}

/// Index of the vertex that half-edge `i` leaves: read at the end of the
/// previous half-edge inside a face, at the end of the twin on the boundary.
pub open spec fn origin_of(c: ConnectivityView, i: int) -> int {
    if has_face(c, i) {
        vertex_of(c, prev_of(c, i))
    } else {
        vertex_of(c, twin_of(c, i))
    }
}

/// The links of half-edge `i` that do not involve its twin: its vertex exists,
/// and inside a face it lies on a loop of three half-edges of that face, the
/// loop that the face names.
pub open spec fn halfedge_loop_ok(c: ConnectivityView, i: int) -> bool {
    &&& c.he(i).vertex is Some
    &&& vertex_of(c, i) < c.vertices.len()
    &&& has_face(c, i) ==> {
        &&& face_of(c, i) < c.faces.len()
        &&& c.he(i).next is Some
        &&& next_of(c, i) < c.halfedges.len()
        &&& next_of(c, i) != i
        &&& has_face(c, next_of(c, i))
        &&& face_of(c, next_of(c, i)) == face_of(c, i)
        &&& next_of(c, next_of(c, next_of(c, i))) == i
        &&& face_names_loop_of(c, face_of(c, i), i)
    }
}

/// Face `f` names `i` or one of the two half-edges after it.
pub open spec fn face_names_loop_of(c: ConnectivityView, f: int, i: int) -> bool {
    let fh = c.fc(f).halfedge->Some_0.index as int;
    fh == i || fh == next_of(c, i) || fh == next_of(c, next_of(c, i))
}

/// The twin links of half-edge `i`: it has a twin, distinct from itself, whose
/// twin is `i` again, which points back to the vertex that `i` leaves, and
/// which does not border the same face; at least one of the two borders a face.
pub open spec fn halfedge_twin_ok(c: ConnectivityView, i: int) -> bool {
    &&& c.he(i).twin is Some
    &&& twin_of(c, i) < c.halfedges.len()
    &&& twin_of(c, i) != i
    &&& c.he(twin_of(c, i)).twin == Some(HalfEdgeID { index: i as usize })
    &&& vertex_of(c, twin_of(c, i)) == origin_of(c, i)
    &&& has_face(c, i) && has_face(c, twin_of(c, i)) ==> face_of(c, i) != face_of(
        c,
        twin_of(c, i),
    )
    &&& has_face(c, i) || has_face(c, twin_of(c, i))
}

/// Face `f` names one of its own half-edges.
pub open spec fn face_ok(c: ConnectivityView, f: int) -> bool {
    &&& c.fc(f).halfedge is Some
    &&& c.fc(f).halfedge->Some_0.index < c.halfedges.len()
    &&& c.he(c.fc(f).halfedge->Some_0.index as int).face == Some(FaceID { index: f as usize })
}

/// Vertex `v` names no half-edge, or one that leaves it.
pub open spec fn vertex_ok(c: ConnectivityView, v: int) -> bool {
    match c.vtx(v).halfedge {
        None => true,
        Some(h) => h.index < c.halfedges.len() && origin_of(c, h.index as int) == v,
    }
}

/// The invariants of a triangle mesh: every half-edge inside a face lies on a
/// loop of three, every half-edge has a twin whose twin is itself again, and
/// faces and vertices name half-edges that fit them.
pub open spec fn mesh_wf(c: ConnectivityView) -> bool {
    &&& all_live(c)
    &&& forall|i: int| 0 <= i < c.halfedges.len() ==> #[trigger] halfedge_loop_ok(c, i)
    &&& forall|i: int| 0 <= i < c.halfedges.len() ==> #[trigger] halfedge_twin_ok(c, i)
    &&& forall|f: int| 0 <= f < c.faces.len() ==> #[trigger] face_ok(c, f)
    &&& forall|v: int| 0 <= v < c.vertices.len() ==> #[trigger] vertex_ok(c, v)
}

/// Face `f` of a store built from `indices` is the triangle of entries
/// `3f, 3f + 1, 3f + 2`: its half-edges are `3f, 3f + 1, 3f + 2` in that order,
/// and half-edge `3f + k` points to the vertex of entry `3f + (k + 1) % 3`.
pub open spec fn face_is_triangle(c: ConnectivityView, indices: Seq<u32>, f: int) -> bool {
    let h = 3 * f;
    &&& c.fc(f).halfedge == Some(HalfEdgeID { index: h as usize })
    &&& c.he(h).next == Some(HalfEdgeID { index: (h + 1) as usize })
    &&& c.he(h + 1).next == Some(HalfEdgeID { index: (h + 2) as usize })
    &&& c.he(h + 2).next == Some(HalfEdgeID { index: h as usize })
    &&& c.he(h).face == Some(FaceID { index: f as usize })
    &&& c.he(h + 1).face == Some(FaceID { index: f as usize })
    &&& c.he(h + 2).face == Some(FaceID { index: f as usize })
    &&& c.he(h).vertex == Some(VertexID { index: indices[h + 1] as usize })
    &&& c.he(h + 1).vertex == Some(VertexID { index: indices[h + 2] as usize })
    &&& c.he(h + 2).vertex == Some(VertexID { index: indices[h] as usize })
}

/// Every entry of a triangle list names one of `n` vertices.
pub open spec fn indices_in_range(indices: Seq<u32>, n: int) -> bool {
    forall|i: int| 0 <= i < indices.len() ==> #[trigger] indices[i] < n
}

/// What holds while the faces of a triangle list are added one by one.
spec fn faces_built(c: ConnectivityView, indices: Seq<u32>, nv: int, k: int) -> bool {
    &&& all_live(c)
    &&& c.vertices.len() == nv
    &&& c.faces.len() == k
    &&& c.halfedges.len() == 3 * k
    &&& 3 * k <= indices.len()
    &&& indices_in_range(indices, nv)
    &&& forall|f: int| 0 <= f < k ==> #[trigger] face_is_triangle(c, indices, f)
    &&& forall|i: int| 0 <= i < 3 * k ==> (#[trigger] c.he(i)).twin is None
    &&& forall|v: int| 0 <= v < nv ==> #[trigger] vertex_ok(c, v)
}

/// Facts about half-edge `i` of a store whose first `k` faces are the
/// triangles of a triangle list.
proof fn lemma_triangle_loop(c: ConnectivityView, indices: Seq<u32>, nv: int, k: int, i: int)
    requires
        faces_built(c, indices, nv, k) || (
            all_live(c) && c.faces.len() == k && 3 * k <= c.halfedges.len() && 3 * k
                <= indices.len() && indices_in_range(indices, nv) && c.vertices.len() == nv
                && forall|f: int| 0 <= f < k ==> #[trigger] face_is_triangle(c, indices, f)),
        0 <= i < 3 * k,
    ensures
        halfedge_loop_ok(c, i),
        has_face(c, i),
        face_of(c, i) == i / 3,
        vertex_of(c, prev_of(c, i)) == indices[i] as int,
        vertex_of(c, i) == indices[if i % 3 == 2 { i - 2 } else { i + 1 }] as int,
        0 <= next_of(c, i) < 3 * k,
        0 <= prev_of(c, i) < 3 * k,
        halfedge_loop_ok(c, next_of(c, i)),
        halfedge_loop_ok(c, prev_of(c, i)),
        c.he(next_of(c, i)).vertex is Some,
        c.he(prev_of(c, i)).vertex is Some,
{
    let f = i / 3;
    assert(i == 3 * f + i % 3 && 0 <= i % 3 < 3 && 0 <= f < k) by (nonlinear_arith)
        requires
            f == i / 3,
            0 <= i < 3 * k,
    ;
    assert(face_is_triangle(c, indices, f));
    assert(indices[3 * f] < nv && indices[3 * f + 1] < nv && indices[3 * f + 2] < nv);
    assert(c.faces.len() == k);
    assert(halfedge_loop_ok(c, 3 * f));
    assert(halfedge_loop_ok(c, 3 * f + 1));
    assert(halfedge_loop_ok(c, 3 * f + 2));
}

/// Appends a face with its three half-edges, running through `v0`, `v1`,
/// `v2`, to the store.
fn add_triangle(c: &mut ConnectivityInfo, v0: VertexID, v1: VertexID, v2: VertexID)
    requires
        old(c)@.halfedges.len() + 3 < usize::MAX,
        old(c)@.faces.len() < usize::MAX,
        old(c)@.vertex_live(v0.index as int),
        old(c)@.vertex_live(v1.index as int),
        old(c)@.vertex_live(v2.index as int),
    ensures
        ({
            let n = old(c)@.halfedges.len();
            let f = FaceID { index: old(c)@.faces.len() as usize };
            let h0 = HalfEdgeID { index: n as usize };
            let h1 = HalfEdgeID { index: (n + 1) as usize };
            let h2 = HalfEdgeID { index: (n + 2) as usize };
            &&& final(c)@.faces == old(c)@.faces.push(Some(Face { id: f, halfedge: Some(h0) }))
            &&& final(c)@.halfedges == old(c)@.halfedges.push(
                Some(HalfEdge { id: h0, vertex: Some(v1), twin: None, next: Some(h1), face: Some(f) }),
            ).push(
                Some(HalfEdge { id: h1, vertex: Some(v2), twin: None, next: Some(h2), face: Some(f) }),
            ).push(
                Some(HalfEdge { id: h2, vertex: Some(v0), twin: None, next: Some(h0), face: Some(f) }),
            )
            &&& final(c)@.vertices == old(c)@.vertices.update(
                v0.index as int,
                Some(Vertex { halfedge: Some(h0), ..old(c)@.vtx(v0.index as int) }),
            ).update(
                v1.index as int,
                Some(
                    Vertex {
                        halfedge: Some(h1),
                        ..old(c)@.vertices.update(
                            v0.index as int,
                            Some(Vertex { halfedge: Some(h0), ..old(c)@.vtx(v0.index as int) }),
                        )[v1.index as int]->Some_0
                    },
                ),
            ).update(
                v2.index as int,
                Some(
                    Vertex {
                        halfedge: Some(h2),
                        ..old(c)@.vertices.update(
                            v0.index as int,
                            Some(Vertex { halfedge: Some(h0), ..old(c)@.vtx(v0.index as int) }),
                        ).update(
                            v1.index as int,
                            Some(
                                Vertex {
                                    halfedge: Some(h1),
                                    ..old(c)@.vertices.update(
                                        v0.index as int,
                                        Some(
                                            Vertex {
                                                halfedge: Some(h0),
                                                ..old(c)@.vtx(v0.index as int)
                                            },
                                        ),
                                    )[v1.index as int]->Some_0
                                },
                            ),
                        )[v2.index as int]->Some_0
                    },
                ),
            )
        }),
{
    let f = c.create_face();
    let h0 = c.create_halfedge();
    let h1 = c.create_halfedge();
    let h2 = c.create_halfedge();
    c.set_halfedge_vertex(&h0, Some(v1));
    c.set_halfedge_next(&h0, Some(h1));
    c.set_halfedge_face(&h0, Some(f));
    c.set_halfedge_vertex(&h1, Some(v2));
    c.set_halfedge_next(&h1, Some(h2));
    c.set_halfedge_face(&h1, Some(f));
    c.set_halfedge_vertex(&h2, Some(v0));
    c.set_halfedge_next(&h2, Some(h0));
    c.set_halfedge_face(&h2, Some(f));
    c.set_face_halfedge(&f, Some(h0));
    c.set_vertex_halfedge(&v0, Some(h0));
    c.set_vertex_halfedge(&v1, Some(h1));
    c.set_vertex_halfedge(&v2, Some(h2));
}

/// Half-edges `i` and `j` border different faces and run opposite ways
/// between the same two vertices, so that they could be twins.
pub open spec fn can_pair(c: ConnectivityView, i: int, j: int) -> bool {
    &&& has_face(c, i)
    &&& has_face(c, j)
    &&& i != j
    &&& face_of(c, i) != face_of(c, j)
    &&& vertex_of(c, j) == vertex_of(c, prev_of(c, i))
    &&& vertex_of(c, prev_of(c, j)) == vertex_of(c, i)
}

/// Half-edge `i` is a boundary half-edge made as the twin of one of the
/// first `n0` half-edges.
spec fn boundary_twin_ok(c: ConnectivityView, n0: int, i: int) -> bool {
    &&& !has_face(c, i)
    &&& halfedge_loop_ok(c, i)
    &&& halfedge_twin_ok(c, i)
    &&& twin_of(c, i) < n0
}

/// What holds while twins are being paired: the `n0` half-edges of the faces
/// come first, and every half-edge after them is a boundary half-edge that
/// was created as the twin of one of them.
spec fn twins_paired(
    c: ConnectivityView,
    indices: Seq<u32>,
    nv: int,
    k: int,
    i1: int,
) -> bool {
    let n0 = 3 * k;
    &&& all_live(c)
    &&& c.vertices.len() == nv
    &&& c.faces.len() == k
    &&& n0 <= c.halfedges.len() <= n0 + i1
    &&& 0 <= i1 <= n0
    &&& n0 <= indices.len()
    &&& indices_in_range(indices, nv)
    &&& forall|f: int| 0 <= f < k ==> #[trigger] face_is_triangle(c, indices, f)
    &&& forall|i: int| n0 <= i < c.halfedges.len() ==> #[trigger] boundary_twin_ok(c, n0, i)
    &&& forall|i: int|
        0 <= i < n0 ==> ((#[trigger] c.he(i)).twin is Some ==> halfedge_twin_ok(c, i))
    &&& forall|i: int| 0 <= i < i1 ==> (#[trigger] c.he(i)).twin is Some
    &&& forall|v: int| 0 <= v < nv ==> #[trigger] vertex_ok(c, v)
    &&& forall|v: int|
        0 <= v < nv ==> ((#[trigger] c.vtx(v)).halfedge matches Some(h) ==> h.index < n0)
    &&& forall|j: int|
        i1 <= j < n0 ==> ((#[trigger] c.he(j)).twin matches Some(t) ==> t.index < n0)
    &&& forall|i: int, j: int|
        0 <= i < n0 && 0 <= j < n0 && twin_of(c, i) >= n0 && c.he(i).twin is Some
            && #[trigger] can_pair(c, i, j) ==> c.he(j).twin is Some && twin_of(c, j) < n0
}

/// Changing twins and adding boundary half-edges leaves the loops of the
/// first `3k` half-edges, and so `can_pair` among them, as they were.
proof fn lemma_can_pair_unchanged(
    before: ConnectivityView,
    a: ConnectivityView,
    indices: Seq<u32>,
    nv: int,
    k: int,
)
    requires
        all_live(before),
        before.faces.len() == k,
        3 * k <= before.halfedges.len(),
        3 * k <= indices.len(),
        indices_in_range(indices, nv),
        before.vertices.len() == nv,
        forall|f: int| 0 <= f < k ==> #[trigger] face_is_triangle(before, indices, f),
        before.halfedges.len() <= a.halfedges.len(),
        forall|i: int|
            0 <= i < before.halfedges.len() ==> (#[trigger] a.he(i)).vertex == before.he(i).vertex
                && a.he(i).next == before.he(i).next && a.he(i).face == before.he(i).face,
    ensures
        forall|i: int, j: int|
            0 <= i < 3 * k && 0 <= j < 3 * k ==> (#[trigger] can_pair(a, i, j) <==> can_pair(
                before,
                i,
                j,
            )),
{
    assert forall|i: int, j: int| 0 <= i < 3 * k && 0 <= j < 3 * k implies (#[trigger] can_pair(
        a,
        i,
        j,
    ) <==> can_pair(before, i, j)) by {
        lemma_triangle_loop(before, indices, nv, k, i);
        lemma_triangle_loop(before, indices, nv, k, j);
        let ni = next_of(before, i);
        let nj = next_of(before, j);
        assert(a.he(i).next == before.he(i).next);
        assert(a.he(j).next == before.he(j).next);
        assert(a.he(ni).next == before.he(ni).next);
        assert(a.he(nj).next == before.he(nj).next);
        assert(a.he(prev_of(before, i)).vertex == before.he(prev_of(before, i)).vertex);
        assert(a.he(prev_of(before, j)).vertex == before.he(prev_of(before, j)).vertex);
    }
}

proof fn lemma_pair_twins(
    before: ConnectivityView,
    a: ConnectivityView,
    indices: Seq<u32>,
    nv: int,
    k: int,
    i1: int,
    h2: int,
)
    requires
        twins_paired(before, indices, nv, k, i1),
        i1 < h2 < 3 * k,
        before.he(i1).twin is None,
        before.he(h2).twin is None,
        face_of(before, h2) != face_of(before, i1),
        vertex_of(before, h2) == vertex_of(before, prev_of(before, i1)),
        vertex_of(before, prev_of(before, h2)) == vertex_of(before, i1),
        a.vertices == before.vertices,
        a.faces == before.faces,
        a.halfedges == before.halfedges.update(
            i1,
            Some(HalfEdge { twin: Some(HalfEdgeID { index: h2 as usize }), ..before.he(i1) }),
        ).update(
            h2,
            Some(HalfEdge { twin: Some(HalfEdgeID { index: i1 as usize }), ..before.he(h2) }),
        ),
    ensures
        twins_paired(a, indices, nv, k, i1 + 1),
{
    lemma_triangle_loop(before, indices, nv, k, i1);
    lemma_triangle_loop(before, indices, nv, k, h2 as int);
    lemma_can_pair_unchanged(before, a, indices, nv, k);
    assert forall|i: int| 0 <= i < a.halfedges.len() implies #[trigger] a.he(i) == if i
        == i1 {
        HalfEdge { twin: Some(HalfEdgeID { index: h2 as usize }), ..before.he(i) }
    } else if i == h2 {
        HalfEdge { twin: Some(HalfEdgeID { index: i1 as usize }), ..before.he(i) }
    } else {
        before.he(i)
    } by {}
    assert forall|f: int| 0 <= f < k implies #[trigger] face_is_triangle(a, indices, f) by {
        assert(face_is_triangle(before, indices, f));
    }
    assert forall|i: int| 0 <= i < 3 * k && (#[trigger] a.he(i)).twin is Some
        implies halfedge_twin_ok(a, i) by {
        lemma_triangle_loop(before, indices, nv, k, i);
        lemma_triangle_loop(a, indices, nv, k, i);
        if i != i1 && i != h2 && a.he(i).twin is Some {
            assert(halfedge_twin_ok(before, i));
            let t = twin_of(before, i);
            if t < 3 * k {
                lemma_triangle_loop(before, indices, nv, k, t);
                lemma_triangle_loop(a, indices, nv, k, t);
            }
        }
    }
    assert forall|i: int| 3 * k <= i < a.halfedges.len() implies #[trigger] boundary_twin_ok(
        a,
        3 * k,
        i,
    ) by {
        assert(boundary_twin_ok(before, 3 * k, i));
        let t = twin_of(before, i);
        lemma_triangle_loop(before, indices, nv, k, t);
        assert(a.he(i) == before.he(i));
        assert(a.he(t) == before.he(t));
        assert(!has_face(a, i));
        assert(halfedge_loop_ok(a, i));
        assert(halfedge_twin_ok(a, i));
    }
    assert forall|v: int| 0 <= v < nv implies #[trigger] vertex_ok(a, v) by {
        assert(vertex_ok(before, v));
        assert(before.vtx(v) == a.vtx(v));
        if let Some(h) = a.vtx(v).halfedge {
            lemma_triangle_loop(before, indices, nv, k, h.index as int);
            lemma_triangle_loop(a, indices, nv, k, h.index as int);
        }
    }
    assert forall|i: int| 0 <= i < i1 + 1 implies (#[trigger] a.he(i)).twin is Some by {
        if i < i1 {
            assert(before.he(i).twin is Some);
        }
    }
    assert forall|v: int|
    0 <= v < nv implies ((#[trigger] a.vtx(v)).halfedge matches Some(h) ==> h.index < 3 * k) by {
    assert(before.vtx(v) == a.vtx(v));
    }
}

proof fn lemma_boundary_twin(
    before: ConnectivityView,
    a: ConnectivityView,
    indices: Seq<u32>,
    nv: int,
    k: int,
    i1: int,
    b: int,
)
    requires
        twins_paired(before, indices, nv, k, i1),
        i1 < 3 * k,
        6 * k < usize::MAX,
        before.he(i1).twin is None,
        forall|j: int|
            i1 < j < 3 * k && (#[trigger] before.he(j)).twin is None ==> !can_pair(before, i1, j),
        b == before.halfedges.len(),
        a.vertices == before.vertices,
        a.faces == before.faces,
        a.halfedges == before.halfedges.update(
            i1,
            Some(HalfEdge { twin: Some(HalfEdgeID { index: b as usize }), ..before.he(i1) }),
        ).push(
            Some(
                HalfEdge {
                    id: HalfEdgeID { index: b as usize },
                    vertex: Some(VertexID { index: vertex_of(before, prev_of(before, i1)) as usize }),
                    twin: Some(HalfEdgeID { index: i1 as usize }),
                    next: None,
                    face: None,
                },
            ),
        ),
    ensures
        twins_paired(a, indices, nv, k, i1 + 1),
{
    lemma_triangle_loop(before, indices, nv, k, i1);
    lemma_can_pair_unchanged(before, a, indices, nv, k);
    assert forall|i: int| 0 <= i < before.halfedges.len() implies #[trigger] a.he(i) == if i
        == i1 {
        HalfEdge { twin: Some(HalfEdgeID { index: b as usize }), ..before.he(i) }
    } else {
        before.he(i)
    } by {}
    assert forall|f: int| 0 <= f < k implies #[trigger] face_is_triangle(a, indices, f) by {
        assert(face_is_triangle(before, indices, f));
    }
    assert forall|i: int| 0 <= i < 3 * k && (#[trigger] a.he(i)).twin is Some
        implies halfedge_twin_ok(a, i) by {
        lemma_triangle_loop(before, indices, nv, k, i);
        lemma_triangle_loop(a, indices, nv, k, i);
        if i != i1 && a.he(i).twin is Some {
            assert(halfedge_twin_ok(before, i));
            let t = twin_of(before, i);
            if t < 3 * k {
                lemma_triangle_loop(before, indices, nv, k, t);
                lemma_triangle_loop(a, indices, nv, k, t);
            }
        }
    }
    assert forall|i: int| 3 * k <= i < a.halfedges.len() implies #[trigger] boundary_twin_ok(
        a,
        3 * k,
        i,
    ) by {
        if i < before.halfedges.len() {
            assert(boundary_twin_ok(before, 3 * k, i));
            let t = twin_of(before, i);
            lemma_triangle_loop(before, indices, nv, k, t);
            assert(a.he(i) == before.he(i));
            assert(a.he(t) == before.he(t));
        } else {
            lemma_triangle_loop(before, indices, nv, k, i1 as int);
            lemma_triangle_loop(a, indices, nv, k, i1 as int);
        }
    }
    assert forall|v: int| 0 <= v < nv implies #[trigger] vertex_ok(a, v) by {
        assert(vertex_ok(before, v));
        assert(before.vtx(v) == a.vtx(v));
        if let Some(h) = a.vtx(v).halfedge {
            lemma_triangle_loop(before, indices, nv, k, h.index as int);
            lemma_triangle_loop(a, indices, nv, k, h.index as int);
        }
    }
    assert forall|i: int| 0 <= i < i1 + 1 implies (#[trigger] a.he(i)).twin is Some by {
        if i < i1 {
            assert(before.he(i).twin is Some);
        }
    }
    assert forall|v: int|
    0 <= v < nv implies ((#[trigger] a.vtx(v)).halfedge matches Some(h) ==> h.index < 3 * k) by {
    assert(before.vtx(v) == a.vtx(v));
    }
    assert forall|j: int| i1 + 1 <= j < 3 * k implies ((#[trigger] a.he(j)).twin matches Some(t)
        ==> t.index < 3 * k) by {
        assert(before.he(j) == a.he(j));
    }
    assert forall|i: int, j: int|
        0 <= i < 3 * k && 0 <= j < 3 * k && twin_of(a, i) >= 3 * k && a.he(i).twin is Some
            && #[trigger] can_pair(a, i, j) implies a.he(j).twin is Some && twin_of(a, j) < 3 * k by {
        assert(can_pair(before, i, j));
        if i == i1 {
            if j > i1 {
                assert(before.he(j).twin is Some);
                assert(before.he(j) == a.he(j));
            } else {
                assert(before.he(j).twin is Some);
                assert(can_pair(before, j, i1));
                assert(before.he(j) == a.he(j));
            }
        } else {
            assert(before.he(i) == a.he(i));
            assert(j != i1);
            assert(before.he(j) == a.he(j));
        }
    }
}

/// Pairs every half-edge with a twin: with the first later half-edge without
/// a twin that runs the other way along the same two vertices in another face,
/// or else with a new boundary half-edge.
fn create_twin_connectivity(
    c: &mut ConnectivityInfo,
    Ghost(indices): Ghost<Seq<u32>>,
    Ghost(nv): Ghost<int>,
    Ghost(k): Ghost<int>,
)
    requires
        faces_built(old(c)@, indices, nv, k),
        6 * k < usize::MAX,
    ensures
        mesh_wf(final(c)@),
        final(c)@.vertices.len() == nv,
        final(c)@.faces.len() == k,
        3 * k <= final(c)@.halfedges.len() <= 6 * k,
        forall|f: int| 0 <= f < k ==> #[trigger] face_is_triangle(final(c)@, indices, f),
        forall|i: int| 3 * k <= i < final(c)@.halfedges.len() ==> !#[trigger] has_face(final(c)@, i),
        forall|i: int, j: int|
            0 <= i < 3 * k && 0 <= j < 3 * k && #[trigger] can_pair(final(c)@, i, j) ==> has_face(
                final(c)@,
                twin_of(final(c)@, i),
            ) || has_face(final(c)@, twin_of(final(c)@, j)),
{
    proof {
        lemma_store_fits(c);
        assert forall|v: int| 0 <= v < nv implies ((#[trigger] c@.vtx(v)).halfedge matches Some(
            h,
        ) ==> h.index < 3 * k) by {
            assert(vertex_ok(c@, v));
        }
    }
    let n0 = c.halfedge_slots();
    let mut i1: usize = 0;
    while i1 < n0
        invariant
            n0 == 3 * k,
            6 * k < usize::MAX,
            twins_paired(c@, indices, nv, k, i1 as int),
        decreases n0 - i1,
    {
        let ghost before = c@;
        proof {
            lemma_store_fits(c);
        }
        let h1 = HalfEdgeID::new(i1);
        if c.halfedge_twin(&h1).is_none() {
            proof {
                lemma_triangle_loop(c@, indices, nv, k, i1 as int);
            }
            let vertex_id1 = c.halfedge_vertex(&h1).unwrap();
            let n1 = c.halfedge_next(&h1).unwrap();
            let p1 = c.halfedge_next(&n1).unwrap();
            let vertex_id2 = c.halfedge_vertex(&p1).unwrap();
            let face1 = c.halfedge_face(&h1).unwrap();
            let mut found: Option<HalfEdgeID> = None;
            let mut i2: usize = i1 + 1;
            while i2 < n0 && found.is_none()
                invariant
                    c@ == before,
                    n0 == 3 * k,
                    i1 < i2 <= n0,
                    twins_paired(c@, indices, nv, k, i1 as int),
                    found matches Some(h2) ==> {
                        &&& i1 < h2.index < n0
                        &&& c@.he(h2.index as int).twin is None
                        &&& face_of(c@, h2.index as int) != face1.index
                        &&& vertex_of(c@, h2.index as int) == vertex_id2.index
                        &&& vertex_of(c@, prev_of(c@, h2.index as int)) == vertex_id1.index
                    },
                    found is None ==> forall|j: int|
                        i1 < j < i2 && (#[trigger] c@.he(j)).twin is None ==> !can_pair(
                            c@,
                            i1 as int,
                            j,
                        ),
                    vertex_id1.index == vertex_of(c@, i1 as int),
                    vertex_id2.index == vertex_of(c@, prev_of(c@, i1 as int)),
                    face1.index == face_of(c@, i1 as int),
                decreases n0 - i2,
            {
                let h2 = HalfEdgeID::new(i2);
                proof {
                    lemma_triangle_loop(c@, indices, nv, k, i2 as int);
                }
                if c.halfedge_twin(&h2).is_none() && c.halfedge_face(&h2).unwrap().index
                    != face1.index {
                    let w = c.halfedge_vertex(&h2).unwrap();
                    let n2 = c.halfedge_next(&h2).unwrap();
                    let p2 = c.halfedge_next(&n2).unwrap();
                    let u = c.halfedge_vertex(&p2).unwrap();
                    if w == vertex_id2 && u == vertex_id1 {
                        found = Some(h2);
                    }
                }
                i2 = i2 + 1;
            }
            match found {
                Some(h2) => {
                    c.set_halfedge_twin(&h1, Some(h2));
                    c.set_halfedge_twin(&h2, Some(h1));
                    proof {
                        assert(c@.halfedges =~= before.halfedges.update(
                            i1 as int,
                            Some(HalfEdge { twin: Some(h2), ..before.he(i1 as int) }),
                        ).update(
                            h2.index as int,
                            Some(HalfEdge { twin: Some(h1), ..before.he(h2.index as int) }),
                        ));
                        lemma_pair_twins(before, c@, indices, nv, k, i1 as int, h2.index as int);
                    }
                },
                None => {
                    let b = c.create_halfedge();
                    c.set_halfedge_vertex(&b, Some(vertex_id2));
                    c.set_halfedge_twin(&b, Some(h1));
                    c.set_halfedge_twin(&h1, Some(b));
                    proof {
                        assert(c@.halfedges =~= before.halfedges.update(
                            i1 as int,
                            Some(HalfEdge { twin: Some(b), ..before.he(i1 as int) }),
                        ).push(
                            Some(
                                HalfEdge {
                                    id: b,
                                    vertex: Some(vertex_id2),
                                    twin: Some(h1),
                                    next: None,
                                    face: None,
                                },
                            ),
                        ));
                        lemma_boundary_twin(before, c@, indices, nv, k, i1 as int, b.index as int);
                    }
                },
            }
        }
        i1 = i1 + 1;
    }
    proof {
        let a = c@;
        assert forall|i: int| 0 <= i < a.halfedges.len() implies #[trigger] halfedge_loop_ok(a, i)
            by {
            if i < 3 * k {
                lemma_triangle_loop(a, indices, nv, k, i);
            } else {
                assert(boundary_twin_ok(a, 3 * k, i));
            }
        }
        assert forall|i: int| 0 <= i < a.halfedges.len() implies #[trigger] halfedge_twin_ok(a, i)
            by {
            if i < 3 * k {
                assert(a.he(i).twin is Some);
            } else {
                assert(boundary_twin_ok(a, 3 * k, i));
            }
        }
        assert forall|f: int| 0 <= f < a.faces.len() implies #[trigger] face_ok(a, f) by {
            assert(face_is_triangle(a, indices, f));
        }
        assert forall|i: int| 3 * k <= i < a.halfedges.len() implies !#[trigger] has_face(a, i) by {
            assert(boundary_twin_ok(a, 3 * k, i));
        }
        assert forall|i: int, j: int|
            0 <= i < 3 * k && 0 <= j < 3 * k && #[trigger] can_pair(a, i, j) implies has_face(
            a,
            twin_of(a, i),
        ) || has_face(a, twin_of(a, j)) by {
            assert(a.he(i).twin is Some);
            if twin_of(a, i) >= 3 * k {
                lemma_triangle_loop(a, indices, nv, k, twin_of(a, j));
            } else {
                lemma_triangle_loop(a, indices, nv, k, twin_of(a, i));
            }
        }
    }
}

proof fn lemma_faces_built_step(
    before: ConnectivityView,
    a: ConnectivityView,
    indices: Seq<u32>,
    nv: int,
    f: int,
)
    requires
        faces_built(before, indices, nv, f),
        3 * f + 3 <= indices.len(),
        3 * f + 3 < usize::MAX,
        ({
            let n = before.halfedges.len();
            let v0 = VertexID { index: indices[3 * f] as usize };
            let v1 = VertexID { index: indices[3 * f + 1] as usize };
            let v2 = VertexID { index: indices[3 * f + 2] as usize };
            let fid = FaceID { index: f as usize };
            let h0 = HalfEdgeID { index: n as usize };
            let h1 = HalfEdgeID { index: (n + 1) as usize };
            let h2 = HalfEdgeID { index: (n + 2) as usize };
            let s0 = before.vertices.update(
                v0.index as int,
                Some(Vertex { halfedge: Some(h0), ..before.vtx(v0.index as int) }),
            );
            let s1 = s0.update(
                v1.index as int,
                Some(Vertex { halfedge: Some(h1), ..s0[v1.index as int]->Some_0 }),
            );
            &&& a.faces == before.faces.push(Some(Face { id: fid, halfedge: Some(h0) }))
            &&& a.halfedges == before.halfedges.push(
                Some(HalfEdge { id: h0, vertex: Some(v1), twin: None, next: Some(h1), face: Some(fid) }),
            ).push(
                Some(HalfEdge { id: h1, vertex: Some(v2), twin: None, next: Some(h2), face: Some(fid) }),
            ).push(
                Some(HalfEdge { id: h2, vertex: Some(v0), twin: None, next: Some(h0), face: Some(fid) }),
            )
            &&& a.vertices == s1.update(
                v2.index as int,
                Some(Vertex { halfedge: Some(h2), ..s1[v2.index as int]->Some_0 }),
            )
        }),
    ensures
        faces_built(a, indices, nv, f + 1),
{
    let n = 3 * f;
    assert(indices[n] < nv && indices[n + 1] < nv && indices[n + 2] < nv);
    assert forall|g: int| 0 <= g < f + 1 implies #[trigger] face_is_triangle(a, indices, g) by {
        if g < f {
            assert(face_is_triangle(before, indices, g));
            assert(a.he(3 * g) == before.he(3 * g));
            assert(a.he(3 * g + 1) == before.he(3 * g + 1));
            assert(a.he(3 * g + 2) == before.he(3 * g + 2));
        }
    }
    assert forall|i: int| 0 <= i < 3 * (f + 1) implies (#[trigger] a.he(i)).twin is None by {
        if i < 3 * f {
            assert(before.he(i).twin is None);
        }
    }
    assert forall|v: int| 0 <= v < nv implies #[trigger] vertex_ok(a, v) by {
        if v != indices[n] && v != indices[n + 1] && v != indices[n + 2] {
            assert(a.vtx(v) == before.vtx(v));
            assert(vertex_ok(before, v));
            if let Some(h) = before.vtx(v).halfedge {
                lemma_triangle_loop(before, indices, nv, f, h.index as int);
                lemma_triangle_loop(a, indices, nv, f + 1, h.index as int);
            }
        } else {
            lemma_triangle_loop(a, indices, nv, f + 1, n);
            lemma_triangle_loop(a, indices, nv, f + 1, n + 1);
            lemma_triangle_loop(a, indices, nv, f + 1, n + 2);
        }
    }
}

/// The links of half-edge `i` that can be read without following another
/// link: its vertex and twin exist, and inside a face so do the face and the
/// next half-edge.
pub open spec fn halfedge_local_ok(c: ConnectivityView, i: int) -> bool {
    &&& c.he(i).vertex is Some
    &&& vertex_of(c, i) < c.vertices.len()
    &&& c.he(i).twin is Some
    &&& twin_of(c, i) < c.halfedges.len()
    &&& has_face(c, i) ==> {
        &&& face_of(c, i) < c.faces.len()
        &&& c.he(i).next is Some
        &&& next_of(c, i) < c.halfedges.len()
    }
}

/// Whether every slot of the store is live.
fn check_live(c: &ConnectivityInfo) -> (r: bool)
    ensures
        r == all_live(c@),
{
    proof {
        lemma_store_fits(c);
    }
    let nv = c.vertex_slots();
    let mut i: usize = 0;
    while i < nv
        invariant
            nv == c@.vertices.len(),
            i <= nv,
            forall|j: int| 0 <= j < i ==> #[trigger] c@.vertices[j] is Some,
        decreases nv - i,
    {
        if c.vertex(&VertexID::new(i)).is_none() {
            return false;
        }
        i = i + 1;
    }
    let nh = c.halfedge_slots();
    let mut i: usize = 0;
    while i < nh
        invariant
            nh == c@.halfedges.len(),
            i <= nh,
            forall|j: int| 0 <= j < i ==> #[trigger] c@.halfedges[j] is Some,
        decreases nh - i,
    {
        if c.halfedge(&HalfEdgeID::new(i)).is_none() {
            return false;
        }
        i = i + 1;
    }
    let nf = c.face_slots();
    let mut i: usize = 0;
    while i < nf
        invariant
            nf == c@.faces.len(),
            i <= nf,
            forall|j: int| 0 <= j < i ==> #[trigger] c@.faces[j] is Some,
        decreases nf - i,
    {
        if c.face(&FaceID::new(i)).is_none() {
            return false;
        }
        i = i + 1;
    }
    true
}

/// Whether the links of half-edge `i` that need no other link are in place.
fn check_local(c: &ConnectivityInfo, i: usize) -> (r: bool)
    requires
        all_live(c@),
        i < c@.halfedges.len(),
    ensures
        r ==> halfedge_local_ok(c@, i as int),
        !r ==> !mesh_wf(c@),
{
    let h = c.halfedge(&HalfEdgeID::new(i)).unwrap();
    proof {
        if mesh_wf(c@) {
            assert(halfedge_loop_ok(c@, i as int));
            assert(halfedge_twin_ok(c@, i as int));
        }
    }
    let vertex_ok = match h.vertex {
        Some(v) => v.index < c.vertex_slots(),
        None => false,
    };
    let twin_ok = match h.twin {
        Some(t) => t.index < c.halfedge_slots(),
        None => false,
    };
    let face_ok = match h.face {
        Some(f) => f.index < c.face_slots() && match h.next {
            Some(n) => n.index < c.halfedge_slots(),
            None => false,
        },
        None => true,
    };
    vertex_ok && twin_ok && face_ok
}

/// Whether half-edge `i` lies on a loop of three and has a fitting twin.
fn check_halfedge(c: &ConnectivityInfo, i: usize) -> (r: bool)
    requires
        all_live(c@),
        i < c@.halfedges.len(),
        forall|j: int| 0 <= j < c@.halfedges.len() ==> #[trigger] halfedge_local_ok(c@, j),
    ensures
        r ==> halfedge_loop_ok(c@, i as int) && halfedge_twin_ok(c@, i as int),
        !r ==> !mesh_wf(c@),
{
    let ghost v = c@;
    let ghost ii = i as int;
    let id = HalfEdgeID::new(i);
    proof {
        assert(halfedge_local_ok(v, ii));
        if mesh_wf(v) {
            assert(halfedge_loop_ok(v, ii));
            assert(halfedge_twin_ok(v, ii));
        }
    }
    let t = c.halfedge_twin(&id).unwrap();
    proof {
        assert(halfedge_local_ok(v, t.index as int));
    }
    if c.halfedge_twin(&t) != Some(id) || t.index == i {
        return false;
    }
    let face = c.halfedge_face(&id);
    let twin_face = c.halfedge_face(&t);
    match (face, twin_face) {
        (Some(f), Some(g)) => {
            if f.index == g.index {
                return false;
            }
        },
        (None, None) => {
            return false;
        },
        _ => {},
    }
    let origin = match face {
        Some(f) => {
            let n = c.halfedge_next(&id).unwrap();
            proof {
                assert(halfedge_local_ok(v, n.index as int));
                if mesh_wf(v) {
                    assert(halfedge_loop_ok(v, n.index as int));
                }
            }
            if n.index == i {
                return false;
            }
            match c.halfedge_face(&n) {
                Some(fn_) => {
                    if fn_.index != f.index {
                        return false;
                    }
                },
                None => {
                    return false;
                },
            }
            let n2 = c.halfedge_next(&n).unwrap();
            proof {
                assert(halfedge_local_ok(v, n2.index as int));
                if mesh_wf(v) {
                    assert(halfedge_loop_ok(v, n2.index as int));
                }
            }
            if c.halfedge_face(&n2).is_none() {
                return false;
            }
            let n3 = c.halfedge_next(&n2).unwrap();
            if n3.index != i {
                return false;
            }
            let fh = match c.face_halfedge(&f) {
                Some(fh) => fh,
                None => {
                    proof {
                        if mesh_wf(v) {
                            assert(face_ok(v, f.index as int));
                        }
                    }
                    return false;
                },
            };
            if fh.index != i && fh.index != n.index && fh.index != n2.index {
                return false;
            }
            c.halfedge_vertex(&n2).unwrap()
        },
        None => c.halfedge_vertex(&t).unwrap(),
    };
    c.halfedge_vertex(&t).unwrap() == origin
}

/// Whether face `f` names one of its own half-edges.
fn check_face(c: &ConnectivityInfo, f: usize) -> (r: bool)
    requires
        all_live(c@),
        f < c@.faces.len(),
    ensures
        r == face_ok(c@, f as int),
{
    let id = FaceID::new(f);
    match c.face_halfedge(&id) {
        Some(h) => h.index < c.halfedge_slots() && match c.halfedge_face(&h) {
            Some(g) => g.index == f,
            None => false,
        },
        None => false,
    }
}

/// Whether vertex `v` names no half-edge or one that leaves it.
fn check_vertex(c: &ConnectivityInfo, v: usize) -> (r: bool)
    requires
        all_live(c@),
        v < c@.vertices.len(),
        forall|j: int| 0 <= j < c@.halfedges.len() ==> #[trigger] halfedge_loop_ok(c@, j),
        forall|j: int| 0 <= j < c@.halfedges.len() ==> #[trigger] halfedge_twin_ok(c@, j),
    ensures
        r == vertex_ok(c@, v as int),
{
    match c.vertex_halfedge(&VertexID::new(v)) {
        Some(h) => {
            if h.index >= c.halfedge_slots() {
                return false;
            }
            proof {
                assert(halfedge_loop_ok(c@, h.index as int));
                assert(halfedge_twin_ok(c@, h.index as int));
                assert(halfedge_loop_ok(c@, twin_of(c@, h.index as int)));
                if has_face(c@, h.index as int) {
                    assert(halfedge_loop_ok(c@, next_of(c@, h.index as int)));
                    assert(halfedge_loop_ok(c@, prev_of(c@, h.index as int)));
                }
            }
            let origin = match c.halfedge_face(&h) {
                Some(_) => {
                    let n = c.halfedge_next(&h).unwrap();
                    let n2 = c.halfedge_next(&n).unwrap();
                    c.halfedge_vertex(&n2).unwrap()
                },
                None => {
                    let t = c.halfedge_twin(&h).unwrap();
                    c.halfedge_vertex(&t).unwrap()
                },
            };
            origin.index == v
        },
        None => true,
    }
}

/// Whether a store satisfies the invariants of a triangle mesh.
pub fn store_is_mesh(c: &ConnectivityInfo) -> (r: bool)
    ensures
        r == mesh_wf(c@),
{
    if !check_live(c) {
        return false;
    }
    let nh = c.halfedge_slots();
    let mut i: usize = 0;
    while i < nh
        invariant
            all_live(c@),
            nh == c@.halfedges.len(),
            i <= nh,
            forall|j: int| 0 <= j < i ==> #[trigger] halfedge_local_ok(c@, j),
        decreases nh - i,
    {
        if !check_local(c, i) {
            return false;
        }
        i = i + 1;
    }
    let mut i: usize = 0;
    while i < nh
        invariant
            all_live(c@),
            nh == c@.halfedges.len(),
            i <= nh,
            forall|j: int| 0 <= j < nh ==> #[trigger] halfedge_local_ok(c@, j),
            forall|j: int| 0 <= j < i ==> #[trigger] halfedge_loop_ok(c@, j),
            forall|j: int| 0 <= j < i ==> #[trigger] halfedge_twin_ok(c@, j),
        decreases nh - i,
    {
        if !check_halfedge(c, i) {
            return false;
        }
        i = i + 1;
    }
    let nf = c.face_slots();
    let mut f: usize = 0;
    while f < nf
        invariant
            all_live(c@),
            nf == c@.faces.len(),
            f <= nf,
            forall|j: int| 0 <= j < f ==> #[trigger] face_ok(c@, j),
        decreases nf - f,
    {
        if !check_face(c, f) {
            return false;
        }
        f = f + 1;
    }
    let nv = c.vertex_slots();
    let mut v: usize = 0;
    while v < nv
        invariant
            all_live(c@),
            nv == c@.vertices.len(),
            nh == c@.halfedges.len(),
            v <= nv,
            forall|j: int| 0 <= j < nh ==> #[trigger] halfedge_loop_ok(c@, j),
            forall|j: int| 0 <= j < nh ==> #[trigger] halfedge_twin_ok(c@, j),
            forall|j: int| 0 <= j < nv ==> #[trigger] vertex_ok(c@, j) || j >= v,
        decreases nv - v,
    {
        if !check_vertex(c, v) {
            return false;
        }
        v = v + 1;
    }
    true
}

/// A triangle mesh: the connectivity store of its vertices, half-edges and faces.
pub struct Mesh {
    pub(crate) connectivity_info: ConnectivityInfo,
}

impl View for Mesh {
    type V = ConnectivityView;

    closed spec fn view(&self) -> ConnectivityView {
        self.connectivity_info@
    }
}

/// The view of a mesh is the view of its store.
pub(crate) proof fn lemma_mesh_view(m: &Mesh)
    ensures
        m@ == m.connectivity_info@,
{
}

impl Mesh {
    pub open spec fn wf(&self) -> bool {
        mesh_wf(self@)
    }

    /// Whether the mesh satisfies the invariants of a triangle mesh: loops of
    /// three inside faces, twins that are each other's twin, and faces and
    /// vertices that name half-edges fitting them.
    pub fn is_valid(&self) -> (r: bool)
        ensures
            r == self.wf(),
    {
        proof {
            lemma_mesh_view(self);
        }
        store_is_mesh(&self.connectivity_info)
    }

    /// Builds a mesh from a triangle list: entries `3f, 3f + 1, 3f + 2` of
    /// `indices` name the corners of face `f` among `no_vertices` vertices.
    /// Every half-edge is paired with a twin that runs the other way along the
    /// same two vertices in another face; where there is none, a boundary
    /// half-edge is made for it. Trailing entries that make no whole triangle
    /// are ignored.
    pub fn new_with_connectivity(indices: &Vec<u32>, no_vertices: usize) -> (m: Mesh)
        requires
            indices_in_range(indices@, no_vertices as int),
            indices.len() < usize::MAX / 4,
        ensures
            m.wf(),
            m@.vertices.len() == no_vertices,
            m@.faces.len() == indices.len() / 3,
            3 * (indices.len() / 3) <= m@.halfedges.len() <= 6 * (indices.len() / 3),
            forall|f: int|
                0 <= f < indices.len() / 3 ==> #[trigger] face_is_triangle(m@, indices@, f),
            forall|i: int|
                3 * (indices.len() / 3) <= i < m@.halfedges.len() ==> !#[trigger] has_face(m@, i),
            forall|i: int, j: int|
                0 <= i < 3 * (indices.len() / 3) && 0 <= j < 3 * (indices.len() / 3)
                    && #[trigger] can_pair(m@, i, j) ==> has_face(m@, twin_of(m@, i)) || has_face(
                    m@,
                    twin_of(m@, j),
                ),
    {
        let mut c = ConnectivityInfo::new();
        let mut i: usize = 0;
        while i < no_vertices
            invariant
                i <= no_vertices,
                c@.vertices.len() == i,
                c@.halfedges.len() == 0,
                c@.faces.len() == 0,
                forall|v: int| 0 <= v < i ==> (#[trigger] c@.vertices[v]) == Some(
                    Vertex { id: VertexID { index: v as usize }, halfedge: None },
                ),
            decreases no_vertices - i,
        {
            c.create_vertex();
            i = i + 1;
        }
        let no_faces = indices.len() / 3;
        proof {
            assert(3 * no_faces <= indices.len()) by (nonlinear_arith)
                requires
                    no_faces == indices.len() / 3,
            ;
            lemma_store_fits(&c);
            assert forall|v: int| 0 <= v < no_vertices implies #[trigger] vertex_ok(c@, v) by {
                assert(c@.vertices[v] is Some);
            }
        }
        let mut f: usize = 0;
        while f < no_faces
            invariant
                f <= no_faces,
                no_faces == indices.len() / 3,
                3 * no_faces <= indices.len(),
                indices.len() < usize::MAX / 4,
                faces_built(c@, indices@, no_vertices as int, f as int),
            decreases no_faces - f,
        {
            let ghost before = c@;
            let v0 = VertexID::new(indices[3 * f] as usize);
            let v1 = VertexID::new(indices[3 * f + 1] as usize);
            let v2 = VertexID::new(indices[3 * f + 2] as usize);
            proof {
                assert(indices@[3 * f as int] < no_vertices);
                assert(indices@[3 * f + 1] < no_vertices);
                assert(indices@[3 * f + 2] < no_vertices);
            }
            add_triangle(&mut c, v0, v1, v2);
            proof {
                lemma_faces_built_step(before, c@, indices@, no_vertices as int, f as int);
            }
            f = f + 1;
        }
        create_twin_connectivity(
            &mut c,
            Ghost(indices@),
            Ghost(no_vertices as int),
            Ghost(no_faces as int),
        );
        let m = Mesh { connectivity_info: c };
        proof {
            lemma_mesh_view(&m);
        }
        m
    }
}

} // verus!
