use vstd::prelude::*;
use crate::ids::HalfEdgeID;
use crate::connectivity_info::ConnectivityView;
use crate::mesh::{
    Mesh, mesh_wf, next_of, prev_of, twin_of, vertex_of, has_face, halfedge_loop_ok,
    halfedge_twin_ok, face_ok,
};
use crate::traversal::{hole_jump, ring_step, face_at};
use crate::editing::{face_split_into, interior_edge_split_into, boundary_edge_split_into};

verus! {

/// Triangle closure: in every mesh that the public operations produce (each
/// of them keeps `wf`), three `next` steps from a half-edge inside a face
/// lead back to it.
pub proof fn lemma_triangle_closure(m: &Mesh, h: int)
    requires
        m.wf(),
        0 <= h < m@.halfedges.len(),
        has_face(m@, h),
    ensures
        next_of(m@, next_of(m@, next_of(m@, h))) == h,
        m@.he(h).next is Some,
{
    assert(halfedge_loop_ok(m@, h));
}

/// Twin symmetry: in every mesh that the public operations produce, every
/// half-edge has a twin, and the twin of its twin is the half-edge itself.
pub proof fn lemma_twin_symmetry(m: &Mesh, h: int)
    requires
        m.wf(),
        0 <= h < m@.halfedges.len(),
    ensures
        m@.he(h).twin is Some,
        0 <= twin_of(m@, h) < m@.halfedges.len(),
        twin_of(m@, twin_of(m@, h)) == h,
{
    assert(halfedge_twin_ok(m@, h));
}

/// Turning around the end vertex of a half-edge by `next` then `twin` keeps
/// to half-edges that end at that vertex.
proof fn lemma_hole_jump_ends_at(c: ConnectivityView, x: int, v: int, fuel: nat)
    requires
        mesh_wf(c),
        0 <= x < c.halfedges.len(),
        vertex_of(c, x) == v,
    ensures
        hole_jump(c, Some(HalfEdgeID { index: x as usize }), fuel) matches Some(y) && 0 <= y.index
            < c.halfedges.len() && vertex_of(c, y.index as int) == v,
    decreases fuel,
{
    assert(halfedge_loop_ok(c, x));
    if fuel > 0 && has_face(c, x) {
        let n = next_of(c, x);
        assert(halfedge_loop_ok(c, n));
        assert(halfedge_twin_ok(c, n));
        let y = twin_of(c, n);
        lemma_hole_jump_ends_at(c, y, v, (fuel - 1) as nat);
    }
}

/// The one-ring walk stays around its vertex: in every mesh that the public
/// operations produce, each step of the walk from a half-edge leads to a
/// half-edge that leaves the same vertex.
pub proof fn lemma_one_ring_step_leaves_same_vertex(m: &Mesh, h: int)
    requires
        m.wf(),
        0 <= h < m@.halfedges.len(),
    ensures
        ring_step(m@, Some(HalfEdgeID { index: h as usize })) matches Some(g) && 0 <= g.index
            < m@.halfedges.len() && vertex_of(m@, twin_of(m@, g.index as int)) == vertex_of(
            m@,
            twin_of(m@, h),
        ),
{
    let c = m@;
    assert(halfedge_loop_ok(c, h));
    assert(halfedge_twin_ok(c, h));
    let t = twin_of(c, h);
    assert(halfedge_loop_ok(c, t));
    assert(halfedge_twin_ok(c, t));
    if has_face(c, h) {
        let n = next_of(c, h);
        assert(halfedge_loop_ok(c, n));
        let p = prev_of(c, h);
        assert(halfedge_loop_ok(c, p));
        assert(halfedge_twin_ok(c, p));
        let g = twin_of(c, p);
        assert(halfedge_twin_ok(c, g));
    } else {
        lemma_hole_jump_ends_at(c, t, vertex_of(c, t), c.halfedges.len() as nat);
        let x = hole_jump(c, Some(HalfEdgeID { index: t as usize }), c.halfedges.len() as nat)->Some_0.index as int;
        assert(halfedge_loop_ok(c, x));
        assert(halfedge_twin_ok(c, x));
        let g = twin_of(c, x);
        assert(halfedge_twin_ok(c, g));
    }
}

/// Where the one-ring walk from `cur` stands after `k` steps.
pub open spec fn ring_walk(c: ConnectivityView, cur: Option<HalfEdgeID>, k: nat) -> Option<
    HalfEdgeID,
>
    decreases k,
{
    if k == 0 {
        cur
    } else {
        ring_step(c, ring_walk(c, cur, (k - 1) as nat))
    }
}

/// One-ring of a vertex made by a face split: it has three faces and no
/// boundary gap, and the one-ring walk from the half-edge that it names comes
/// back after exactly three steps, each on a half-edge inside a face.
pub proof fn lemma_split_face_one_ring(c: ConnectivityView, d: ConnectivityView, f: int)
    requires
        mesh_wf(c),
        0 <= f < c.faces.len(),
        c.vertices.len() + 1 <= usize::MAX,
        c.halfedges.len() + 6 <= usize::MAX,
        c.faces.len() + 2 <= usize::MAX,
        face_split_into(c, d, f),
    ensures
        ({
            let start = d.vtx(c.vertices.len() as int).halfedge;
            &&& start is Some
            &&& ring_walk(d, start, 1) != start
            &&& ring_walk(d, start, 2) != start
            &&& ring_walk(d, start, 3) == start
            &&& face_at(d, ring_walk(d, start, 0)) is Some
            &&& face_at(d, ring_walk(d, start, 1)) is Some
            &&& face_at(d, ring_walk(d, start, 2)) is Some
        }),
{
    let n = c.halfedges.len() as int;
    assert(face_ok(c, f));
    let h0 = c.fc(f).halfedge->Some_0.index as int;
    assert(halfedge_loop_ok(c, h0));
    let h1 = next_of(c, h0);
    assert(halfedge_loop_ok(c, h1));
    let h2 = next_of(c, h1);
    assert(halfedge_loop_ok(c, h2));
    let id = |k: int| Some(HalfEdgeID { index: k as usize });
    assert(d.halfedges[n + 1] is Some && d.halfedges[n + 3] is Some && d.halfedges[n + 5] is Some);
    assert(d.halfedges[n] is Some && d.halfedges[n + 2] is Some && d.halfedges[n + 4] is Some);
    assert(ring_walk(d, id(n + 1), 0) == id(n + 1));
    assert(ring_step(d, id(n + 1)) == id(n + 3));
    assert(ring_step(d, id(n + 3)) == id(n + 5));
    assert(ring_step(d, id(n + 5)) == id(n + 1));
    assert(ring_walk(d, id(n + 1), 1) == id(n + 3));
    assert(ring_walk(d, id(n + 1), 2) == id(n + 5));
    assert(ring_walk(d, id(n + 1), 3) == id(n + 1));
}

/// One-ring of a vertex made by splitting an edge between two faces: it has
/// four faces and no boundary gap, and the one-ring walk comes back after
/// exactly four steps, each on a half-edge inside a face.
pub proof fn lemma_split_interior_edge_one_ring(c: ConnectivityView, d: ConnectivityView, h: int)
    requires
        mesh_wf(c),
        0 <= h < c.halfedges.len(),
        has_face(c, h),
        has_face(c, twin_of(c, h)),
        c.vertices.len() + 1 <= usize::MAX,
        c.halfedges.len() + 6 <= usize::MAX,
        c.faces.len() + 2 <= usize::MAX,
        interior_edge_split_into(c, d, h),
    ensures
        ({
            let start = d.vtx(c.vertices.len() as int).halfedge;
            &&& start is Some
            &&& ring_walk(d, start, 1) != start
            &&& ring_walk(d, start, 2) != start
            &&& ring_walk(d, start, 3) != start
            &&& ring_walk(d, start, 4) == start
            &&& face_at(d, ring_walk(d, start, 0)) is Some
            &&& face_at(d, ring_walk(d, start, 1)) is Some
            &&& face_at(d, ring_walk(d, start, 2)) is Some
            &&& face_at(d, ring_walk(d, start, 3)) is Some
        }),
{
    let n = c.halfedges.len() as int;
    let t = twin_of(c, h);
    assert(halfedge_loop_ok(c, h));
    assert(halfedge_twin_ok(c, h));
    assert(halfedge_loop_ok(c, t));
    let hn = next_of(c, h);
    let hp = next_of(c, hn);
    let tn = next_of(c, t);
    let tp = next_of(c, tn);
    assert(halfedge_loop_ok(c, hn));
    assert(halfedge_loop_ok(c, hp));
    assert(halfedge_loop_ok(c, tn));
    assert(halfedge_loop_ok(c, tp));
    assert(t != hp && tp != hp && tn != hp && h != tp && hn != tp);
    assert(d.halfedges[hp] == c.halfedges[hp]);
    assert(d.halfedges[tp] == c.halfedges[tp]);
    let id = |k: int| Some(HalfEdgeID { index: k as usize });
    assert(ring_step(d, id(n + 2)) == id(n));
    assert(ring_step(d, id(n)) == id(n + 5));
    assert(ring_step(d, id(n + 5)) == id(n + 3));
    assert(ring_step(d, id(n + 3)) == id(n + 2));
    assert(ring_walk(d, id(n + 2), 0) == id(n + 2));
    assert(ring_walk(d, id(n + 2), 1) == id(n));
    assert(ring_walk(d, id(n + 2), 2) == id(n + 5));
    assert(ring_walk(d, id(n + 2), 3) == id(n + 3));
    assert(ring_walk(d, id(n + 2), 4) == id(n + 2));
}

/// One-ring of a vertex made by splitting an edge on the boundary: it has
/// two faces and one boundary gap, and the one-ring walk comes back after
/// exactly three steps, one of them across the gap.
pub proof fn lemma_split_boundary_edge_one_ring(c: ConnectivityView, d: ConnectivityView, h: int)
    requires
        mesh_wf(c),
        0 <= h < c.halfedges.len(),
        has_face(c, h),
        !has_face(c, twin_of(c, h)),
        c.vertices.len() + 1 <= usize::MAX,
        c.halfedges.len() + 4 <= usize::MAX,
        c.faces.len() + 1 <= usize::MAX,
        boundary_edge_split_into(c, d, h),
    ensures
        ({
            let start = d.vtx(c.vertices.len() as int).halfedge;
            &&& start is Some
            &&& ring_walk(d, start, 1) != start
            &&& ring_walk(d, start, 2) != start
            &&& ring_walk(d, start, 3) == start
            &&& face_at(d, ring_walk(d, start, 0)) is Some
            &&& face_at(d, ring_walk(d, start, 1)) is Some
            &&& face_at(d, ring_walk(d, start, 2)) is None
        }),
{
    let n = c.halfedges.len() as int;
    let t = twin_of(c, h);
    assert(halfedge_loop_ok(c, h));
    assert(halfedge_twin_ok(c, h));
    assert(halfedge_loop_ok(c, t));
    let hn = next_of(c, h);
    let hp = next_of(c, hn);
    assert(halfedge_loop_ok(c, hn));
    assert(halfedge_loop_ok(c, hp));
    assert(t != hp);
    assert(d.halfedges[hp] == c.halfedges[hp]);
    let id = |k: int| Some(HalfEdgeID { index: k as usize });
    let fuel = d.halfedges.len() as nat;
    assert(ring_step(d, id(n + 2)) == id(n));
    assert(ring_step(d, id(n)) == id(n + 3));
    assert(hole_jump(d, id(t), (fuel - 2) as nat) == id(t));
    assert(hole_jump(d, id(n + 1), (fuel - 1) as nat) == id(t));
    assert(hole_jump(d, id(h), fuel) == id(t));
    assert(ring_step(d, id(n + 3)) == id(n + 2));
    assert(ring_walk(d, id(n + 2), 0) == id(n + 2));
    assert(ring_walk(d, id(n + 2), 1) == id(n));
    assert(ring_walk(d, id(n + 2), 2) == id(n + 3));
    assert(ring_walk(d, id(n + 2), 3) == id(n + 2));
}

} // verus!
