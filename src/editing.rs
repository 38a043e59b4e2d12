use vstd::prelude::*;
use crate::ids::{VertexID, HalfEdgeID, FaceID};
use crate::connectivity_info::{ConnectivityView, HalfEdge, Vertex, lemma_store_fits};
use crate::mesh::{
    Mesh, mesh_wf, lemma_mesh_view, next_of, prev_of, twin_of, vertex_of, face_of, has_face,
    all_live, halfedge_loop_ok, halfedge_twin_ok, face_ok, vertex_ok,
};

verus! {

/// Facts about the three half-edges of a face in a well-formed mesh.
proof fn lemma_face_loop(c: ConnectivityView, f: int)
    requires
        mesh_wf(c),
        0 <= f < c.faces.len(),
    ensures
        ({
            let h0 = c.fc(f).halfedge->Some_0.index as int;
            let h1 = next_of(c, h0);
            let h2 = next_of(c, h1);
            &&& c.fc(f).halfedge is Some
            &&& 0 <= h0 < c.halfedges.len()
            &&& 0 <= h1 < c.halfedges.len()
            &&& 0 <= h2 < c.halfedges.len()
            &&& h0 != h1 && h1 != h2 && h0 != h2
            &&& next_of(c, h2) == h0
            &&& has_face(c, h0) && has_face(c, h1) && has_face(c, h2)
            &&& face_of(c, h0) == f && face_of(c, h1) == f && face_of(c, h2) == f
            &&& halfedge_loop_ok(c, h0) && halfedge_loop_ok(c, h1) && halfedge_loop_ok(c, h2)
            &&& halfedge_twin_ok(c, h0) && halfedge_twin_ok(c, h1) && halfedge_twin_ok(c, h2)
        }),
{
    assert(face_ok(c, f));
    let h0 = c.fc(f).halfedge->Some_0.index as int;
    assert(halfedge_loop_ok(c, h0));
    assert(halfedge_twin_ok(c, h0));
    let h1 = next_of(c, h0);
    assert(halfedge_loop_ok(c, h1));
    assert(halfedge_twin_ok(c, h1));
    let h2 = next_of(c, h1);
    assert(halfedge_loop_ok(c, h2));
    assert(halfedge_twin_ok(c, h2));
}

/// A half-edge inside a face that is not on the loop of `h` has its next
/// half-edges off that loop too.
proof fn lemma_off_loop(c: ConnectivityView, h: int, i: int)
    requires
        mesh_wf(c),
        0 <= h < c.halfedges.len(),
        0 <= i < c.halfedges.len(),
        has_face(c, h),
        has_face(c, i),
        i != h && i != next_of(c, h) && i != prev_of(c, h),
    ensures
        next_of(c, i) != h && next_of(c, i) != next_of(c, h) && next_of(c, i) != prev_of(c, h),
        prev_of(c, i) != h && prev_of(c, i) != next_of(c, h) && prev_of(c, i) != prev_of(c, h),
        0 <= next_of(c, i) < c.halfedges.len(),
        0 <= prev_of(c, i) < c.halfedges.len(),
        halfedge_loop_ok(c, next_of(c, i)),
        halfedge_loop_ok(c, prev_of(c, i)),
{
    assert(halfedge_loop_ok(c, h));
    assert(halfedge_loop_ok(c, next_of(c, h)));
    assert(halfedge_loop_ok(c, prev_of(c, h)));
    assert(halfedge_loop_ok(c, i));
    assert(halfedge_loop_ok(c, next_of(c, i)));
    assert(halfedge_loop_ok(c, prev_of(c, i)));
}

/// `d` is `c` after face `f` was split at a new vertex: the exact records
/// that `split_face` leaves behind.
pub open spec fn face_split_into(c: ConnectivityView, d: ConnectivityView, f: int) -> bool {
    let n = c.halfedges.len() as int;
    let nf = c.faces.len() as int;
    let p = c.vertices.len() as int;
    let h0 = c.fc(f).halfedge->Some_0.index as int;
    let h1 = next_of(c, h0);
    let h2 = next_of(c, h1);
    let a = c.he(h2).vertex;
    let b = c.he(h0).vertex;
    let cc = c.he(h1).vertex;
    let vp = Some(VertexID { index: p as usize });
    let fid = Some(FaceID { index: f as usize });
    let f1 = Some(FaceID { index: nf as usize });
    let f2 = Some(FaceID { index: (nf + 1) as usize });
    let e = |k: int| Some(HalfEdgeID { index: (n + k) as usize });
    &&& d.vertices.len() == p + 1
    &&& d.faces.len() == nf + 2
    &&& d.halfedges.len() == n + 6
    &&& forall|v: int| 0 <= v < p ==> #[trigger] d.vertices[v] == c.vertices[v]
    &&& d.vertices[p] is Some
    &&& d.vtx(p).halfedge == e(1)
    &&& forall|g: int| 0 <= g < nf ==> #[trigger] d.faces[g] == c.faces[g]
    &&& d.faces[nf] is Some
    &&& d.faces[nf + 1] is Some
    &&& d.fc(nf).halfedge == Some(HalfEdgeID { index: h1 as usize })
    &&& d.fc(nf + 1).halfedge == Some(HalfEdgeID { index: h2 as usize })
    &&& forall|i: int|
        0 <= i < n && i != h0 && i != h1 && i != h2 ==> #[trigger] d.halfedges[i]
            == c.halfedges[i]
    &&& forall|i: int| n <= i < n + 6 ==> #[trigger] d.halfedges[i] is Some
    &&& d.halfedges[h0] is Some
    &&& d.halfedges[h1] is Some
    &&& d.halfedges[h2] is Some
    &&& d.he(h0) == HalfEdge { next: e(0), ..c.he(h0) }
    &&& d.he(h1) == HalfEdge { next: e(2), face: f1, ..c.he(h1) }
    &&& d.he(h2) == HalfEdge { next: e(4), face: f2, ..c.he(h2) }
    &&& d.he(n).vertex == vp && d.he(n).twin == e(3) && d.he(n).next == e(1)
        && d.he(n).face == fid
    &&& d.he(n + 1).vertex == a && d.he(n + 1).twin == e(4) && d.he(n + 1).next == Some(
        HalfEdgeID { index: h0 as usize },
    ) && d.he(n + 1).face == fid
    &&& d.he(n + 2).vertex == vp && d.he(n + 2).twin == e(5) && d.he(n + 2).next == e(3)
        && d.he(n + 2).face == f1
    &&& d.he(n + 3).vertex == b && d.he(n + 3).twin == e(0) && d.he(n + 3).next == Some(
        HalfEdgeID { index: h1 as usize },
    ) && d.he(n + 3).face == f1
    &&& d.he(n + 4).vertex == vp && d.he(n + 4).twin == e(1) && d.he(n + 4).next == e(5)
        && d.he(n + 4).face == f2
    &&& d.he(n + 5).vertex == cc && d.he(n + 5).twin == e(2) && d.he(n + 5).next == Some(
        HalfEdgeID { index: h2 as usize },
    ) && d.he(n + 5).face == f2
}

/// `d` is `c` after the edge of half-edge `h`, which has faces on both
/// sides, was split at a new vertex: the exact records that `split_edge`
/// leaves behind.
pub open spec fn interior_edge_split_into(c: ConnectivityView, d: ConnectivityView, h: int) -> bool {
    let n = c.halfedges.len() as int;
    let nf = c.faces.len() as int;
    let p = c.vertices.len() as int;
    let t = twin_of(c, h);
    let hn = next_of(c, h);
    let hp = next_of(c, hn);
    let tn = next_of(c, t);
    let tp = next_of(c, tn);
    let ff = face_of(c, h);
    let gg = face_of(c, t);
    let vp = Some(VertexID { index: p as usize });
    let id = |k: int| Some(HalfEdgeID { index: k as usize });
    let fc = |k: int| Some(FaceID { index: k as usize });
    &&& d.vertices.len() == p + 1
    &&& d.faces.len() == nf + 2
    &&& d.halfedges.len() == n + 6
    &&& forall|v: int| 0 <= v < p ==> #[trigger] d.vertices[v] == c.vertices[v]
    &&& d.vertices[p] is Some
    &&& d.vtx(p).halfedge == id(n + 2)
    &&& forall|g: int|
        0 <= g < nf && g != ff && g != gg ==> #[trigger] d.faces[g] == c.faces[g]
    &&& forall|g: int| 0 <= g < nf + 2 ==> #[trigger] d.faces[g] is Some
    &&& d.fc(ff).halfedge == id(h)
    &&& d.fc(gg).halfedge == id(t)
    &&& d.fc(nf).halfedge == id(hn)
    &&& d.fc(nf + 1).halfedge == id(tn)
    &&& forall|i: int|
        0 <= i < n && i != h && i != hn && i != t && i != tn ==> #[trigger] d.halfedges[i]
            == c.halfedges[i]
    &&& forall|i: int| 0 <= i < n + 6 ==> #[trigger] d.halfedges[i] is Some
    &&& d.he(h) == HalfEdge { vertex: vp, twin: id(n + 5), next: id(n), ..c.he(h) }
    &&& d.he(hn) == HalfEdge { next: id(n + 1), face: fc(nf), ..c.he(hn) }
    &&& d.he(t) == HalfEdge { vertex: vp, twin: id(n + 2), next: id(n + 3), ..c.he(t) }
    &&& d.he(tn) == HalfEdge { next: id(n + 4), face: fc(nf + 1), ..c.he(tn) }
    &&& d.he(n).vertex == c.he(hn).vertex && d.he(n).twin == id(n + 1) && d.he(n).next
        == id(hp) && d.he(n).face == fc(ff)
    &&& d.he(n + 1).vertex == vp && d.he(n + 1).twin == id(n) && d.he(n + 1).next == id(
        n + 2,
    ) && d.he(n + 1).face == fc(nf)
    &&& d.he(n + 2).vertex == c.he(h).vertex && d.he(n + 2).twin == id(t) && d.he(
        n + 2,
    ).next == id(hn) && d.he(n + 2).face == fc(nf)
    &&& d.he(n + 3).vertex == c.he(tn).vertex && d.he(n + 3).twin == id(n + 4) && d.he(
        n + 3,
    ).next == id(tp) && d.he(n + 3).face == fc(gg)
    &&& d.he(n + 4).vertex == vp && d.he(n + 4).twin == id(n + 3) && d.he(n + 4).next
        == id(n + 5) && d.he(n + 4).face == fc(nf + 1)
    &&& d.he(n + 5).vertex == c.he(t).vertex && d.he(n + 5).twin == id(h) && d.he(
        n + 5,
    ).next == id(tn) && d.he(n + 5).face == fc(nf + 1)
}

/// `d` is `c` after the edge of half-edge `h`, which has a face on its side
/// only, was split at a new vertex: the exact records that `split_edge`
/// leaves behind.
pub open spec fn boundary_edge_split_into(c: ConnectivityView, d: ConnectivityView, h: int) -> bool {
    let n = c.halfedges.len() as int;
    let nf = c.faces.len() as int;
    let p = c.vertices.len() as int;
    let t = twin_of(c, h);
    let hn = next_of(c, h);
    let hp = next_of(c, hn);
    let ff = face_of(c, h);
    let vp = Some(VertexID { index: p as usize });
    let id = |k: int| Some(HalfEdgeID { index: k as usize });
    let fc = |k: int| Some(FaceID { index: k as usize });
    &&& d.vertices.len() == p + 1
    &&& d.faces.len() == nf + 1
    &&& d.halfedges.len() == n + 4
    &&& forall|v: int| 0 <= v < p ==> #[trigger] d.vertices[v] == c.vertices[v]
    &&& d.vertices[p] is Some
    &&& d.vtx(p).halfedge == id(n + 2)
    &&& forall|g: int| 0 <= g < nf && g != ff ==> #[trigger] d.faces[g] == c.faces[g]
    &&& forall|g: int| 0 <= g < nf + 1 ==> #[trigger] d.faces[g] is Some
    &&& d.fc(ff).halfedge == id(h)
    &&& d.fc(nf).halfedge == id(hn)
    &&& forall|i: int|
        0 <= i < n && i != h && i != hn && i != t ==> #[trigger] d.halfedges[i]
            == c.halfedges[i]
    &&& forall|i: int| 0 <= i < n + 4 ==> #[trigger] d.halfedges[i] is Some
    &&& d.he(h) == HalfEdge { vertex: vp, twin: id(n + 3), next: id(n), ..c.he(h) }
    &&& d.he(hn) == HalfEdge { next: id(n + 1), face: fc(nf), ..c.he(hn) }
    &&& d.he(t).vertex == vp && d.he(t).twin == id(n + 2) && d.he(t).face is None
    &&& d.he(n).vertex == c.he(hn).vertex && d.he(n).twin == id(n + 1) && d.he(n).next
        == id(hp) && d.he(n).face == fc(ff)
    &&& d.he(n + 1).vertex == vp && d.he(n + 1).twin == id(n) && d.he(n + 1).next == id(
        n + 2,
    ) && d.he(n + 1).face == fc(nf)
    &&& d.he(n + 2).vertex == c.he(h).vertex && d.he(n + 2).twin == id(t) && d.he(
        n + 2,
    ).next == id(hn) && d.he(n + 2).face == fc(nf)
    &&& d.he(n + 3).vertex == c.he(t).vertex && d.he(n + 3).twin == id(h) && d.he(
        n + 3,
    ).face is None
}

/// The store after a face split satisfies the mesh invariants.
proof fn lemma_split_face_wf(c: ConnectivityView, d: ConnectivityView, f: int)
    requires
        mesh_wf(c),
        0 <= f < c.faces.len(),
        c.vertices.len() + 1 <= usize::MAX,
        c.halfedges.len() + 6 <= usize::MAX,
        c.faces.len() + 2 <= usize::MAX,
        face_split_into(c, d, f),
    ensures
        mesh_wf(d),
{
    let n = c.halfedges.len() as int;
    let nf = c.faces.len() as int;
    let p = c.vertices.len() as int;
    lemma_face_loop(c, f);
    let h0 = c.fc(f).halfedge->Some_0.index as int;
    let h1 = next_of(c, h0);
    let h2 = next_of(c, h1);
    assert(next_of(d, n) == n + 1);
    assert(next_of(d, n + 1) == h0);
    assert(next_of(d, n + 2) == n + 3);
    assert(next_of(d, n + 3) == h1);
    assert(next_of(d, n + 4) == n + 5);
    assert(next_of(d, n + 5) == h2);
    assert(next_of(d, h0) == n);
    assert(next_of(d, h1) == n + 2);
    assert(next_of(d, h2) == n + 4);
    assert(all_live(d)) by {
        assert forall|i: int| 0 <= i < d.halfedges.len() implies #[trigger] d.halfedges[i] is Some by {
            if i < n && i != h0 && i != h1 && i != h2 {
                assert(d.halfedges[i] == c.halfedges[i]);
            }
        }
        assert forall|i: int| 0 <= i < d.vertices.len() implies #[trigger] d.vertices[i] is Some by {
            if i < p {
                assert(d.vertices[i] == c.vertices[i]);
            }
        }
        assert forall|i: int| 0 <= i < d.faces.len() implies #[trigger] d.faces[i] is Some by {
            if i < nf {
                assert(d.faces[i] == c.faces[i]);
            }
        }
    }
    assert forall|i: int| 0 <= i < d.halfedges.len() implies #[trigger] halfedge_loop_ok(d, i) by {
        if i < n && i != h0 && i != h1 && i != h2 {
            assert(halfedge_loop_ok(c, i));
            assert(d.he(i) == c.he(i));
            if has_face(c, i) {
                lemma_off_loop(c, h0, i);
                assert(d.he(next_of(c, i)) == c.he(next_of(c, i)));
                assert(d.he(prev_of(c, i)) == c.he(prev_of(c, i)));
            }
        }
    }
    assert forall|i: int| 0 <= i < d.halfedges.len() implies #[trigger] halfedge_twin_ok(d, i) by {
        if i < n && i != h0 && i != h1 && i != h2 {
            assert(halfedge_loop_ok(c, i));
            assert(halfedge_twin_ok(c, i));
            assert(d.he(i) == c.he(i));
            let t = twin_of(c, i);
            if t != h0 && t != h1 && t != h2 {
                assert(d.he(t) == c.he(t));
            }
            if has_face(c, i) {
                lemma_off_loop(c, h0, i);
                assert(d.he(next_of(c, i)) == c.he(next_of(c, i)));
                assert(d.he(prev_of(c, i)) == c.he(prev_of(c, i)));
            }
        } else if i == h0 || i == h1 || i == h2 {
            let t = twin_of(c, i);
            assert(halfedge_twin_ok(c, t));
            assert(halfedge_loop_ok(c, t));
            assert(t != h0 && t != h1 && t != h2);
            assert(d.he(t) == c.he(t));
            if has_face(c, t) {
                lemma_off_loop(c, h0, t);
                assert(d.he(next_of(c, t)) == c.he(next_of(c, t)));
                assert(d.he(prev_of(c, t)) == c.he(prev_of(c, t)));
            }
        }
    }
    assert forall|g: int| 0 <= g < d.faces.len() implies #[trigger] face_ok(d, g) by {
        if g < nf {
            assert(face_ok(c, g));
            assert(d.faces[g] == c.faces[g]);
            let hg = c.fc(g).halfedge->Some_0.index as int;
            if g != f {
                assert(hg != h0 && hg != h1 && hg != h2);
                assert(d.he(hg) == c.he(hg));
            }
        }
    }
    assert forall|v: int| 0 <= v < d.vertices.len() implies #[trigger] vertex_ok(d, v) by {
        if v < p {
            assert(vertex_ok(c, v));
            assert(d.vertices[v] == c.vertices[v]);
            if let Some(hv) = c.vtx(v).halfedge {
                let i = hv.index as int;
                assert(halfedge_loop_ok(c, i));
                assert(halfedge_twin_ok(c, i));
                if i != h0 && i != h1 && i != h2 {
                    assert(d.he(i) == c.he(i));
                    if has_face(c, i) {
                        lemma_off_loop(c, h0, i);
                        assert(d.he(prev_of(c, i)) == c.he(prev_of(c, i)));
                        assert(d.he(next_of(c, i)) == c.he(next_of(c, i)));
                    } else {
                        let t = twin_of(c, i);
                        assert(halfedge_twin_ok(c, t));
                        assert(d.he(t) == c.he(t) || t == h0 || t == h1 || t == h2);
                    }
                }
            }
        }
    }
}

/// The store after splitting an edge between two faces satisfies the mesh
/// invariants.
proof fn lemma_split_interior_edge_wf(c: ConnectivityView, d: ConnectivityView, h: int)
    requires
        mesh_wf(c),
        0 <= h < c.halfedges.len(),
        has_face(c, h),
        has_face(c, twin_of(c, h)),
        c.vertices.len() + 1 <= usize::MAX,
        c.halfedges.len() + 6 <= usize::MAX,
        c.faces.len() + 2 <= usize::MAX,
        interior_edge_split_into(c, d, h),
    ensures
        mesh_wf(d),
{
    let n = c.halfedges.len() as int;
    let nf = c.faces.len() as int;
    let p = c.vertices.len() as int;
    let t = twin_of(c, h);
    assert(halfedge_loop_ok(c, h));
    assert(halfedge_twin_ok(c, h));
    assert(halfedge_loop_ok(c, t));
    assert(halfedge_twin_ok(c, t));
    let hn = next_of(c, h);
    let hp = next_of(c, hn);
    let tn = next_of(c, t);
    let tp = next_of(c, tn);
    assert(halfedge_loop_ok(c, hn));
    assert(halfedge_loop_ok(c, hp));
    assert(halfedge_loop_ok(c, tn));
    assert(halfedge_loop_ok(c, tp));
    assert(halfedge_twin_ok(c, hn));
    assert(halfedge_twin_ok(c, hp));
    assert(halfedge_twin_ok(c, tn));
    assert(halfedge_twin_ok(c, tp));
    let ff = face_of(c, h);
    let gg = face_of(c, t);
    assert(face_ok(c, ff));
    assert(face_ok(c, gg));
    // the two loops are disjoint
    assert(t != h && t != hn && t != hp);
    assert(tn != h && tn != hn && tn != hp);
    assert(tp != h && tp != hn && tp != hp);
    assert(d.he(hp) == c.he(hp));
    assert(d.he(tp) == c.he(tp));
    assert(all_live(d)) by {
        assert forall|i: int| 0 <= i < d.vertices.len() implies #[trigger] d.vertices[i] is Some by {
            if i < p {
                assert(d.vertices[i] == c.vertices[i]);
            }
        }
    }
    assert forall|i: int| 0 <= i < d.halfedges.len() implies #[trigger] halfedge_loop_ok(d, i) by {
        if i < n && i != h && i != hn && i != hp && i != t && i != tn && i != tp {
            assert(halfedge_loop_ok(c, i));
            assert(d.he(i) == c.he(i));
            if has_face(c, i) {
                lemma_off_loop(c, h, i);
                lemma_off_loop(c, t, i);
                assert(d.he(next_of(c, i)) == c.he(next_of(c, i)));
                assert(d.he(prev_of(c, i)) == c.he(prev_of(c, i)));
            }
        }
    }
    assert forall|i: int| 0 <= i < d.halfedges.len() implies #[trigger] halfedge_twin_ok(d, i) by {
        if i < n && i != h && i != hn && i != hp && i != t && i != tn && i != tp {
            assert(halfedge_loop_ok(c, i));
            assert(halfedge_twin_ok(c, i));
            assert(d.he(i) == c.he(i));
            let u = twin_of(c, i);
            assert(u != h && u != t);
            if u != hn && u != tn {
                assert(d.he(u) == c.he(u));
            }
            if has_face(c, i) {
                lemma_off_loop(c, h, i);
                lemma_off_loop(c, t, i);
                assert(d.he(next_of(c, i)) == c.he(next_of(c, i)));
                assert(d.he(prev_of(c, i)) == c.he(prev_of(c, i)));
            }
        } else if i == hn || i == hp || i == tn || i == tp {
            let u = twin_of(c, i);
            assert(halfedge_twin_ok(c, u));
            assert(halfedge_loop_ok(c, u));
            assert(u != h && u != t);
            if u != hn && u != hp && u != tn && u != tp {
                assert(d.he(u) == c.he(u));
                if has_face(c, u) {
                    lemma_off_loop(c, h, u);
                    lemma_off_loop(c, t, u);
                    assert(d.he(next_of(c, u)) == c.he(next_of(c, u)));
                    assert(d.he(prev_of(c, u)) == c.he(prev_of(c, u)));
                }
            }
        }
    }
    assert forall|g: int| 0 <= g < d.faces.len() implies #[trigger] face_ok(d, g) by {
        if g < nf && g != ff && g != gg {
            assert(face_ok(c, g));
            assert(d.faces[g] == c.faces[g]);
            let hg = c.fc(g).halfedge->Some_0.index as int;
            assert(hg != h && hg != hn && hg != hp && hg != t && hg != tn && hg != tp);
            assert(d.he(hg) == c.he(hg));
        }
    }
    assert forall|v: int| 0 <= v < d.vertices.len() implies #[trigger] vertex_ok(d, v) by {
        if v < p {
            assert(vertex_ok(c, v));
            assert(d.vertices[v] == c.vertices[v]);
            if let Some(hv) = c.vtx(v).halfedge {
                let i = hv.index as int;
                assert(halfedge_loop_ok(c, i));
                assert(halfedge_twin_ok(c, i));
                if i != h && i != hn && i != hp && i != t && i != tn && i != tp {
                    assert(d.he(i) == c.he(i));
                    if has_face(c, i) {
                        lemma_off_loop(c, h, i);
                        lemma_off_loop(c, t, i);
                        assert(d.he(prev_of(c, i)) == c.he(prev_of(c, i)));
                        assert(d.he(next_of(c, i)) == c.he(next_of(c, i)));
                    } else {
                        let u = twin_of(c, i);
                        assert(halfedge_twin_ok(c, u));
                        assert(d.he(u) == c.he(u) || u == hn || u == tn || u == hp || u == tp);
                    }
                }
            }
        }
    }
}

/// The store after splitting an edge on the boundary satisfies the mesh
/// invariants.
proof fn lemma_split_boundary_edge_wf(c: ConnectivityView, d: ConnectivityView, h: int)
    requires
        mesh_wf(c),
        0 <= h < c.halfedges.len(),
        has_face(c, h),
        !has_face(c, twin_of(c, h)),
        c.vertices.len() + 1 <= usize::MAX,
        c.halfedges.len() + 4 <= usize::MAX,
        c.faces.len() + 1 <= usize::MAX,
        boundary_edge_split_into(c, d, h),
    ensures
        mesh_wf(d),
{
    let n = c.halfedges.len() as int;
    let nf = c.faces.len() as int;
    let p = c.vertices.len() as int;
    let t = twin_of(c, h);
    assert(halfedge_loop_ok(c, h));
    assert(halfedge_twin_ok(c, h));
    assert(halfedge_loop_ok(c, t));
    assert(halfedge_twin_ok(c, t));
    let hn = next_of(c, h);
    let hp = next_of(c, hn);
    assert(halfedge_loop_ok(c, hn));
    assert(halfedge_loop_ok(c, hp));
    assert(halfedge_twin_ok(c, hn));
    assert(halfedge_twin_ok(c, hp));
    let ff = face_of(c, h);
    assert(face_ok(c, ff));
    assert(t != hn && t != hp);
    assert(d.he(hp) == c.he(hp));
    assert(all_live(d)) by {
        assert forall|i: int| 0 <= i < d.vertices.len() implies #[trigger] d.vertices[i] is Some by {
            if i < p {
                assert(d.vertices[i] == c.vertices[i]);
            }
        }
    }
    assert forall|i: int| 0 <= i < d.halfedges.len() implies #[trigger] halfedge_loop_ok(d, i) by {
        if i < n && i != h && i != hn && i != hp && i != t {
            assert(halfedge_loop_ok(c, i));
            assert(d.he(i) == c.he(i));
            if has_face(c, i) {
                lemma_off_loop(c, h, i);
                assert(next_of(c, i) != t);
                assert(prev_of(c, i) != t);
                assert(d.he(next_of(c, i)) == c.he(next_of(c, i)));
                assert(d.he(prev_of(c, i)) == c.he(prev_of(c, i)));
            }
        }
    }
    assert forall|i: int| 0 <= i < d.halfedges.len() implies #[trigger] halfedge_twin_ok(d, i) by {
        if i < n && i != h && i != hn && i != hp && i != t {
            assert(halfedge_loop_ok(c, i));
            assert(halfedge_twin_ok(c, i));
            assert(d.he(i) == c.he(i));
            let u = twin_of(c, i);
            assert(u != h && u != t);
            if u != hn {
                assert(d.he(u) == c.he(u));
            }
            if has_face(c, i) {
                lemma_off_loop(c, h, i);
                assert(next_of(c, i) != t);
                assert(prev_of(c, i) != t);
                assert(d.he(next_of(c, i)) == c.he(next_of(c, i)));
                assert(d.he(prev_of(c, i)) == c.he(prev_of(c, i)));
            }
        } else if i == hn || i == hp {
            let u = twin_of(c, i);
            assert(halfedge_twin_ok(c, u));
            assert(halfedge_loop_ok(c, u));
            assert(u != h && u != t && u != hn && u != hp);
            assert(d.he(u) == c.he(u));
            if has_face(c, u) {
                lemma_off_loop(c, h, u);
                assert(next_of(c, u) != t);
                assert(prev_of(c, u) != t);
                assert(d.he(next_of(c, u)) == c.he(next_of(c, u)));
                assert(d.he(prev_of(c, u)) == c.he(prev_of(c, u)));
            }
        }
    }
    assert forall|g: int| 0 <= g < d.faces.len() implies #[trigger] face_ok(d, g) by {
        if g < nf && g != ff {
            assert(face_ok(c, g));
            assert(d.faces[g] == c.faces[g]);
            let hg = c.fc(g).halfedge->Some_0.index as int;
            assert(hg != h && hg != hn && hg != hp && hg != t);
            assert(d.he(hg) == c.he(hg));
        }
    }
    assert forall|v: int| 0 <= v < d.vertices.len() implies #[trigger] vertex_ok(d, v) by {
        if v < p {
            assert(vertex_ok(c, v));
            assert(d.vertices[v] == c.vertices[v]);
            if let Some(hv) = c.vtx(v).halfedge {
                let i = hv.index as int;
                assert(halfedge_loop_ok(c, i));
                assert(halfedge_twin_ok(c, i));
                if i != h && i != hn && i != hp && i != t {
                    assert(d.he(i) == c.he(i));
                    if has_face(c, i) {
                        lemma_off_loop(c, h, i);
                        assert(next_of(c, i) != t);
                        assert(prev_of(c, i) != t);
                        assert(d.he(prev_of(c, i)) == c.he(prev_of(c, i)));
                        assert(d.he(next_of(c, i)) == c.he(next_of(c, i)));
                    } else {
                        let u = twin_of(c, i);
                        assert(halfedge_twin_ok(c, u));
                        assert(d.he(u) == c.he(u) || u == hn || u == hp);
                    }
                }
            }
        }
    }
}

/// Two half-edges inside the same face lie on the same loop.
proof fn lemma_same_face_same_loop(c: ConnectivityView, h: int, i: int)
    requires
        mesh_wf(c),
        0 <= h < c.halfedges.len(),
        0 <= i < c.halfedges.len(),
        has_face(c, h),
        has_face(c, i),
        face_of(c, h) == face_of(c, i),
    ensures
        i == h || i == next_of(c, h) || i == prev_of(c, h),
{
    assert(halfedge_loop_ok(c, h));
    assert(halfedge_loop_ok(c, next_of(c, h)));
    assert(halfedge_loop_ok(c, prev_of(c, h)));
    assert(halfedge_loop_ok(c, i));
    assert(halfedge_loop_ok(c, next_of(c, i)));
    assert(halfedge_loop_ok(c, prev_of(c, i)));
}

/// The corners opposite an edge between two faces differ from each other and
/// from the ends of the edge, so that turning the edge gives two triangles.
pub open spec fn flip_is_proper(c: ConnectivityView, h: int) -> bool {
    let t = twin_of(c, h);
    let opposite = vertex_of(c, next_of(c, h));
    has_face(c, h) && has_face(c, t) ==> {
        &&& opposite != vertex_of(c, next_of(c, t))
        &&& opposite != vertex_of(c, h)
        &&& opposite != vertex_of(c, t)
    }
}

/// The store after turning an edge satisfies the mesh invariants.
proof fn lemma_flip_edge_wf(c: ConnectivityView, d: ConnectivityView, h: int)
    requires
        mesh_wf(c),
        0 <= h < c.halfedges.len(),
        has_face(c, h),
        has_face(c, twin_of(c, h)),
        flip_is_proper(c, h),
        ({
            let t = twin_of(c, h);
            let hn = next_of(c, h);
            let hp = next_of(c, hn);
            let tn = next_of(c, t);
            let tp = next_of(c, tn);
            let ff = face_of(c, h);
            let gg = face_of(c, t);
            let a = vertex_of(c, t);
            let b = vertex_of(c, h);
            let id = |k: int| Some(HalfEdgeID { index: k as usize });
            let s0 = c.vertices.update(b, Some(Vertex { halfedge: id(hn), ..c.vtx(b) }));
            &&& d.vertices == s0.update(a, Some(Vertex { halfedge: id(tn), ..s0[a]->Some_0 }))
            &&& d.faces.len() == c.faces.len()
            &&& forall|g: int|
                0 <= g < c.faces.len() && g != ff && g != gg ==> #[trigger] d.faces[g]
                    == c.faces[g]
            &&& d.faces[ff] is Some
            &&& d.faces[gg] is Some
            &&& d.fc(ff).halfedge == id(hp)
            &&& d.fc(gg).halfedge == id(tp)
            &&& d.halfedges.len() == c.halfedges.len()
            &&& forall|i: int|
                0 <= i < c.halfedges.len() && i != h && i != hn && i != hp && i != t && i != tn
                    && i != tp ==> #[trigger] d.halfedges[i] == c.halfedges[i]
            &&& forall|i: int| 0 <= i < c.halfedges.len() ==> #[trigger] d.halfedges[i] is Some
            &&& d.he(h) == HalfEdge { next: id(hp), vertex: c.he(hn).vertex, ..c.he(h) }
            &&& d.he(hn) == HalfEdge { next: id(t), face: c.he(t).face, ..c.he(hn) }
            &&& d.he(hp) == HalfEdge { next: id(tn), ..c.he(hp) }
            &&& d.he(t) == HalfEdge { next: id(tp), vertex: c.he(tn).vertex, ..c.he(t) }
            &&& d.he(tn) == HalfEdge { next: id(h), face: c.he(h).face, ..c.he(tn) }
            &&& d.he(tp) == HalfEdge { next: id(hn), ..c.he(tp) }
        }),
    ensures
        mesh_wf(d),
{
    let t = twin_of(c, h);
    assert(halfedge_loop_ok(c, h));
    assert(halfedge_twin_ok(c, h));
    assert(halfedge_loop_ok(c, t));
    assert(halfedge_twin_ok(c, t));
    let hn = next_of(c, h);
    let hp = next_of(c, hn);
    let tn = next_of(c, t);
    let tp = next_of(c, tn);
    assert(halfedge_loop_ok(c, hn));
    assert(halfedge_loop_ok(c, hp));
    assert(halfedge_loop_ok(c, tn));
    assert(halfedge_loop_ok(c, tp));
    assert(halfedge_twin_ok(c, hn));
    assert(halfedge_twin_ok(c, hp));
    assert(halfedge_twin_ok(c, tn));
    assert(halfedge_twin_ok(c, tp));
    let ff = face_of(c, h);
    let gg = face_of(c, t);
    let a = vertex_of(c, t);
    let b = vertex_of(c, h);
    assert(face_ok(c, ff));
    assert(face_ok(c, gg));
    assert(t != h && t != hn && t != hp);
    assert(tn != h && tn != hn && tn != hp);
    assert(tp != h && tp != hn && tp != hp);
    let uhn = twin_of(c, hn);
    let uhp = twin_of(c, hp);
    let utn = twin_of(c, tn);
    let utp = twin_of(c, tp);
    assert(uhn != h && uhn != hn && uhn != hp && uhn != t && uhn != tn && uhn != tp);
    assert(uhp != h && uhp != hn && uhp != hp && uhp != t && uhp != tn && uhp != tp);
    assert(utn != h && utn != hn && utn != hp && utn != t && utn != tn && utn != tp);
    assert(utp != h && utp != hn && utp != hp && utp != t && utp != tn && utp != tp);
    assert(all_live(d)) by {
        assert forall|i: int| 0 <= i < d.vertices.len() implies #[trigger] d.vertices[i] is Some by {
            assert(c.vertices[i] is Some);
        }
    }
    assert forall|i: int| 0 <= i < d.halfedges.len() implies #[trigger] halfedge_loop_ok(d, i) by {
        if i != h && i != hn && i != hp && i != t && i != tn && i != tp {
            assert(halfedge_loop_ok(c, i));
            assert(d.he(i) == c.he(i));
            if has_face(c, i) {
                lemma_off_loop(c, h, i);
                lemma_off_loop(c, t, i);
                assert(d.he(next_of(c, i)) == c.he(next_of(c, i)));
                assert(d.he(prev_of(c, i)) == c.he(prev_of(c, i)));
                if face_of(c, i) == ff {
                    lemma_same_face_same_loop(c, h, i);
                }
                if face_of(c, i) == gg {
                    lemma_same_face_same_loop(c, t, i);
                }
            }
        }
    }
    assert forall|i: int| 0 <= i < d.halfedges.len() implies #[trigger] halfedge_twin_ok(d, i) by {
        if i != h && i != hn && i != hp && i != t && i != tn && i != tp {
            assert(halfedge_loop_ok(c, i));
            assert(halfedge_twin_ok(c, i));
            assert(d.he(i) == c.he(i));
            let u = twin_of(c, i);
            assert(u != h && u != t);
            if u != hn && u != hp && u != tn && u != tp {
                assert(d.he(u) == c.he(u));
            }
            if has_face(c, i) {
                lemma_off_loop(c, h, i);
                lemma_off_loop(c, t, i);
                assert(d.he(next_of(c, i)) == c.he(next_of(c, i)));
                assert(d.he(prev_of(c, i)) == c.he(prev_of(c, i)));
                if face_of(c, i) == ff {
                    lemma_same_face_same_loop(c, h, i);
                }
                if face_of(c, i) == gg {
                    lemma_same_face_same_loop(c, t, i);
                }
            }
        } else if i == hn || i == hp || i == tn || i == tp {
            let u = twin_of(c, i);
            assert(halfedge_twin_ok(c, u));
            assert(halfedge_loop_ok(c, u));
            assert(d.he(u) == c.he(u));
            if has_face(c, u) {
                lemma_off_loop(c, h, u);
                lemma_off_loop(c, t, u);
                assert(d.he(next_of(c, u)) == c.he(next_of(c, u)));
                assert(d.he(prev_of(c, u)) == c.he(prev_of(c, u)));
                if face_of(c, u) == ff {
                    lemma_same_face_same_loop(c, h, u);
                }
                if face_of(c, u) == gg {
                    lemma_same_face_same_loop(c, t, u);
                }
            }
        }
    }
    assert forall|g: int| 0 <= g < d.faces.len() implies #[trigger] face_ok(d, g) by {
        if g != ff && g != gg {
            assert(face_ok(c, g));
            assert(d.faces[g] == c.faces[g]);
            let hg = c.fc(g).halfedge->Some_0.index as int;
            assert(hg != h && hg != hn && hg != hp && hg != t && hg != tn && hg != tp);
            assert(d.he(hg) == c.he(hg));
        }
    }
    assert forall|v: int| 0 <= v < d.vertices.len() implies #[trigger] vertex_ok(d, v) by {
        if v != a && v != b {
            assert(vertex_ok(c, v));
            assert(d.vertices[v] == c.vertices[v]);
            if let Some(hv) = c.vtx(v).halfedge {
                let i = hv.index as int;
                assert(halfedge_loop_ok(c, i));
                assert(halfedge_twin_ok(c, i));
                if i != h && i != hn && i != hp && i != t && i != tn && i != tp {
                    assert(d.he(i) == c.he(i));
                    if has_face(c, i) {
                        lemma_off_loop(c, h, i);
                        lemma_off_loop(c, t, i);
                        assert(d.he(prev_of(c, i)) == c.he(prev_of(c, i)));
                        assert(d.he(next_of(c, i)) == c.he(next_of(c, i)));
                    } else {
                        let u = twin_of(c, i);
                        assert(halfedge_twin_ok(c, u));
                        assert(d.he(u).vertex == c.he(u).vertex);
                    }
                }
            }
        }
    }
}

/// Where a walker on half-edge `i` goes by two `next` steps, if anywhere.
pub open spec fn prev_step(c: ConnectivityView, i: int) -> Option<HalfEdgeID> {
    crate::traversal::next_step(
        c,
        crate::traversal::next_step(c, Some(HalfEdgeID { index: i as usize })),
    )
}

/// Half-edge `i` after the orientation is flipped: it points to the vertex it
/// used to leave, and inside a face it is followed by what used to precede it.
pub open spec fn flipped_halfedge(c: ConnectivityView, i: int) -> HalfEdge {
    HalfEdge {
        vertex: Some(VertexID { index: vertex_of(c, twin_of(c, i)) as usize }),
        next: match prev_step(c, i) {
            Some(p) => Some(p),
            None => c.he(i).next,
        },
        ..c.he(i)
    }
}

/// Vertex `v` after the orientation is flipped: it names the twin of the
/// half-edge it named before.
pub open spec fn flipped_vertex(c: ConnectivityView, v: int) -> Vertex {
    match c.vtx(v).halfedge {
        Some(h) => Vertex { halfedge: c.he(h.index as int).twin, ..c.vtx(v) },
        None => c.vtx(v),
    }
}

proof fn lemma_flip_orientation_wf(c: ConnectivityView, d: ConnectivityView)
    requires
        mesh_wf(c),
        d.vertices.len() == c.vertices.len(),
        d.halfedges.len() == c.halfedges.len(),
        d.faces == c.faces,
        forall|v: int|
            0 <= v < c.vertices.len() ==> #[trigger] d.vertices[v] == Some(flipped_vertex(c, v)),
        forall|i: int|
            0 <= i < c.halfedges.len() ==> #[trigger] d.halfedges[i] == Some(flipped_halfedge(c, i)),
    ensures
        mesh_wf(d),
{
    let nh = c.halfedges.len();
    assert forall|i: int| 0 <= i < nh && has_face(c, i) implies prev_step(c, i) == Some(
        HalfEdgeID { index: prev_of(c, i) as usize },
    ) && next_of(d, i) == prev_of(c, i) by {
        assert(halfedge_loop_ok(c, i));
        assert(halfedge_loop_ok(c, next_of(c, i)));
        assert(d.halfedges[i] == Some(flipped_halfedge(c, i)));
    }
    assert forall|i: int| 0 <= i < nh implies #[trigger] d.he(i) == flipped_halfedge(c, i) by {
        assert(d.halfedges[i] == Some(flipped_halfedge(c, i)));
    }
    assert forall|i: int| 0 <= i < nh implies #[trigger] halfedge_loop_ok(d, i) by {
        assert(halfedge_loop_ok(c, i));
        assert(halfedge_twin_ok(c, i));
        assert(halfedge_loop_ok(c, twin_of(c, i)));
        if has_face(c, i) {
            let n1 = next_of(c, i);
            let p1 = prev_of(c, i);
            assert(halfedge_loop_ok(c, n1));
            assert(halfedge_loop_ok(c, p1));
            assert(next_of(d, i) == p1);
            assert(next_of(d, p1) == prev_of(c, p1));
            assert(next_of(d, n1) == prev_of(c, n1));
        }
    }
    assert forall|i: int| 0 <= i < nh implies #[trigger] halfedge_twin_ok(d, i) by {
        assert(halfedge_loop_ok(c, i));
        assert(halfedge_twin_ok(c, i));
        let t = twin_of(c, i);
        assert(halfedge_loop_ok(c, t));
        assert(halfedge_twin_ok(c, t));
        if has_face(c, i) {
            let n1 = next_of(c, i);
            assert(halfedge_loop_ok(c, n1));
            assert(halfedge_twin_ok(c, n1));
            assert(halfedge_loop_ok(c, prev_of(c, i)));
        }
    }
    assert forall|g: int| 0 <= g < d.faces.len() implies #[trigger] face_ok(d, g) by {
        assert(face_ok(c, g));
    }
    assert forall|v: int| 0 <= v < d.vertices.len() implies #[trigger] vertex_ok(d, v) by {
        assert(vertex_ok(c, v));
        assert(d.vertices[v] == Some(flipped_vertex(c, v)));
        if let Some(h) = c.vtx(v).halfedge {
            let hi = h.index as int;
            assert(halfedge_loop_ok(c, hi));
            assert(halfedge_twin_ok(c, hi));
            let t = twin_of(c, hi);
            assert(halfedge_loop_ok(c, t));
            assert(halfedge_twin_ok(c, t));
            if has_face(c, hi) {
                assert(halfedge_loop_ok(c, next_of(c, hi)));
                assert(halfedge_loop_ok(c, prev_of(c, hi)));
            }
            if has_face(c, t) {
                let n1 = next_of(c, t);
                assert(halfedge_loop_ok(c, n1));
                assert(halfedge_twin_ok(c, n1));
                assert(halfedge_loop_ok(c, prev_of(c, t)));
            }
        }
    }
    assert(all_live(d)) by {
        assert forall|i: int| 0 <= i < d.vertices.len() implies #[trigger] d.vertices[i] is Some by {
            assert(d.vertices[i] == Some(flipped_vertex(c, i)));
        }
        assert forall|i: int| 0 <= i < d.halfedges.len() implies #[trigger] d.halfedges[i] is Some by {
            assert(d.halfedges[i] == Some(flipped_halfedge(c, i)));
        }
    }
}

/// What can go wrong when editing a mesh.
#[derive(Debug)]
pub enum Error {
    CannotFlipEdgeOnBoundary { message: String },
}

impl Mesh {
    /// Splits a face at a new vertex inside it: the face becomes three faces
    /// that share the new vertex, and six half-edges join the new vertex to
    /// the three corners. Returns the new vertex.
    pub fn split_face(&mut self, face_id: &FaceID) -> (v: VertexID)
        requires
            old(self).wf(),
            face_id.index < old(self)@.faces.len(),
            old(self)@.vertices.len() + 1 <= usize::MAX,
            old(self)@.halfedges.len() + 6 <= usize::MAX,
            old(self)@.faces.len() + 2 <= usize::MAX,
        ensures
            final(self).wf(),
            v.index == old(self)@.vertices.len(),
            final(self)@.vertices.len() == old(self)@.vertices.len() + 1,
            final(self)@.halfedges.len() == old(self)@.halfedges.len() + 6,
            final(self)@.faces.len() == old(self)@.faces.len() + 2,
            face_split_into(old(self)@, final(self)@, face_id.index as int),
            ({
                let c = old(self)@;
                let d = final(self)@;
                let h0 = c.fc(face_id.index as int).halfedge->Some_0.index as int;
                let h1 = next_of(c, h0);
                let h2 = next_of(c, h1);
                &&& forall|i: int|
                    0 <= i < c.halfedges.len() && i != h0 && i != h1 && i != h2
                        ==> #[trigger] d.halfedges[i] == c.halfedges[i]
                &&& d.he(h0).vertex == c.he(h0).vertex && d.he(h0).twin == c.he(h0).twin
                &&& d.he(h1).vertex == c.he(h1).vertex && d.he(h1).twin == c.he(h1).twin
                &&& d.he(h2).vertex == c.he(h2).vertex && d.he(h2).twin == c.he(h2).twin
                &&& face_of(d, h0) == face_id.index
                &&& face_of(d, h1) == c.faces.len()
                &&& face_of(d, h2) == c.faces.len() + 1
                &&& vertex_of(d, next_of(d, h0)) == v.index
                &&& vertex_of(d, next_of(d, h1)) == v.index
                &&& vertex_of(d, next_of(d, h2)) == v.index
            }),
    {
        proof {
            lemma_mesh_view(self);
            lemma_store_fits(&self.connectivity_info);
            lemma_face_loop(self@, face_id.index as int);
        }
        let ghost c = self@;
        let f = *face_id;
        let h0 = self.connectivity_info.face_halfedge(&f).unwrap();
        let h1 = self.connectivity_info.halfedge_next(&h0).unwrap();
        let h2 = self.connectivity_info.halfedge_next(&h1).unwrap();
        let a = self.connectivity_info.halfedge_vertex(&h2);
        let b = self.connectivity_info.halfedge_vertex(&h0);
        let cc = self.connectivity_info.halfedge_vertex(&h1);
        let n = self.connectivity_info.halfedge_slots();
        let e0 = HalfEdgeID::new(n);
        let e1 = HalfEdgeID::new(n + 1);
        let e2 = HalfEdgeID::new(n + 2);
        let e3 = HalfEdgeID::new(n + 3);
        let e4 = HalfEdgeID::new(n + 4);
        let e5 = HalfEdgeID::new(n + 5);
        let p = self.connectivity_info.create_vertex();
        let f1 = self.connectivity_info.create_face();
        let f2 = self.connectivity_info.create_face();
        self.connectivity_info.new_halfedge(Some(p), Some(e3), Some(e1), Some(f));
        self.connectivity_info.new_halfedge(a, Some(e4), Some(h0), Some(f));
        self.connectivity_info.new_halfedge(Some(p), Some(e5), Some(e3), Some(f1));
        self.connectivity_info.new_halfedge(b, Some(e0), Some(h1), Some(f1));
        self.connectivity_info.new_halfedge(Some(p), Some(e1), Some(e5), Some(f2));
        self.connectivity_info.new_halfedge(cc, Some(e2), Some(h2), Some(f2));
        self.connectivity_info.set_halfedge_next(&h0, Some(e0));
        self.connectivity_info.set_halfedge_next(&h1, Some(e2));
        self.connectivity_info.set_halfedge_face(&h1, Some(f1));
        self.connectivity_info.set_halfedge_next(&h2, Some(e4));
        self.connectivity_info.set_halfedge_face(&h2, Some(f2));
        self.connectivity_info.set_face_halfedge(&f1, Some(h1));
        self.connectivity_info.set_face_halfedge(&f2, Some(h2));
        self.connectivity_info.set_vertex_halfedge(&p, Some(e1));
        proof {
            lemma_mesh_view(self);
            lemma_split_face_wf(c, self@, f.index as int);
        }
        p
    }
    /// Splits an edge at a new vertex: both half-edges of the edge now end at
    /// the new vertex, and each face beside the edge becomes two faces. Inside
    /// the mesh six half-edges and two faces are added, on the boundary four
    /// half-edges and one face. Returns the new vertex.
    #[verifier::rlimit(60)]
    pub fn split_edge(&mut self, halfedge_id: &HalfEdgeID) -> (v: VertexID)
        requires
            old(self).wf(),
            halfedge_id.index < old(self)@.halfedges.len(),
            old(self)@.vertices.len() + 1 <= usize::MAX,
            old(self)@.halfedges.len() + 6 <= usize::MAX,
            old(self)@.faces.len() + 2 <= usize::MAX,
        ensures
            final(self).wf(),
            v.index == old(self)@.vertices.len(),
            final(self)@.vertices.len() == old(self)@.vertices.len() + 1,
            ({
                let c = old(self)@;
                let d = final(self)@;
                let h = halfedge_id.index as int;
                let t = twin_of(c, h);
                &&& if has_face(c, h) && has_face(c, t) {
                    &&& d.halfedges.len() == c.halfedges.len() + 6
                    &&& d.faces.len() == c.faces.len() + 2
                } else {
                    &&& d.halfedges.len() == c.halfedges.len() + 4
                    &&& d.faces.len() == c.faces.len() + 1
                }
                &&& vertex_of(d, h) == v.index
                &&& vertex_of(d, t) == v.index
                &&& vertex_of(d, twin_of(d, h)) == vertex_of(c, t)
                &&& vertex_of(d, twin_of(d, t)) == vertex_of(c, h)
                &&& has_face(d, h) == has_face(c, h)
                &&& has_face(d, t) == has_face(c, t)
                &&& has_face(c, h) && has_face(c, t) ==> interior_edge_split_into(c, d, h)
                &&& !has_face(c, t) ==> boundary_edge_split_into(c, d, h)
                &&& !has_face(c, h) ==> boundary_edge_split_into(c, d, t)
            }),
    {
        proof {
            lemma_mesh_view(self);
            lemma_store_fits(&self.connectivity_info);
            assert(halfedge_twin_ok(self@, halfedge_id.index as int));
            assert(halfedge_loop_ok(self@, halfedge_id.index as int));
            assert(halfedge_loop_ok(self@, twin_of(self@, halfedge_id.index as int)));
        }
        let ghost c = self@;
        let t0 = self.connectivity_info.halfedge_twin(halfedge_id).unwrap();
        let (h, t) = if self.connectivity_info.halfedge_face(halfedge_id).is_some() {
            (*halfedge_id, t0)
        } else {
            (t0, *halfedge_id)
        };
        proof {
            assert(halfedge_twin_ok(c, t.index as int));
            assert(halfedge_loop_ok(c, h.index as int));
            assert(halfedge_loop_ok(c, next_of(c, h.index as int)));
            assert(halfedge_loop_ok(c, t.index as int));
            assert(twin_of(c, h.index as int) == t.index);
        }
        let hn = self.connectivity_info.halfedge_next(&h).unwrap();
        let hp = self.connectivity_info.halfedge_next(&hn).unwrap();
        let a = self.connectivity_info.halfedge_vertex(&t);
        let b = self.connectivity_info.halfedge_vertex(&h);
        let cv = self.connectivity_info.halfedge_vertex(&hn);
        let ff = self.connectivity_info.halfedge_face(&h).unwrap();
        let n = self.connectivity_info.halfedge_slots();
        let x1 = HalfEdgeID::new(n);
        let x2 = HalfEdgeID::new(n + 1);
        let y0 = HalfEdgeID::new(n + 2);
        let p = self.connectivity_info.create_vertex();
        if self.connectivity_info.halfedge_face(&t).is_some() {
            proof {
                assert(halfedge_loop_ok(c, next_of(c, t.index as int)));
            }
            let gg = self.connectivity_info.halfedge_face(&t).unwrap();
            let tn = self.connectivity_info.halfedge_next(&t).unwrap();
            let tp = self.connectivity_info.halfedge_next(&tn).unwrap();
            let dv = self.connectivity_info.halfedge_vertex(&tn);
            let z1 = HalfEdgeID::new(n + 3);
            let z2 = HalfEdgeID::new(n + 4);
            let w0 = HalfEdgeID::new(n + 5);
            let f1 = self.connectivity_info.create_face();
            let g1 = self.connectivity_info.create_face();
            self.connectivity_info.new_halfedge(cv, Some(x2), Some(hp), Some(ff));
            self.connectivity_info.new_halfedge(Some(p), Some(x1), Some(y0), Some(f1));
            self.connectivity_info.new_halfedge(b, Some(t), Some(hn), Some(f1));
            self.connectivity_info.new_halfedge(dv, Some(z2), Some(tp), Some(gg));
            self.connectivity_info.new_halfedge(Some(p), Some(z1), Some(w0), Some(g1));
            self.connectivity_info.new_halfedge(a, Some(h), Some(tn), Some(g1));
            self.connectivity_info.set_halfedge_vertex(&h, Some(p));
            self.connectivity_info.set_halfedge_twin(&h, Some(w0));
            self.connectivity_info.set_halfedge_next(&h, Some(x1));
            self.connectivity_info.set_halfedge_next(&hn, Some(x2));
            self.connectivity_info.set_halfedge_face(&hn, Some(f1));
            self.connectivity_info.set_halfedge_vertex(&t, Some(p));
            self.connectivity_info.set_halfedge_twin(&t, Some(y0));
            self.connectivity_info.set_halfedge_next(&t, Some(z1));
            self.connectivity_info.set_halfedge_next(&tn, Some(z2));
            self.connectivity_info.set_halfedge_face(&tn, Some(g1));
            self.connectivity_info.set_face_halfedge(&ff, Some(h));
            self.connectivity_info.set_face_halfedge(&gg, Some(t));
            self.connectivity_info.set_face_halfedge(&f1, Some(hn));
            self.connectivity_info.set_face_halfedge(&g1, Some(tn));
            self.connectivity_info.set_vertex_halfedge(&p, Some(y0));
            proof {
                lemma_mesh_view(self);
                lemma_split_interior_edge_wf(c, self@, h.index as int);
            }
        } else {
            let w0 = HalfEdgeID::new(n + 3);
            let t_next = self.connectivity_info.halfedge_next(&t);
            let f1 = self.connectivity_info.create_face();
            self.connectivity_info.new_halfedge(cv, Some(x2), Some(hp), Some(ff));
            self.connectivity_info.new_halfedge(Some(p), Some(x1), Some(y0), Some(f1));
            self.connectivity_info.new_halfedge(b, Some(t), Some(hn), Some(f1));
            self.connectivity_info.new_halfedge(a, Some(h), t_next, None);
            self.connectivity_info.set_halfedge_vertex(&h, Some(p));
            self.connectivity_info.set_halfedge_twin(&h, Some(w0));
            self.connectivity_info.set_halfedge_next(&h, Some(x1));
            self.connectivity_info.set_halfedge_next(&hn, Some(x2));
            self.connectivity_info.set_halfedge_face(&hn, Some(f1));
            self.connectivity_info.set_halfedge_vertex(&t, Some(p));
            self.connectivity_info.set_halfedge_twin(&t, Some(y0));
            self.connectivity_info.set_halfedge_next(&t, Some(w0));
            self.connectivity_info.set_face_halfedge(&ff, Some(h));
            self.connectivity_info.set_face_halfedge(&f1, Some(hn));
            self.connectivity_info.set_vertex_halfedge(&p, Some(y0));
            proof {
                lemma_mesh_view(self);
                lemma_split_boundary_edge_wf(c, self@, h.index as int);
            }
        }
        p
    }
    /// Turns the edge between two faces: the shared diagonal of the two
    /// triangles is replaced by the other diagonal. Fails, changing nothing,
    /// when either side of the edge has no face.
    pub fn flip_edge(&mut self, halfedge_id: &HalfEdgeID) -> (r: Result<(), Error>)
        requires
            old(self).wf(),
            halfedge_id.index < old(self)@.halfedges.len(),
            flip_is_proper(old(self)@, halfedge_id.index as int),
        ensures
            final(self).wf(),
            ({
                let c = old(self)@;
                let d = final(self)@;
                let h = halfedge_id.index as int;
                let t = twin_of(c, h);
                &&& r is Err <==> !has_face(c, h) || !has_face(c, t)
                &&& r is Err ==> d == c
                &&& r is Ok ==> {
                    &&& d.vertices.len() == c.vertices.len()
                    &&& d.halfedges.len() == c.halfedges.len()
                    &&& d.faces.len() == c.faces.len()
                    &&& twin_of(d, h) == t
                    &&& vertex_of(d, h) == vertex_of(c, next_of(c, h))
                    &&& vertex_of(d, t) == vertex_of(c, next_of(c, t))
                    &&& face_of(d, h) == face_of(c, h)
                    &&& face_of(d, t) == face_of(c, t)
                }
            }),
    {
        proof {
            lemma_mesh_view(self);
            assert(halfedge_twin_ok(self@, halfedge_id.index as int));
            assert(halfedge_loop_ok(self@, halfedge_id.index as int));
        }
        let ghost c = self@;
        let h = *halfedge_id;
        let face_id = match self.connectivity_info.halfedge_face(&h) {
            Some(f) => f,
            None => {
                return Err(
                    Error::CannotFlipEdgeOnBoundary {
                        message: "Trying to flip edge on boundary".to_owned(),
                    },
                );
            },
        };
        let twin_id = self.connectivity_info.halfedge_twin(&h).unwrap();
        proof {
            assert(halfedge_loop_ok(c, twin_id.index as int));
        }
        let twin_face_id = match self.connectivity_info.halfedge_face(&twin_id) {
            Some(f) => f,
            None => {
                return Err(
                    Error::CannotFlipEdgeOnBoundary {
                        message: "Trying to flip edge on boundary".to_owned(),
                    },
                );
            },
        };
        proof {
            assert(halfedge_loop_ok(c, next_of(c, h.index as int)));
            assert(halfedge_loop_ok(c, next_of(c, twin_id.index as int)));
        }
        let next_id = self.connectivity_info.halfedge_next(&h).unwrap();
        let previous_id = self.connectivity_info.halfedge_next(&next_id).unwrap();
        let v0 = self.connectivity_info.halfedge_vertex(&h).unwrap();
        let twin_next_id = self.connectivity_info.halfedge_next(&twin_id).unwrap();
        let twin_previous_id = self.connectivity_info.halfedge_next(&twin_next_id).unwrap();
        let v1 = self.connectivity_info.halfedge_vertex(&twin_id).unwrap();
        let v2 = self.connectivity_info.halfedge_vertex(&twin_next_id);
        let v3 = self.connectivity_info.halfedge_vertex(&next_id);

        self.connectivity_info.set_face_halfedge(&face_id, Some(previous_id));
        self.connectivity_info.set_face_halfedge(&twin_face_id, Some(twin_previous_id));

        self.connectivity_info.set_vertex_halfedge(&v0, Some(next_id));
        self.connectivity_info.set_vertex_halfedge(&v1, Some(twin_next_id));

        self.connectivity_info.set_halfedge_next(&h, Some(previous_id));
        self.connectivity_info.set_halfedge_next(&next_id, Some(twin_id));
        self.connectivity_info.set_halfedge_next(&previous_id, Some(twin_next_id));
        self.connectivity_info.set_halfedge_next(&twin_id, Some(twin_previous_id));
        self.connectivity_info.set_halfedge_next(&twin_next_id, Some(h));
        self.connectivity_info.set_halfedge_next(&twin_previous_id, Some(next_id));

        self.connectivity_info.set_halfedge_vertex(&h, v3);
        self.connectivity_info.set_halfedge_vertex(&twin_id, v2);

        self.connectivity_info.set_halfedge_face(&next_id, Some(twin_face_id));
        self.connectivity_info.set_halfedge_face(&twin_next_id, Some(face_id));
        proof {
            lemma_mesh_view(self);
            lemma_flip_edge_wf(c, self@, h.index as int);
        }
        Ok(())
    }
    /// Reverses the orientation of every face: each half-edge now points to
    /// the vertex it used to leave, each loop runs the other way, and each
    /// vertex names the twin of the half-edge it named before.
    pub fn flip_orientation(&mut self)
        requires
            old(self).wf(),
        ensures
            final(self).wf(),
            final(self)@.faces == old(self)@.faces,
            final(self)@.vertices.len() == old(self)@.vertices.len(),
            final(self)@.halfedges.len() == old(self)@.halfedges.len(),
            forall|v: int|
                0 <= v < old(self)@.vertices.len() ==> #[trigger] final(self)@.vertices[v] == Some(
                    flipped_vertex(old(self)@, v),
                ),
            forall|i: int|
                0 <= i < old(self)@.halfedges.len() ==> #[trigger] final(self)@.halfedges[i] == Some(
                    flipped_halfedge(old(self)@, i),
                ),
    {
        let ghost c = self@;
        proof {
            lemma_mesh_view(self);
        }
        let nv = self.no_vertices();
        let nh = self.no_halfedges();
        let mut new_vertex: Vec<VertexID> = Vec::new();
        let mut new_next: Vec<Option<HalfEdgeID>> = Vec::new();
        let mut i: usize = 0;
        while i < nh
            invariant
                self.wf(),
                self@ == c,
                nh == c.halfedges.len(),
                i <= nh,
                new_vertex@.len() == i,
                new_next@.len() == i,
                forall|j: int|
                    0 <= j < i ==> (#[trigger] new_vertex@[j]).index == vertex_of(c, twin_of(c, j)),
                forall|j: int| 0 <= j < i ==> #[trigger] new_next@[j] == prev_step(c, j),
            decreases nh - i,
        {
            proof {
                assert(halfedge_twin_ok(c, i as int));
                assert(halfedge_loop_ok(c, twin_of(c, i as int)));
            }
            let walker = self.walker_from_halfedge(&HalfEdgeID::new(i));
            new_next.push(walker.previous_id());
            new_vertex.push(walker.into_twin().vertex_id().unwrap());
            i = i + 1;
        }
        let mut v: usize = 0;
        while v < nv
            invariant
                nv == c.vertices.len(),
                v <= nv,
                self.connectivity_info@.faces == c.faces,
                self.connectivity_info@.halfedges == c.halfedges,
                self.connectivity_info@.vertices.len() == nv,
                mesh_wf(c),
                forall|u: int|
                    0 <= u < v ==> #[trigger] self.connectivity_info@.vertices[u] == Some(flipped_vertex(c, u)),
                forall|u: int|
                    v <= u < nv ==> #[trigger] self.connectivity_info@.vertices[u] == c.vertices[u],
            decreases nv - v,
        {
            let vertex_id = VertexID::new(v);
            proof {
                assert(c.vertices[v as int] is Some);
                assert(vertex_ok(c, v as int));
            }
            if let Some(h) = self.connectivity_info.vertex_halfedge(&vertex_id) {
                let twin_id = self.connectivity_info.halfedge_twin(&h);
                self.connectivity_info.set_vertex_halfedge(&vertex_id, twin_id);
            }
            v = v + 1;
        }
        let mut i: usize = 0;
        while i < nh
            invariant
                nh == c.halfedges.len(),
                i <= nh,
                new_vertex@.len() == nh,
                new_next@.len() == nh,
                forall|j: int|
                    0 <= j < nh ==> (#[trigger] new_vertex@[j]).index == vertex_of(c, twin_of(c, j)),
                forall|j: int| 0 <= j < nh ==> #[trigger] new_next@[j] == prev_step(c, j),
                self.connectivity_info@.faces == c.faces,
                self.connectivity_info@.halfedges.len() == nh,
                mesh_wf(c),
                forall|u: int|
                    0 <= u < c.vertices.len() ==> #[trigger] self.connectivity_info@.vertices[u] == Some(flipped_vertex(c, u)),
                self.connectivity_info@.vertices.len() == c.vertices.len(),
                forall|j: int|
                    0 <= j < i ==> #[trigger] self.connectivity_info@.halfedges[j] == Some(flipped_halfedge(c, j)),
                forall|j: int|
                    i <= j < nh ==> #[trigger] self.connectivity_info@.halfedges[j] == c.halfedges[j],
            decreases nh - i,
        {
            let h = HalfEdgeID::new(i);
            proof {
                assert(c.halfedges[i as int] is Some);
            }
            self.connectivity_info.set_halfedge_vertex(&h, Some(new_vertex[i]));
            if let Some(next_id) = new_next[i] {
                self.connectivity_info.set_halfedge_next(&h, Some(next_id));
            }
            proof {
                assert(self.connectivity_info@.halfedges[i as int] == Some(flipped_halfedge(c, i as int)));
            }
            i = i + 1;
        }
        proof {
            lemma_mesh_view(self);
            lemma_flip_orientation_wf(c, self@);
        }
    }
}

} // verus!
