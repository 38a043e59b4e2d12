use vstd::prelude::*;
use vstd::set_lib::{set_int_range, lemma_int_range, lemma_len_subset};
use crate::ids::{HalfEdgeID, FaceID, VertexID};
use crate::connectivity_info::ConnectivityView;
use crate::mesh::{
    Mesh, next_of, twin_of, face_of, has_face, halfedge_loop_ok, halfedge_twin_ok, face_ok,
};

verus! {

/// The `k`-th half-edge of the loop of face `f`, counted from the half-edge
/// that the face names.
pub open spec fn loop_halfedge(c: ConnectivityView, f: int, k: int) -> int {
    let h = c.fc(f).halfedge->Some_0.index as int;
    if k == 0 {
        h
    } else if k == 1 {
        next_of(c, h)
    } else {
        next_of(c, next_of(c, h))
    }
}

/// The face reached from face `f` across the `k`-th half-edge of its loop, if
/// that half-edge is not cut and its twin borders a face.
pub open spec fn crossing_to(c: ConnectivityView, cut: Seq<bool>, f: int, k: int) -> Option<int> {
    let h = loop_halfedge(c, f, k);
    if !cut[h] && has_face(c, twin_of(c, h)) {
        Some(face_of(c, twin_of(c, h)))
    } else {
        None
    }
}

/// No uncut crossing leads out of the set of faces `s`.
pub open spec fn closed_under_crossing(c: ConnectivityView, cut: Seq<bool>, s: Set<int>) -> bool {
    forall|f: int, k: int|
        s.contains(f) && 0 <= k < 3 ==> (#[trigger] crossing_to(c, cut, f, k) matches Some(g)
            ==> s.contains(g))
}

/// The face indices of a list of faces.
pub open spec fn face_indices(faces: Seq<FaceID>) -> Seq<int> {
    faces.map_values(|f: FaceID| f.index as int)
}

/// The faces reachable from `start` without crossing a cut half-edge: the
/// least set that holds `start` and is closed under uncut crossings.
pub open spec fn is_component(c: ConnectivityView, cut: Seq<bool>, start: int, s: Set<int>) -> bool {
    &&& s.contains(start)
    &&& closed_under_crossing(c, cut, s)
    &&& forall|t: Set<int>|
        t.contains(start) && closed_under_crossing(c, cut, t) ==> #[trigger] s.subset_of(t)
}

proof fn lemma_distinct_below(s: Seq<int>, n: int)
    requires
        s.no_duplicates(),
        0 <= n,
        forall|i: int| 0 <= i < s.len() ==> 0 <= #[trigger] s[i] < n,
    ensures
        s.len() <= n,
{
    s.unique_seq_to_set();
    lemma_int_range(0, n);
    assert(s.to_set().subset_of(set_int_range(0, n)));
    lemma_len_subset(s.to_set(), set_int_range(0, n));
}

/// The faces reached from the given face by crossing, from face to face,
/// half-edges for which `cut` is false; `cut` holds one flag per half-edge.
/// The start face comes first and no face comes twice.
pub fn connected_component_with_limit(mesh: &Mesh, face_id: &FaceID, cut: &Vec<bool>) -> (r: Vec<
    FaceID,
>)
    requires
        mesh.wf(),
        face_id.index < mesh@.faces.len(),
        cut@.len() == mesh@.halfedges.len(),
    ensures
        r@.len() >= 1,
        r@[0] == *face_id,
        face_indices(r@).no_duplicates(),
        forall|j: int| 0 <= j < r@.len() ==> (#[trigger] r@[j]).index < mesh@.faces.len(),
        is_component(mesh@, cut@, face_id.index as int, face_indices(r@).to_set()),
{
    let ghost c = mesh@;
    let ghost start = face_id.index as int;
    let nf = mesh.no_faces();
    let mut visited: Vec<bool> = Vec::new();
    let mut j: usize = 0;
    while j < nf
        invariant
            j <= nf,
            visited@.len() == j,
            forall|g: int| 0 <= g < j ==> !(#[trigger] visited@[g]),
        decreases nf - j,
    {
        visited.push(false);
        j = j + 1;
    }
    let mut component: Vec<FaceID> = Vec::new();
    component.push(*face_id);
    visited.set(face_id.index, true);
    proof {
        assert(face_indices(component@) =~= seq![start]);
        assert forall|g: int| 0 <= g < nf implies (#[trigger] visited@[g] <==> face_indices(
            component@,
        ).contains(g)) by {
            if g == start {
                assert(face_indices(component@)[0] == start);
            }
        }
        assert forall|t: Set<int>|
            t.contains(start) && closed_under_crossing(c, cut@, t) implies #[trigger] face_indices(
            component@,
        ).to_set().subset_of(t) by {
            assert forall|x: int| face_indices(component@).to_set().contains(x) implies t.contains(
                x,
            ) by {
                assert(face_indices(component@).contains(x));
            }
        }
    }
    let mut i: usize = 0;
    while i < component.len()
        invariant
            mesh.wf(),
            c == mesh@,
            nf == c.faces.len(),
            start == face_id.index,
            start < nf,
            cut@.len() == c.halfedges.len(),
            visited@.len() == nf,
            i <= component@.len(),
            component@.len() >= 1,
            component@[0] == *face_id,
            face_indices(component@).no_duplicates(),
            forall|m: int| 0 <= m < component@.len() ==> (#[trigger] component@[m]).index < nf,
            forall|g: int|
                0 <= g < nf ==> (#[trigger] visited@[g] <==> face_indices(component@).contains(g)),
            forall|m: int, k: int|
                0 <= m < i && 0 <= k < 3 ==> (#[trigger] crossing_to(
                    c,
                    cut@,
                    component@[m].index as int,
                    k,
                ) matches Some(g) ==> face_indices(component@).contains(g)),
            forall|t: Set<int>|
                t.contains(start) && closed_under_crossing(c, cut@, t) ==> #[trigger] face_indices(
                    component@,
                ).to_set().subset_of(t),
        decreases nf - i,
    {
        proof {
            lemma_distinct_below(face_indices(component@), nf as int);
        }
        let f = component[i];
        let ghost fi = f.index as int;
        proof {
            assert(face_ok(c, fi));
            let h0 = c.fc(fi).halfedge->Some_0.index as int;
            assert(halfedge_loop_ok(c, h0));
            assert(halfedge_loop_ok(c, next_of(c, h0)));
            assert(halfedge_loop_ok(c, next_of(c, next_of(c, h0))));
        }
        let mut w = mesh.walker_from_face(&f);
        let mut k: usize = 0;
        while k < 3
            invariant
                mesh.wf(),
                c == mesh@,
                nf == c.faces.len(),
                start == face_id.index,
                start < nf,
                cut@.len() == c.halfedges.len(),
                visited@.len() == nf,
                i < component@.len(),
                component@[i as int] == f,
                fi == f.index,
                fi < nf,
                k <= 3,
                w.inv(),
                w.store() == c,
                k < 3 ==> w.position() == Some(HalfEdgeID { index: loop_halfedge(c, fi, k as int) as usize }),
                component@.len() >= 1,
                component@[0] == *face_id,
                face_indices(component@).no_duplicates(),
                forall|m: int| 0 <= m < component@.len() ==> (#[trigger] component@[m]).index < nf,
                forall|g: int|
                    0 <= g < nf ==> (#[trigger] visited@[g] <==> face_indices(component@).contains(g)),
                forall|m: int, kk: int|
                    0 <= m < i && 0 <= kk < 3 ==> (#[trigger] crossing_to(
                        c,
                        cut@,
                        component@[m].index as int,
                        kk,
                    ) matches Some(g) ==> face_indices(component@).contains(g)),
                forall|kk: int|
                    0 <= kk < k ==> (#[trigger] crossing_to(c, cut@, fi, kk) matches Some(g)
                        ==> face_indices(component@).contains(g)),
                forall|t: Set<int>|
                    t.contains(start) && closed_under_crossing(c, cut@, t) ==> #[trigger] face_indices(
                        component@,
                    ).to_set().subset_of(t),
            decreases 3 - k,
        {
            let h = w.halfedge_id().unwrap();
            let ghost hi = h.index as int;
            proof {
                assert(face_ok(c, fi));
                let h0 = c.fc(fi).halfedge->Some_0.index as int;
                assert(halfedge_loop_ok(c, h0));
                assert(halfedge_loop_ok(c, next_of(c, h0)));
                assert(halfedge_loop_ok(c, next_of(c, next_of(c, h0))));
                assert(halfedge_twin_ok(c, hi));
                assert(halfedge_loop_ok(c, twin_of(c, hi)));
            }
            if !cut[h.index] {
                let t = w.twin_id().unwrap();
                let tw = mesh.walker_from_halfedge(&t);
                if let Some(g) = tw.face_id() {
                    if !visited[g.index] {
                        let ghost old_comp = component@;
                        visited.set(g.index, true);
                        component.push(g);
                        proof {
                            let gi = g.index as int;
                            assert(face_indices(component@) =~= face_indices(old_comp).push(gi));
                            assert(!face_indices(old_comp).contains(gi));
                            assert forall|t: Set<int>|
                                t.contains(start) && closed_under_crossing(c, cut@, t)
                                implies #[trigger] face_indices(component@).to_set().subset_of(t) by {
                                assert(face_indices(old_comp).to_set().subset_of(t));
                                assert(face_indices(old_comp).contains(fi)) by {
                                    assert(face_indices(old_comp)[i as int] == fi);
                                }
                                assert(t.contains(fi));
                                assert(crossing_to(c, cut@, fi, k as int) == Some(gi));
                                assert forall|x: int| face_indices(component@).to_set().contains(x)
                                    implies t.contains(x) by {
                                    if x != gi {
                                        assert(face_indices(old_comp).contains(x));
                                        assert(face_indices(old_comp).to_set().contains(x));
                                    }
                                }
                            }
                            assert forall|g2: int| 0 <= g2 < nf implies (#[trigger] visited@[g2]
                                <==> face_indices(component@).contains(g2)) by {
                                if g2 != gi {
                                    if face_indices(old_comp).contains(g2) {
                                        let m = choose|m: int|
                                            0 <= m < face_indices(old_comp).len()
                                                && face_indices(old_comp)[m] == g2;
                                        assert(face_indices(component@)[m] == g2);
                                    }
                                    if face_indices(component@).contains(g2) {
                                        let m = choose|m: int|
                                            0 <= m < face_indices(component@).len()
                                                && face_indices(component@)[m] == g2;
                                        assert(m < old_comp.len());
                                        assert(face_indices(old_comp)[m] == g2);
                                    }
                                } else {
                                    assert(face_indices(component@)[old_comp.len() as int] == gi);
                                }
                            }
                            assert forall|x: int| face_indices(old_comp).contains(x) implies face_indices(
                                component@,
                            ).contains(x) by {
                                let m = choose|m: int|
                                    0 <= m < face_indices(old_comp).len() && face_indices(old_comp)[m]
                                        == x;
                                assert(face_indices(component@)[m] == x);
                            }
                            assert(face_indices(component@)[old_comp.len() as int] == gi);
                        }
                    }
                }
            }
            proof {
                assert(crossing_to(c, cut@, fi, k as int) matches Some(g) ==> face_indices(
                    component@,
                ).contains(g)) by {
                    if let Some(g) = crossing_to(c, cut@, fi, k as int) {
                        assert(visited@[g]);
                    }
                }
            }
            w.as_next();
            k = k + 1;
        }
        proof {
            lemma_distinct_below(face_indices(component@), nf as int);
        }
        i = i + 1;
    }
    proof {
        let s = face_indices(component@).to_set();
        assert forall|f: int, k: int|
            s.contains(f) && 0 <= k < 3 implies (#[trigger] crossing_to(c, cut@, f, k) matches Some(g)
            ==> s.contains(g)) by {
            let m = choose|m: int|
                0 <= m < face_indices(component@).len() && face_indices(component@)[m] == f;
            assert(component@[m].index == f);
            if let Some(g) = crossing_to(c, cut@, f, k) {
                assert(face_indices(component@).contains(g));
            }
        }
        assert(face_indices(component@)[0] == start);
    }
    component
}

/// Position in a triangle list of the entry that becomes corner `k` of face
/// `j` when the list is built into a mesh.
pub open spec fn corner_slot(j: int, k: int) -> int {
    if k == 2 {
        3 * j
    } else {
        3 * j + k + 1
    }
}

/// `renamed` maps vertex `v` to a new index, and no two vertices share one.
spec fn renaming_ok(renamed: Seq<Option<usize>>, count: int) -> bool {
    &&& forall|v: int|
        0 <= v < renamed.len() ==> (#[trigger] renamed[v] matches Some(x) ==> x < count)
    &&& forall|v1: int, v2: int|
        0 <= v1 < renamed.len() && 0 <= v2 < renamed.len() && #[trigger] renamed[v1] is Some
            && #[trigger] renamed[v2] is Some && renamed[v1] == renamed[v2] ==> v1 == v2
}

/// `w` is a corner of one of the first `bound` faces of the list.
pub open spec fn is_corner_of(c: ConnectivityView, faces: Seq<FaceID>, bound: int, w: int) -> bool {
    exists|j: int, k: int|
        0 <= j < bound && 0 <= k < 3 && #[trigger] crate::traversal::corner(
            c,
            faces[j].index as int,
            k,
        ) == w
}

/// `v` is a corner of one of the first `n` faces of a mesh.
pub open spec fn used_by_faces(d: ConnectivityView, n: int, v: int) -> bool {
    exists|j: int, k: int| 0 <= j < n && 0 <= k < 3 && #[trigger] crate::traversal::corner(d, j, k) == v
}

/// The two lists of faces have the same corners up to a renaming of vertices:
/// two corners are the same vertex in one mesh exactly when they are in the other.
pub open spec fn same_corners(
    c: ConnectivityView,
    faces: Seq<FaceID>,
    d: ConnectivityView,
) -> bool {
    forall|j1: int, k1: int, j2: int, k2: int|
        0 <= j1 < faces.len() && 0 <= j2 < faces.len() && 0 <= k1 < 3 && 0 <= k2 < 3 ==> (
        #[trigger] crate::traversal::corner(d, j1, k1) == #[trigger] crate::traversal::corner(d, j2, k2)
            <==> crate::traversal::corner(c, faces[j1].index as int, k1) == crate::traversal::corner(
            c,
            faces[j2].index as int,
            k2,
        ))
}

impl Mesh {
    /// A new mesh made of copies of the given faces: face `j` of the copy has
    /// the corners of `faces[j]`, each vertex that they use is copied once
    /// under a new identifier, and edges whose other side is not copied
    /// become boundary edges. Also returns, for each new vertex, the vertex
    /// that it copies.
    pub fn clone_subset(&self, faces: &Vec<FaceID>) -> (r: (Mesh, Vec<VertexID>))
        requires
            self.wf(),
            3 * faces@.len() <= u32::MAX,
            faces@.len() < usize::MAX / 16,
            forall|j: int| 0 <= j < faces@.len() ==> (#[trigger] faces@[j]).index < self@.faces.len(),
        ensures
            r.0.wf(),
            r.0@.faces.len() == faces@.len(),
            same_corners(self@, faces@, r.0@),
            r.1@.len() == r.0@.vertices.len(),
            forall|v: int|
                0 <= v < r.0@.vertices.len() ==> #[trigger] used_by_faces(r.0@, faces@.len() as int, v),
            forall|j: int, k: int|
                0 <= j < faces@.len() && 0 <= k < 3 ==> (#[trigger] r.1@[crate::traversal::corner(
                    r.0@,
                    j,
                    k,
                )]).index == crate::traversal::corner(self@, faces@[j].index as int, k),
    {
        let ghost c = self@;
        let nv = self.no_vertices();
        let mut renamed: Vec<Option<usize>> = Vec::new();
        let mut j: usize = 0;
        while j < nv
            invariant
                j <= nv,
                renamed@.len() == j,
                forall|v: int| 0 <= v < j ==> (#[trigger] renamed@[v]) is None,
            decreases nv - j,
        {
            renamed.push(None);
            j = j + 1;
        }
        let mut count: usize = 0;
        let mut origins: Vec<VertexID> = Vec::new();
        let mut indices: Vec<u32> = Vec::new();
        let mut i: usize = 0;
        while i < faces.len()
            invariant
                self.wf(),
                c == self@,
                nv == c.vertices.len(),
                3 * faces@.len() <= u32::MAX,
                faces@.len() < usize::MAX / 16,
                forall|j: int| 0 <= j < faces@.len() ==> (#[trigger] faces@[j]).index < c.faces.len(),
                renamed@.len() == nv,
                count <= 3 * i,
                origins@.len() == count,
                forall|x: int|
                    0 <= x < count ==> (#[trigger] origins@[x]).index < nv
                        && renamed@[origins@[x].index as int] == Some(x as usize),
                forall|x: int|
                    0 <= x < count ==> #[trigger] is_corner_of(c, faces@, i as int, origins@[x].index as int),
                renaming_ok(renamed@, count as int),
                i <= faces@.len(),
                indices@.len() == 3 * i,
                forall|m: int| 0 <= m < indices@.len() ==> (#[trigger] indices@[m]) < count,
                forall|jj: int, k: int|
                    0 <= jj < i && 0 <= k < 3 ==> #[trigger] renamed@[crate::traversal::corner(
                        c,
                        faces@[jj].index as int,
                        k,
                    )] == Some(indices@[corner_slot(jj, k)] as usize),
            decreases faces.len() - i,
        {
            let (v0, v1, v2) = self.face_vertices(&faces[i]);
            let ghost before = indices@;
            let ghost before_renamed = renamed@;
            proof {
                assert forall|x: int| 0 <= x < count implies #[trigger] is_corner_of(
                    c,
                    faces@,
                    i + 1,
                    origins@[x].index as int,
                ) by {
                    assert(is_corner_of(c, faces@, i as int, origins@[x].index as int));
                    let (jj, kk) = choose|jj: int, kk: int|
                        0 <= jj < i && 0 <= kk < 3 && #[trigger] crate::traversal::corner(
                            c,
                            faces@[jj].index as int,
                            kk,
                        ) == origins@[x].index as int;
                    assert(crate::traversal::corner(c, faces@[jj].index as int, kk) == origins@[x].index as int);
                }
            }
            let mut k: usize = 0;
            while k < 3
                invariant
                    self.wf(),
                    c == self@,
                    nv == c.vertices.len(),
                    3 * faces@.len() <= u32::MAX,
                    faces@.len() < usize::MAX / 16,
                    i < faces@.len(),
                    v0.index < nv && v1.index < nv && v2.index < nv,
                    renamed@.len() == nv,
                    count <= 3 * i + k,
                    origins@.len() == count,
                    forall|x: int|
                        0 <= x < count ==> (#[trigger] origins@[x]).index < nv
                            && renamed@[origins@[x].index as int] == Some(x as usize),
                    forall|x: int|
                        0 <= x < count ==> #[trigger] is_corner_of(c, faces@, i + 1, origins@[x].index as int),
                    v0.index == crate::traversal::corner(c, faces@[i as int].index as int, 0),
                    v1.index == crate::traversal::corner(c, faces@[i as int].index as int, 1),
                    v2.index == crate::traversal::corner(c, faces@[i as int].index as int, 2),
                    renaming_ok(renamed@, count as int),
                    k <= 3,
                    indices@.len() == 3 * i + k,
                    indices@.subrange(0, 3 * i) == before,
                    forall|m: int| 0 <= m < indices@.len() ==> (#[trigger] indices@[m]) < count,
                    forall|v: int|
                        0 <= v < nv
                            && (#[trigger] before_renamed[v]) is Some ==> renamed@[v] == before_renamed[v],
                    k > 0 ==> renamed@[v2.index as int] == Some(indices@[3 * i] as usize),
                    k > 1 ==> renamed@[v0.index as int] == Some(indices@[3 * i + 1] as usize),
                    k > 2 ==> renamed@[v1.index as int] == Some(indices@[3 * i + 2] as usize),
                decreases 3 - k,
            {
                let v = if k == 0 {
                    v2
                } else if k == 1 {
                    v0
                } else {
                    v1
                };
                let x = match renamed[v.index] {
                    Some(x) => x,
                    None => {
                        proof {
                            assert forall|w: int| 0 <= w < nv && (#[trigger] renamed@[w]) is Some implies renamed@[w] != Some(count) by {}
                        }
                        renamed.set(v.index, Some(count));
                        origins.push(v);
                        proof {
                            let kk = if k == 0 { 2int } else if k == 1 { 0int } else { 1int };
                            assert(crate::traversal::corner(c, faces@[i as int].index as int, kk) == v.index as int);
                            assert(is_corner_of(c, faces@, i + 1, v.index as int));
                        }
                        count = count + 1;
                        count - 1
                    },
                };
                indices.push(x as u32);
                k = k + 1;
            }
            proof {
                assert forall|jj: int, kk: int|
                    0 <= jj < i + 1 && 0 <= kk < 3 implies #[trigger] renamed@[crate::traversal::corner(
                    c,
                    faces@[jj].index as int,
                    kk,
                )] == Some(indices@[corner_slot(jj, kk)] as usize) by {
                    crate::traversal::lemma_corner_in_range(c, faces@[jj].index as int, kk);
                    let v = crate::traversal::corner(c, faces@[jj].index as int, kk);
                    if jj < i {
                        assert(indices@[corner_slot(jj, kk)] == before[corner_slot(jj, kk)]);
                        assert(before_renamed[v] is Some);
                        assert(renamed@[v] == before_renamed[v]);
                    }
                }
            }
            i = i + 1;
        }
        proof {
            assert(indices@.len() == 3 * faces@.len());
            assert(indices@.len() / 3 == faces@.len());
        }
        let m = Mesh::new_with_connectivity(&indices, count);
        proof {
            let d = m@;
            assert forall|jj: int, kk: int| 0 <= jj < faces@.len() && 0 <= kk < 3 implies crate::traversal::corner(
                d,
                jj,
                kk,
            ) == indices@[corner_slot(jj, kk)] as int by {
                assert(crate::mesh::face_is_triangle(d, indices@, jj));
            }
            assert forall|jj: int, kk: int|
                0 <= jj < faces@.len() && 0 <= kk < 3 implies (#[trigger] origins@[crate::traversal::corner(
                d,
                jj,
                kk,
            )]).index == crate::traversal::corner(c, faces@[jj].index as int, kk) by {
                crate::traversal::lemma_corner_in_range(c, faces@[jj].index as int, kk);
                let w = crate::traversal::corner(c, faces@[jj].index as int, kk);
                let x = indices@[corner_slot(jj, kk)] as int;
                assert(renamed@[w] == Some(x as usize));
                assert(renamed@[origins@[x].index as int] == Some(x as usize));
            }
            assert forall|x: int| 0 <= x < d.vertices.len() implies #[trigger] used_by_faces(
                d,
                faces@.len() as int,
                x,
            ) by {
                assert(is_corner_of(c, faces@, faces@.len() as int, origins@[x].index as int));
                let (jj, kk) = choose|jj: int, kk: int|
                    0 <= jj < faces@.len() && 0 <= kk < 3 && #[trigger] crate::traversal::corner(
                        c,
                        faces@[jj].index as int,
                        kk,
                    ) == origins@[x].index as int;
                crate::traversal::lemma_corner_in_range(c, faces@[jj].index as int, kk);
                let w = origins@[x].index as int;
                assert(renamed@[w] == Some(indices@[corner_slot(jj, kk)] as usize));
                assert(crate::traversal::corner(d, jj, kk) == x);
            }
            assert forall|j1: int, k1: int, j2: int, k2: int|
                0 <= j1 < faces@.len() && 0 <= j2 < faces@.len() && 0 <= k1 < 3 && 0 <= k2 < 3
                implies (#[trigger] crate::traversal::corner(d, j1, k1)
                == #[trigger] crate::traversal::corner(d, j2, k2)
                <==> crate::traversal::corner(c, faces@[j1].index as int, k1)
                == crate::traversal::corner(c, faces@[j2].index as int, k2)) by {
                crate::traversal::lemma_corner_in_range(c, faces@[j1].index as int, k1);
                crate::traversal::lemma_corner_in_range(c, faces@[j2].index as int, k2);
                assert(renamed@[crate::traversal::corner(c, faces@[j1].index as int, k1)] == Some(
                    indices@[corner_slot(j1, k1)] as usize,
                ));
                assert(renamed@[crate::traversal::corner(c, faces@[j2].index as int, k2)] == Some(
                    indices@[corner_slot(j2, k2)] as usize,
                ));
            }
        }
        (m, origins)
    }
}

/// Some list of `comps` holds face `g`.
pub open spec fn covered(comps: Seq<Seq<FaceID>>, g: int) -> bool {
    exists|j: int| 0 <= j < comps.len() && face_indices(comps[j]).contains(g)
}

/// `comps` lists components that cover every face: each is the component of
/// its first face, holds no face twice, and starts at a face that no earlier
/// component holds.
pub open spec fn components_ok(c: ConnectivityView, cut: Seq<bool>, comps: Seq<Seq<FaceID>>) -> bool {
    &&& forall|j: int|
        0 <= j < comps.len() ==> {
            &&& (#[trigger] comps[j]).len() >= 1
            &&& face_indices(comps[j]).no_duplicates()
            &&& forall|m: int| 0 <= m < comps[j].len() ==> (#[trigger] comps[j][m]).index < c.faces.len()
            &&& is_component(c, cut, comps[j][0].index as int, face_indices(comps[j]).to_set())
        }
    &&& forall|g: int| 0 <= g < c.faces.len() ==> #[trigger] covered(comps, g)
    &&& forall|j1: int, j2: int|
        0 <= j1 < j2 < comps.len() ==> !face_indices(#[trigger] comps[j1]).contains(
            (#[trigger] comps[j2])[0].index as int,
        )
}

impl Mesh {
    /// Splits the faces into components: in the order of the faces, each face
    /// that no earlier component holds starts a new one, made of the faces
    /// reached from it without crossing a half-edge for which `cut` is true.
    pub fn components(&self, cut: &Vec<bool>) -> (r: Vec<Vec<FaceID>>)
        requires
            self.wf(),
            cut@.len() == self@.halfedges.len(),
        ensures
            components_ok(self@, cut@, r@.map_values(|v: Vec<FaceID>| v@)),
    {
        let ghost c = self@;
        let faces = self.face_iter();
        let nf = faces.len();
        let mut assigned: Vec<bool> = Vec::new();
        let mut j: usize = 0;
        while j < nf
            invariant
                j <= nf,
                assigned@.len() == j,
                forall|g: int| 0 <= g < j ==> !(#[trigger] assigned@[g]),
            decreases nf - j,
        {
            assigned.push(false);
            j = j + 1;
        }
        let mut comps: Vec<Vec<FaceID>> = Vec::new();
        let mut i: usize = 0;
        while i < nf
            invariant
                self.wf(),
                c == self@,
                nf == c.faces.len(),
                faces@.len() == nf,
                forall|m: int| 0 <= m < nf ==> (#[trigger] faces@[m]).index == m,
                cut@.len() == c.halfedges.len(),
                assigned@.len() == nf,
                i <= nf,
                forall|g: int| 0 <= g < i ==> #[trigger] assigned@[g],
                forall|g: int|
                    0 <= g < nf ==> (#[trigger] assigned@[g] <==> exists|jj: int|
                        0 <= jj < comps@.len() && face_indices(comps@[jj]@).contains(g)),
                forall|jj: int|
                    0 <= jj < comps@.len() ==> {
                        &&& (#[trigger] comps@[jj])@.len() >= 1
                        &&& face_indices(comps@[jj]@).no_duplicates()
                        &&& forall|m: int|
                            0 <= m < comps@[jj]@.len() ==> (#[trigger] comps@[jj]@[m]).index < nf
                        &&& is_component(
                            c,
                            cut@,
                            comps@[jj]@[0].index as int,
                            face_indices(comps@[jj]@).to_set(),
                        )
                    },
                forall|j1: int, j2: int|
                    0 <= j1 < j2 < comps@.len() ==> !face_indices((#[trigger] comps@[j1])@).contains(
                        (#[trigger] comps@[j2])@[0].index as int,
                    ),
            decreases nf - i,
        {
            if !assigned[i] {
                let comp = connected_component_with_limit(self, &faces[i], cut);
                let ghost old_comps = comps@;
                let ghost old_assigned = assigned@;
                let mut m: usize = 0;
                while m < comp.len()
                    invariant
                        assigned@.len() == nf,
                        forall|x: int| 0 <= x < comp@.len() ==> (#[trigger] comp@[x]).index < nf,
                        m <= comp@.len(),
                        forall|g: int|
                            0 <= g < nf ==> (#[trigger] assigned@[g] <==> (old_assigned[g]
                                || exists|x: int| 0 <= x < m && comp@[x].index == g)),
                    decreases comp.len() - m,
                {
                    assigned.set(comp[m].index, true);
                    m = m + 1;
                }
                comps.push(comp);
                proof {
                    assert forall|g: int| 0 <= g < nf implies (#[trigger] assigned@[g] <==> exists|jj: int|
                        0 <= jj < comps@.len() && face_indices(comps@[jj]@).contains(g)) by {
                        if assigned@[g] {
                            if old_assigned[g] {
                                let jj = choose|jj: int|
                                    0 <= jj < old_comps.len() && face_indices(old_comps[jj]@).contains(g);
                                assert(comps@[jj] == old_comps[jj]);
                            } else {
                                let x = choose|x: int| 0 <= x < comp@.len() && comp@[x].index == g;
                                let last = old_comps.len() as int;
                                assert(comps@[last] == comp);
                                assert(face_indices(comps@[last]@)[x] == g);
                            }
                        }
                        if exists|jj: int| 0 <= jj < comps@.len() && face_indices(comps@[jj]@).contains(g) {
                            let jj = choose|jj: int|
                                0 <= jj < comps@.len() && face_indices(comps@[jj]@).contains(g);
                            if jj < old_comps.len() {
                                assert(comps@[jj] == old_comps[jj]);
                            } else {
                                let x = choose|x: int|
                                    0 <= x < face_indices(comp@).len() && face_indices(comp@)[x] == g;
                                assert(comp@[x].index == g);
                            }
                        }
                    }
                    assert forall|j1: int, j2: int|
                        0 <= j1 < j2 < comps@.len() implies !face_indices((#[trigger] comps@[j1])@).contains(
                        (#[trigger] comps@[j2])@[0].index as int,
                    ) by {
                        if j2 == old_comps.len() {
                            assert(comps@[j2] == comp);
                            assert(comps@[j1] == old_comps[j1]);
                            assert(!old_assigned[i as int]);
                        } else {
                            assert(comps@[j1] == old_comps[j1]);
                            assert(comps@[j2] == old_comps[j2]);
                        }
                    }
                    assert forall|jj: int| 0 <= jj < comps@.len() implies {
                        &&& (#[trigger] comps@[jj])@.len() >= 1
                        &&& face_indices(comps@[jj]@).no_duplicates()
                        &&& forall|m: int|
                            0 <= m < comps@[jj]@.len() ==> (#[trigger] comps@[jj]@[m]).index < nf
                        &&& is_component(
                            c,
                            cut@,
                            comps@[jj]@[0].index as int,
                            face_indices(comps@[jj]@).to_set(),
                        )
                    } by {
                        if jj < old_comps.len() {
                            assert(comps@[jj] == old_comps[jj]);
                        } else {
                            assert(comps@[jj] == comp);
                        }
                    }
                    assert(assigned@[i as int]) by {
                        assert(comp@[0].index == i);
                    }
                }
            }
            i = i + 1;
        }
        proof {
            let cs = comps@.map_values(|v: Vec<FaceID>| v@);
            assert forall|g: int| 0 <= g < c.faces.len() implies #[trigger] covered(cs, g) by {
                assert(assigned@[g]);
                let jj = choose|jj: int| 0 <= jj < comps@.len() && face_indices(comps@[jj]@).contains(g);
                assert(cs[jj] == comps@[jj]@);
            }
            assert forall|jj: int| 0 <= jj < cs.len() implies {
                &&& (#[trigger] cs[jj]).len() >= 1
                &&& face_indices(cs[jj]).no_duplicates()
                &&& forall|m: int| 0 <= m < cs[jj].len() ==> (#[trigger] cs[jj][m]).index < c.faces.len()
                &&& is_component(c, cut@, cs[jj][0].index as int, face_indices(cs[jj]).to_set())
            } by {
                assert(cs[jj] == comps@[jj]@);
            }
            assert forall|j1: int, j2: int| 0 <= j1 < j2 < cs.len() implies !face_indices(
                #[trigger] cs[j1],
            ).contains((#[trigger] cs[j2])[0].index as int) by {
                assert(cs[j1] == comps@[j1]@);
                assert(cs[j2] == comps@[j2]@);
            }
        }
        comps
    }
}

impl Mesh {
    /// Splits the mesh along the half-edges for which `cut` is true: one new
    /// mesh per component, in the order of `components`, each a copy of the
    /// faces of its component.
    pub fn split(&self, cut: &Vec<bool>) -> (r: Vec<Mesh>)
        requires
            self.wf(),
            cut@.len() == self@.halfedges.len(),
            3 * self@.faces.len() <= u32::MAX,
            self@.faces.len() < usize::MAX / 16,
        ensures
            exists|comps: Seq<Seq<FaceID>>|
                {
                    &&& components_ok(self@, cut@, comps)
                    &&& r@.len() == comps.len()
                    &&& forall|j: int|
                        0 <= j < comps.len() ==> {
                            &&& (#[trigger] r@[j]).wf()
                            &&& r@[j]@.faces.len() == comps[j].len()
                            &&& same_corners(self@, comps[j], r@[j]@)
                        }
                },
    {
        let components = self.components(cut);
        let ghost cs = components@.map_values(|v: Vec<FaceID>| v@);
        let mut meshes: Vec<Mesh> = Vec::new();
        let mut i: usize = 0;
        while i < components.len()
            invariant
                self.wf(),
                3 * self@.faces.len() <= u32::MAX,
                self@.faces.len() < usize::MAX / 16,
                cs == components@.map_values(|v: Vec<FaceID>| v@),
                components_ok(self@, cut@, cs),
                i <= components@.len(),
                meshes@.len() == i,
                forall|j: int|
                    0 <= j < i ==> {
                        &&& (#[trigger] meshes@[j]).wf()
                        &&& meshes@[j]@.faces.len() == cs[j].len()
                        &&& same_corners(self@, cs[j], meshes@[j]@)
                    },
            decreases components.len() - i,
        {
            proof {
                let comp = cs[i as int];
                assert(comp == components@[i as int]@);
                assert(comp.len() >= 1);
                lemma_distinct_below(face_indices(comp), self@.faces.len() as int);
            }
            let (m, _) = self.clone_subset(&components[i]);
            meshes.push(m);
            i = i + 1;
        }
        meshes
    }
}

} // verus!
