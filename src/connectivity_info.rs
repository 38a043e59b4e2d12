use vstd::prelude::*;
use crate::ids::{VertexID, HalfEdgeID, FaceID};

verus! {

/// A vertex record: its identity and one half-edge that leaves it.
#[derive(Clone, Copy, Debug)]
pub struct Vertex {
    pub id: VertexID,
    pub halfedge: Option<HalfEdgeID>,
}

impl Vertex {
    pub fn id(&self) -> (r: &VertexID)
        ensures
            *r == self.id,
    {
        &self.id
    }
}

/// A half-edge record: the vertex it points to, its twin, the next half-edge
/// around its face and the face it borders (none on the boundary).
#[derive(Clone, Copy, Debug)]
pub struct HalfEdge {
    pub id: HalfEdgeID,
    pub vertex: Option<VertexID>,
    pub twin: Option<HalfEdgeID>,
    pub next: Option<HalfEdgeID>,
    pub face: Option<FaceID>,
}

impl HalfEdge {
    pub fn id(&self) -> (r: &HalfEdgeID)
        ensures
            *r == self.id,
    {
        &self.id
    }
}

/// A face record: its identity and one of its three half-edges.
#[derive(Clone, Copy, Debug)]
pub struct Face {
    pub id: FaceID,
    pub halfedge: Option<HalfEdgeID>,
}

impl Face {
    pub fn id(&self) -> (r: &FaceID)
        ensures
            *r == self.id,
    {
        &self.id
    }
}

/// The three tables of a connectivity store, slot by slot; `None` marks a
/// deleted slot.
pub struct ConnectivityView {
    pub vertices: Seq<Option<Vertex>>,
    pub halfedges: Seq<Option<HalfEdge>>,
    pub faces: Seq<Option<Face>>,
}

/// Number of live slots of a table.
pub open spec fn live_count<T>(s: Seq<Option<T>>) -> nat
    decreases s.len(),
{
    if s.len() == 0 {
        0
    } else {
        live_count(s.drop_last()) + if s.last() is Some { 1nat } else { 0nat }
    }
}

/// The slot that an optional vertex identifier names.
pub open spec fn vertex_slot(r: Option<VertexID>) -> Option<usize> {
    match r {
        Some(id) => Some(id.index),
        None => None,
    }
}

/// The slot that an optional half-edge identifier names.
pub open spec fn halfedge_slot(r: Option<HalfEdgeID>) -> Option<usize> {
    match r {
        Some(id) => Some(id.index),
        None => None,
    }
}

/// The slot that an optional face identifier names.
pub open spec fn face_slot(r: Option<FaceID>) -> Option<usize> {
    match r {
        Some(id) => Some(id.index),
        None => None,
    }
}

/// `r` is the first live slot of `s` at or after `start`, or `None` if there is none.
pub open spec fn is_next_live<T>(s: Seq<Option<T>>, start: int, r: Option<usize>) -> bool {
    match r {
        Some(i) => start <= i < s.len() && s[i as int] is Some && forall|j: int|
            start <= j < i ==> #[trigger] s[j] is None,
        None => forall|j: int| start <= j < s.len() ==> #[trigger] s[j] is None,
    }
}

pub proof fn lemma_live_count_all_live<T>(s: Seq<Option<T>>)
    requires
        forall|i: int| 0 <= i < s.len() ==> #[trigger] s[i] is Some,
    ensures
        live_count(s) == s.len(),
    decreases s.len(),
{
    if s.len() > 0 {
        assert(s.last() is Some);
        lemma_live_count_all_live(s.drop_last());
    }
}

impl ConnectivityView {
    pub open spec fn vertex_live(self, i: int) -> bool {
        0 <= i < self.vertices.len() && self.vertices[i] is Some
    }

    pub open spec fn halfedge_live(self, i: int) -> bool {
        0 <= i < self.halfedges.len() && self.halfedges[i] is Some
    }

    pub open spec fn face_live(self, i: int) -> bool {
        0 <= i < self.faces.len() && self.faces[i] is Some
    }

    /// The record of vertex `i`.
    pub open spec fn vtx(self, i: int) -> Vertex {
        self.vertices[i]->Some_0
    }

    /// The record of half-edge `i`.
    pub open spec fn he(self, i: int) -> HalfEdge {
        self.halfedges[i]->Some_0
    }

    /// The record of face `i`.
    pub open spec fn fc(self, i: int) -> Face {
        self.faces[i]->Some_0
    }
}

/// The connectivity store: three growable tables addressed by identifiers.
/// Slots are never reused; deletion leaves an empty slot behind.
pub struct ConnectivityInfo {
    vertices: Vec<Option<Vertex>>,
    halfedges: Vec<Option<HalfEdge>>,
    faces: Vec<Option<Face>>,
}

impl View for ConnectivityInfo {
    type V = ConnectivityView;

    closed spec fn view(&self) -> ConnectivityView {
        ConnectivityView {
            vertices: self.vertices@,
            halfedges: self.halfedges@,
            faces: self.faces@,
        }
    }
}

/// Every table of a store holds at most `usize::MAX` slots.
pub proof fn lemma_store_fits(c: &ConnectivityInfo)
    ensures
        c@.vertices.len() <= usize::MAX,
        c@.halfedges.len() <= usize::MAX,
        c@.faces.len() <= usize::MAX,
{
    assert(c.vertices.len() == c.vertices@.len());
    assert(c.halfedges.len() == c.halfedges@.len());
    assert(c.faces.len() == c.faces@.len());
}

impl ConnectivityInfo {
    pub fn new() -> (r: ConnectivityInfo)
        ensures
            r@.vertices.len() == 0,
            r@.halfedges.len() == 0,
            r@.faces.len() == 0,
    {
        ConnectivityInfo { vertices: Vec::new(), halfedges: Vec::new(), faces: Vec::new() }
    }

    pub fn create_vertex(&mut self) -> (id: VertexID)
        requires
            old(self)@.vertices.len() < usize::MAX,
        ensures
            id.index == old(self)@.vertices.len(),
            final(self)@.vertices == old(self)@.vertices.push(
                Some(Vertex { id, halfedge: None }),
            ),
            final(self)@.halfedges == old(self)@.halfedges,
            final(self)@.faces == old(self)@.faces,
    {
        let id = VertexID::new(self.vertices.len());
        self.vertices.push(Some(Vertex { id, halfedge: None }));
        id
    }

    pub fn create_halfedge(&mut self) -> (id: HalfEdgeID)
        requires
            old(self)@.halfedges.len() < usize::MAX,
        ensures
            id.index == old(self)@.halfedges.len(),
            final(self)@.halfedges == old(self)@.halfedges.push(
                Some(HalfEdge { id, vertex: None, twin: None, next: None, face: None }),
            ),
            final(self)@.vertices == old(self)@.vertices,
            final(self)@.faces == old(self)@.faces,
    {
        let id = HalfEdgeID::new(self.halfedges.len());
        self.halfedges.push(Some(HalfEdge { id, vertex: None, twin: None, next: None, face: None }));
        id
    }

    /// Appends a half-edge with the given links.
    pub fn new_halfedge(
        &mut self,
        vertex: Option<VertexID>,
        twin: Option<HalfEdgeID>,
        next: Option<HalfEdgeID>,
        face: Option<FaceID>,
    ) -> (id: HalfEdgeID)
        requires
            old(self)@.halfedges.len() < usize::MAX,
        ensures
            id.index == old(self)@.halfedges.len(),
            final(self)@.halfedges == old(self)@.halfedges.push(
                Some(HalfEdge { id, vertex, twin, next, face }),
            ),
            final(self)@.vertices == old(self)@.vertices,
            final(self)@.faces == old(self)@.faces,
    {
        let id = HalfEdgeID::new(self.halfedges.len());
        self.halfedges.push(Some(HalfEdge { id, vertex, twin, next, face }));
        id
    }

    pub fn create_face(&mut self) -> (id: FaceID)
        requires
            old(self)@.faces.len() < usize::MAX,
        ensures
            id.index == old(self)@.faces.len(),
            final(self)@.faces == old(self)@.faces.push(Some(Face { id, halfedge: None })),
            final(self)@.vertices == old(self)@.vertices,
            final(self)@.halfedges == old(self)@.halfedges,
    {
        let id = FaceID::new(self.faces.len());
        self.faces.push(Some(Face { id, halfedge: None }));
        id
    }

    /// Deletes a vertex: its slot becomes empty and its identifier is never reused.
    pub fn remove_vertex(&mut self, id: &VertexID)
        requires
            old(self)@.vertex_live(id.index as int),
        ensures
            final(self)@.vertices == old(self)@.vertices.update(id.index as int, None),
            final(self)@.halfedges == old(self)@.halfedges,
            final(self)@.faces == old(self)@.faces,
    {
        self.vertices.set(id.index, None);
    }

    /// Deletes a half-edge: its slot becomes empty and its identifier is never reused.
    pub fn remove_halfedge(&mut self, id: &HalfEdgeID)
        requires
            old(self)@.halfedge_live(id.index as int),
        ensures
            final(self)@.halfedges == old(self)@.halfedges.update(id.index as int, None),
            final(self)@.vertices == old(self)@.vertices,
            final(self)@.faces == old(self)@.faces,
    {
        self.halfedges.set(id.index, None);
    }

    /// Deletes a face: its slot becomes empty and its identifier is never reused.
    pub fn remove_face(&mut self, id: &FaceID)
        requires
            old(self)@.face_live(id.index as int),
        ensures
            final(self)@.faces == old(self)@.faces.update(id.index as int, None),
            final(self)@.vertices == old(self)@.vertices,
            final(self)@.halfedges == old(self)@.halfedges,
    {
        self.faces.set(id.index, None);
    }

    pub fn set_vertex_halfedge(&mut self, id: &VertexID, val: Option<HalfEdgeID>)
        requires
            old(self)@.vertex_live(id.index as int),
        ensures
            final(self)@.vertices == old(self)@.vertices.update(
                id.index as int,
                Some(Vertex { halfedge: val, ..old(self)@.vtx(id.index as int) }),
            ),
            final(self)@.halfedges == old(self)@.halfedges,
            final(self)@.faces == old(self)@.faces,
    {
        let mut v = self.vertices[id.index].unwrap();
        v.halfedge = val;
        self.vertices.set(id.index, Some(v));
    }

    pub fn set_halfedge_vertex(&mut self, id: &HalfEdgeID, val: Option<VertexID>)
        requires
            old(self)@.halfedge_live(id.index as int),
        ensures
            final(self)@.halfedges == old(self)@.halfedges.update(
                id.index as int,
                Some(HalfEdge { vertex: val, ..old(self)@.he(id.index as int) }),
            ),
            final(self)@.vertices == old(self)@.vertices,
            final(self)@.faces == old(self)@.faces,
    {
        let mut h = self.halfedges[id.index].unwrap();
        h.vertex = val;
        self.halfedges.set(id.index, Some(h));
    }

    pub fn set_halfedge_next(&mut self, id: &HalfEdgeID, val: Option<HalfEdgeID>)
        requires
            old(self)@.halfedge_live(id.index as int),
        ensures
            final(self)@.halfedges == old(self)@.halfedges.update(
                id.index as int,
                Some(HalfEdge { next: val, ..old(self)@.he(id.index as int) }),
            ),
            final(self)@.vertices == old(self)@.vertices,
            final(self)@.faces == old(self)@.faces,
    {
        let mut h = self.halfedges[id.index].unwrap();
        h.next = val;
        self.halfedges.set(id.index, Some(h));
    }

    pub fn set_halfedge_twin(&mut self, id: &HalfEdgeID, val: Option<HalfEdgeID>)
        requires
            old(self)@.halfedge_live(id.index as int),
        ensures
            final(self)@.halfedges == old(self)@.halfedges.update(
                id.index as int,
                Some(HalfEdge { twin: val, ..old(self)@.he(id.index as int) }),
            ),
            final(self)@.vertices == old(self)@.vertices,
            final(self)@.faces == old(self)@.faces,
    {
        let mut h = self.halfedges[id.index].unwrap();
        h.twin = val;
        self.halfedges.set(id.index, Some(h));
    }

    pub fn set_halfedge_face(&mut self, id: &HalfEdgeID, val: Option<FaceID>)
        requires
            old(self)@.halfedge_live(id.index as int),
        ensures
            final(self)@.halfedges == old(self)@.halfedges.update(
                id.index as int,
                Some(HalfEdge { face: val, ..old(self)@.he(id.index as int) }),
            ),
            final(self)@.vertices == old(self)@.vertices,
            final(self)@.faces == old(self)@.faces,
    {
        let mut h = self.halfedges[id.index].unwrap();
        h.face = val;
        self.halfedges.set(id.index, Some(h));
    }

    pub fn set_face_halfedge(&mut self, id: &FaceID, val: Option<HalfEdgeID>)
        requires
            old(self)@.face_live(id.index as int),
        ensures
            final(self)@.faces == old(self)@.faces.update(
                id.index as int,
                Some(Face { halfedge: val, ..old(self)@.fc(id.index as int) }),
            ),
            final(self)@.vertices == old(self)@.vertices,
            final(self)@.halfedges == old(self)@.halfedges,
    {
        let mut f = self.faces[id.index].unwrap();
        f.halfedge = val;
        self.faces.set(id.index, Some(f));
    }
    pub fn vertex_first_iter(&self) -> (r: Option<VertexID>)
        ensures
            is_next_live(self@.vertices, 0, vertex_slot(r)),
    {
        self.next_vertex(0)
    }

    pub fn vertex_next_iter(&self, index: &VertexID) -> (r: Option<VertexID>)
        ensures
            is_next_live(self@.vertices, index.index + 1, vertex_slot(r)),
    {
        if index.index >= self.vertices.len() {
            return None;
        }
        self.next_vertex(index.index + 1)
    }

    /// The first live vertex whose slot is at or after `start`.
    fn next_vertex(&self, start: usize) -> (r: Option<VertexID>)
        ensures
            is_next_live(self@.vertices, start as int, vertex_slot(r)),
    {
        let mut i: usize = start;
        while i < self.vertices.len()
            invariant
                start <= i,
                forall|j: int| start <= j < i ==> #[trigger] self.vertices@[j] is None,
            decreases self.vertices.len() - i,
        {
            if self.vertices[i].is_some() {
                return Some(VertexID::new(i));
            }
            i = i + 1;
        }
        None
    }

    pub fn halfedge_first_iter(&self) -> (r: Option<HalfEdgeID>)
        ensures
            is_next_live(self@.halfedges, 0, halfedge_slot(r)),
    {
        self.next_halfedge(0)
    }

    pub fn halfedge_next_iter(&self, index: &HalfEdgeID) -> (r: Option<HalfEdgeID>)
        ensures
            is_next_live(self@.halfedges, index.index + 1, halfedge_slot(r)),
    {
        if index.index >= self.halfedges.len() {
            return None;
        }
        self.next_halfedge(index.index + 1)
    }

    /// The first live half-edge whose slot is at or after `start`.
    fn next_halfedge(&self, start: usize) -> (r: Option<HalfEdgeID>)
        ensures
            is_next_live(self@.halfedges, start as int, halfedge_slot(r)),
    {
        let mut i: usize = start;
        while i < self.halfedges.len()
            invariant
                start <= i,
                forall|j: int| start <= j < i ==> #[trigger] self.halfedges@[j] is None,
            decreases self.halfedges.len() - i,
        {
            if self.halfedges[i].is_some() {
                return Some(HalfEdgeID::new(i));
            }
            i = i + 1;
        }
        None
    }

    pub fn face_first_iter(&self) -> (r: Option<FaceID>)
        ensures
            is_next_live(self@.faces, 0, face_slot(r)),
    {
        self.next_face(0)
    }

    pub fn face_next_iter(&self, index: &FaceID) -> (r: Option<FaceID>)
        ensures
            is_next_live(self@.faces, index.index + 1, face_slot(r)),
    {
        if index.index >= self.faces.len() {
            return None;
        }
        self.next_face(index.index + 1)
    }

    /// The first live face whose slot is at or after `start`.
    fn next_face(&self, start: usize) -> (r: Option<FaceID>)
        ensures
            is_next_live(self@.faces, start as int, face_slot(r)),
    {
        let mut i: usize = start;
        while i < self.faces.len()
            invariant
                start <= i,
                forall|j: int| start <= j < i ==> #[trigger] self.faces@[j] is None,
            decreases self.faces.len() - i,
        {
            if self.faces[i].is_some() {
                return Some(FaceID::new(i));
            }
            i = i + 1;
        }
        None
    }

    /// Number of live vertices.
    pub fn no_vertices(&self) -> (r: usize)
        ensures
            r == live_count(self@.vertices),
    {
        count_live(&self.vertices)
    }

    /// Number of live half-edges.
    pub fn no_halfedges(&self) -> (r: usize)
        ensures
            r == live_count(self@.halfedges),
    {
        count_live(&self.halfedges)
    }

    /// Number of live faces.
    pub fn no_faces(&self) -> (r: usize)
        ensures
            r == live_count(self@.faces),
    {
        count_live(&self.faces)
    }

    /// Number of slots of each table, deleted ones included.
    pub fn vertex_slots(&self) -> (r: usize)
        ensures
            r == self@.vertices.len(),
    {
        self.vertices.len()
    }

    pub fn halfedge_slots(&self) -> (r: usize)
        ensures
            r == self@.halfedges.len(),
    {
        self.halfedges.len()
    }

    pub fn face_slots(&self) -> (r: usize)
        ensures
            r == self@.faces.len(),
    {
        self.faces.len()
    }

    /// The record of a half-edge, or `None` if the identifier names no live half-edge.
    pub fn halfedge(&self, id: &HalfEdgeID) -> (r: Option<HalfEdge>)
        ensures
            self@.halfedge_live(id.index as int) ==> r == Some(self@.he(id.index as int)),
            !self@.halfedge_live(id.index as int) ==> r is None,
    {
        if id.index < self.halfedges.len() {
            self.halfedges[id.index]
        } else {
            None
        }
    }

    /// The record of a vertex, or `None` if the identifier names no live vertex.
    pub fn vertex(&self, id: &VertexID) -> (r: Option<Vertex>)
        ensures
            self@.vertex_live(id.index as int) ==> r == Some(self@.vtx(id.index as int)),
            !self@.vertex_live(id.index as int) ==> r is None,
    {
        if id.index < self.vertices.len() {
            self.vertices[id.index]
        } else {
            None
        }
    }

    /// The record of a face, or `None` if the identifier names no live face.
    pub fn face(&self, id: &FaceID) -> (r: Option<Face>)
        ensures
            self@.face_live(id.index as int) ==> r == Some(self@.fc(id.index as int)),
            !self@.face_live(id.index as int) ==> r is None,
    {
        if id.index < self.faces.len() {
            self.faces[id.index]
        } else {
            None
        }
    }

    pub fn vertex_halfedge(&self, vertex_id: &VertexID) -> (r: Option<HalfEdgeID>)
        requires
            self@.vertex_live(vertex_id.index as int),
        ensures
            r == self@.vtx(vertex_id.index as int).halfedge,
    {
        self.vertices[vertex_id.index].unwrap().halfedge
    }

    pub fn halfedge_vertex(&self, halfedge_id: &HalfEdgeID) -> (r: Option<VertexID>)
        requires
            self@.halfedge_live(halfedge_id.index as int),
        ensures
            r == self@.he(halfedge_id.index as int).vertex,
    {
        self.halfedges[halfedge_id.index].unwrap().vertex
    }

    pub fn halfedge_twin(&self, halfedge_id: &HalfEdgeID) -> (r: Option<HalfEdgeID>)
        requires
            self@.halfedge_live(halfedge_id.index as int),
        ensures
            r == self@.he(halfedge_id.index as int).twin,
    {
        self.halfedges[halfedge_id.index].unwrap().twin
    }

    pub fn halfedge_next(&self, halfedge_id: &HalfEdgeID) -> (r: Option<HalfEdgeID>)
        requires
            self@.halfedge_live(halfedge_id.index as int),
        ensures
            r == self@.he(halfedge_id.index as int).next,
    {
        self.halfedges[halfedge_id.index].unwrap().next
    }

    pub fn halfedge_face(&self, halfedge_id: &HalfEdgeID) -> (r: Option<FaceID>)
        requires
            self@.halfedge_live(halfedge_id.index as int),
        ensures
            r == self@.he(halfedge_id.index as int).face,
    {
        self.halfedges[halfedge_id.index].unwrap().face
    }

    pub fn face_halfedge(&self, face_id: &FaceID) -> (r: Option<HalfEdgeID>)
        requires
            self@.face_live(face_id.index as int),
        ensures
            r == self@.fc(face_id.index as int).halfedge,
    {
        self.faces[face_id.index].unwrap().halfedge
    }
}

/// Counts the live slots of a table.
fn count_live<T>(v: &Vec<Option<T>>) -> (r: usize)
    ensures
        r == live_count(v@),
{
    let mut n: usize = 0;
    let mut i: usize = 0;
    while i < v.len()
        invariant
            i <= v.len(),
            n == live_count(v@.subrange(0, i as int)),
            n <= i,
        decreases v.len() - i,
    {
        assert(v@.subrange(0, i + 1).drop_last() =~= v@.subrange(0, i as int));
        if v[i].is_some() {
            n = n + 1;
        }
        i = i + 1;
    }
    assert(v@.subrange(0, v.len() as int) =~= v@);
    n
}

} // verus!
