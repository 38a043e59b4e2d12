use vstd::prelude::*;
use crate::ids::{VertexID, HalfEdgeID, FaceID};
use crate::connectivity_info::{ConnectivityInfo, ConnectivityView, HalfEdge, lemma_live_count_all_live};
use crate::mesh::{
    Mesh, lemma_mesh_view, twin_of, next_of, vertex_of, halfedge_twin_ok, halfedge_loop_ok,
    face_ok,
};

verus! {

/// The record of the half-edge `cur`, if it names a live one.
pub open spec fn record_at(c: ConnectivityView, cur: Option<HalfEdgeID>) -> Option<HalfEdge> {
    match cur {
        Some(h) => if c.halfedge_live(h.index as int) {
            Some(c.he(h.index as int))
        } else {
            None
        },
        None => None,
    }
}

/// Where a walker on `cur` goes by one `twin` step.
pub open spec fn twin_step(c: ConnectivityView, cur: Option<HalfEdgeID>) -> Option<HalfEdgeID> {
    match record_at(c, cur) {
        Some(r) => r.twin,
        None => None,
    }
}

/// Where a walker on `cur` goes by one `next` step.
pub open spec fn next_step(c: ConnectivityView, cur: Option<HalfEdgeID>) -> Option<HalfEdgeID> {
    match record_at(c, cur) {
        Some(r) => r.next,
        None => None,
    }
}

/// The vertex that the half-edge `cur` points to.
pub open spec fn vertex_at(c: ConnectivityView, cur: Option<HalfEdgeID>) -> Option<VertexID> {
    match record_at(c, cur) {
        Some(r) => r.vertex,
        None => None,
    }
}

/// The face that the half-edge `cur` borders.
pub open spec fn face_at(c: ConnectivityView, cur: Option<HalfEdgeID>) -> Option<FaceID> {
    match record_at(c, cur) {
        Some(r) => r.face,
        None => None,
    }
}

/// A cursor over a connectivity store: it stands on a half-edge, or on none.
#[derive(Clone, Copy)]
pub struct Walker<'a> {
    connectivity_info: &'a ConnectivityInfo,
    current: Option<HalfEdgeID>,
    current_info: Option<HalfEdge>,
}

impl<'a> Walker<'a> {
    /// The store that the walker reads.
    pub closed spec fn store(&self) -> ConnectivityView {
        self.connectivity_info@
    }

    /// The half-edge that the walker stands on.
    pub closed spec fn position(&self) -> Option<HalfEdgeID> {
        self.current
    }

    /// The cached record is the record of the current half-edge.
    pub closed spec fn inv(&self) -> bool {
        self.current_info == record_at(self.connectivity_info@, self.current)
    }

    pub fn new(connectivity_info: &'a ConnectivityInfo) -> (w: Walker<'a>)
        ensures
            w.inv(),
            w.store() == connectivity_info@,
            w.position() is None,
    {
        Walker { current: None, current_info: None, connectivity_info }
    }

    fn set_current(&mut self, halfedge_id: Option<HalfEdgeID>)
        ensures
            final(self).inv(),
            final(self).store() == old(self).store(),
            final(self).position() == halfedge_id,
    {
        self.current_info = match halfedge_id {
            Some(id) => self.connectivity_info.halfedge(&id),
            None => None,
        };
        self.current = halfedge_id;
    }

    pub fn into_vertex_halfedge_walker(self, vertex_id: &VertexID) -> (w: Walker<'a>)
        requires
            self.store().vertex_live(vertex_id.index as int),
        ensures
            w.inv(),
            w.store() == self.store(),
            w.position() == self.store().vtx(vertex_id.index as int).halfedge,
    {
        let mut w = self;
        w.as_vertex_halfedge_walker(vertex_id);
        w
    }

    /// Moves to the half-edge that the vertex names.
    pub fn as_vertex_halfedge_walker(&mut self, vertex_id: &VertexID) -> (r: &mut Walker<'a>)
        requires
            old(self).store().vertex_live(vertex_id.index as int),
        ensures
            r.inv(),
            r.store() == old(self).store(),
            r.position() == old(self).store().vtx(vertex_id.index as int).halfedge,
            *final(self) == *final(r),
    {
        let halfedge_id = self.connectivity_info.vertex_halfedge(vertex_id);
        self.set_current(halfedge_id);
        self
    }

    pub fn into_halfedge_walker(self, halfedge_id: &HalfEdgeID) -> (w: Walker<'a>)
        ensures
            w.inv(),
            w.store() == self.store(),
            w.position() == Some(*halfedge_id),
    {
        let mut w = self;
        w.as_halfedge_walker(halfedge_id);
        w
    }

    /// Moves to the given half-edge.
    pub fn as_halfedge_walker(&mut self, halfedge_id: &HalfEdgeID) -> (r: &mut Walker<'a>)
        ensures
            r.inv(),
            r.store() == old(self).store(),
            r.position() == Some(*halfedge_id),
            *final(self) == *final(r),
    {
        self.set_current(Some(*halfedge_id));
        self
    }

    pub fn into_face_halfedge_walker(self, face_id: &FaceID) -> (w: Walker<'a>)
        requires
            self.store().face_live(face_id.index as int),
        ensures
            w.inv(),
            w.store() == self.store(),
            w.position() == self.store().fc(face_id.index as int).halfedge,
    {
        let mut w = self;
        w.as_face_halfedge_walker(face_id);
        w
    }

    /// Moves to the half-edge that the face names.
    pub fn as_face_halfedge_walker(&mut self, face_id: &FaceID) -> (r: &mut Walker<'a>)
        requires
            old(self).store().face_live(face_id.index as int),
        ensures
            r.inv(),
            r.store() == old(self).store(),
            r.position() == old(self).store().fc(face_id.index as int).halfedge,
            *final(self) == *final(r),
    {
        let halfedge_id = self.connectivity_info.face_halfedge(face_id);
        self.set_current(halfedge_id);
        self
    }

    pub fn into_twin(self) -> (w: Walker<'a>)
        requires
            self.inv(),
        ensures
            w.inv(),
            w.store() == self.store(),
            w.position() == twin_step(self.store(), self.position()),
    {
        let mut w = self;
        w.as_twin();
        w
    }

    /// Steps to the twin; from no half-edge, or from one without a twin, to none.
    pub fn as_twin(&mut self) -> (r: &mut Walker<'a>)
        requires
            old(self).inv(),
        ensures
            r.inv(),
            r.store() == old(self).store(),
            r.position() == twin_step(old(self).store(), old(self).position()),
            *final(self) == *final(r),
    {
        let halfedge_id = match self.current_info {
            Some(current_info) => current_info.twin,
            None => None,
        };
        self.set_current(halfedge_id);
        self
    }

    pub fn twin_id(&self) -> (r: Option<HalfEdgeID>)
        requires
            self.inv(),
        ensures
            r == twin_step(self.store(), self.position()),
    {
        match self.current_info {
            Some(halfedge) => halfedge.twin,
            None => None,
        }
    }

    pub fn into_next(self) -> (w: Walker<'a>)
        requires
            self.inv(),
        ensures
            w.inv(),
            w.store() == self.store(),
            w.position() == next_step(self.store(), self.position()),
    {
        let mut w = self;
        w.as_next();
        w
    }

    /// Steps to the next half-edge around the face.
    pub fn as_next(&mut self) -> (r: &mut Walker<'a>)
        requires
            old(self).inv(),
        ensures
            r.inv(),
            r.store() == old(self).store(),
            r.position() == next_step(old(self).store(), old(self).position()),
            *final(self) == *final(r),
    {
        let halfedge_id = match self.current_info {
            Some(current_info) => current_info.next,
            None => None,
        };
        self.set_current(halfedge_id);
        self
    }

    pub fn next_id(&self) -> (r: Option<HalfEdgeID>)
        requires
            self.inv(),
        ensures
            r == next_step(self.store(), self.position()),
    {
        match self.current_info {
            Some(halfedge) => halfedge.next,
            None => None,
        }
    }

    /// Steps to the previous half-edge around the face: `next` twice.
    pub fn as_previous(&mut self) -> (r: &mut Walker<'a>)
        requires
            old(self).inv(),
        ensures
            r.inv(),
            r.store() == old(self).store(),
            r.position() == next_step(
                old(self).store(),
                next_step(old(self).store(), old(self).position()),
            ),
            *final(self) == *final(r),
    {
        self.as_next();
        self.as_next();
        self
    }

    pub fn into_previous(self) -> (w: Walker<'a>)
        requires
            self.inv(),
        ensures
            w.inv(),
            w.store() == self.store(),
            w.position() == next_step(self.store(), next_step(self.store(), self.position())),
    {
        let mut w = self;
        w.as_previous();
        w
    }

    pub fn previous_id(&self) -> (r: Option<HalfEdgeID>)
        requires
            self.inv(),
        ensures
            r == next_step(self.store(), next_step(self.store(), self.position())),
    {
        match self.next_id() {
            Some(next_id) => Walker::new(self.connectivity_info).into_halfedge_walker(
                &next_id,
            ).next_id(),
            None => None,
        }
    }

    pub fn vertex_id(&self) -> (r: Option<VertexID>)
        requires
            self.inv(),
        ensures
            r == vertex_at(self.store(), self.position()),
    {
        match self.current_info {
            Some(halfedge) => halfedge.vertex,
            None => None,
        }
    }

    pub fn halfedge_id(&self) -> (r: Option<HalfEdgeID>)
        ensures
            r == self.position(),
    {
        self.current
    }

    pub fn face_id(&self) -> (r: Option<FaceID>)
        requires
            self.inv(),
        ensures
            r == face_at(self.store(), self.position()),
    {
        match self.current_info {
            Some(halfedge) => halfedge.face,
            None => None,
        }
    }
}

/// From a half-edge inside a face, turn around its end vertex: `next`, then
/// `twin`, until reaching a half-edge without a face, at most `fuel` times.
pub open spec fn hole_jump(c: ConnectivityView, cur: Option<HalfEdgeID>, fuel: nat) -> Option<
    HalfEdgeID,
>
    decreases fuel,
{
    if fuel == 0 || face_at(c, cur) is None {
        cur
    } else {
        hole_jump(c, twin_step(c, next_step(c, cur)), (fuel - 1) as nat)
    }
}

/// One step of the one-ring walk around a vertex, from an outgoing half-edge
/// to the next one: `previous` then `twin` inside a face; on the boundary,
/// across the gap to the outgoing half-edge on its other side.
pub open spec fn ring_step(c: ConnectivityView, cur: Option<HalfEdgeID>) -> Option<HalfEdgeID> {
    if face_at(c, cur) is Some {
        twin_step(c, next_step(c, next_step(c, cur)))
    } else {
        twin_step(c, hole_jump(c, twin_step(c, cur), c.halfedges.len() as nat))
    }
}

/// Walks the half-edges that leave a vertex.
pub struct VertexHalfedgeIter<'a> {
    current: Walker<'a>,
    start: Option<HalfEdgeID>,
    is_done: bool,
}

impl<'a> VertexHalfedgeIter<'a> {
    pub closed spec fn walker(&self) -> Walker<'a> {
        self.current
    }

    pub closed spec fn start(&self) -> Option<HalfEdgeID> {
        self.start
    }

    pub closed spec fn done(&self) -> bool {
        self.is_done
    }

    /// Starts at the half-edge that the vertex names; a vertex that names
    /// none gives an empty walk.
    pub fn new(vertex_id: &VertexID, connectivity_info: &'a ConnectivityInfo) -> (it:
        VertexHalfedgeIter<'a>)
        requires
            connectivity_info@.vertex_live(vertex_id.index as int),
        ensures
            it.walker().inv(),
            it.walker().store() == connectivity_info@,
            it.walker().position() == connectivity_info@.vtx(vertex_id.index as int).halfedge,
            it.start() == it.walker().position(),
            it.done() == (it.start() is None),
    {
        let current = Walker::new(connectivity_info).into_vertex_halfedge_walker(vertex_id);
        let start = current.halfedge_id();
        VertexHalfedgeIter { current, start, is_done: start.is_none() }
    }

    /// Hands out a walker on the current outgoing half-edge and moves on to the
    /// next one; the walk is over when it comes back to where it started.
    pub fn next(&mut self) -> (r: Option<Walker<'a>>)
        requires
            old(self).walker().inv(),
        ensures
            final(self).walker().inv(),
            final(self).walker().store() == old(self).walker().store(),
            final(self).start() == old(self).start(),
            old(self).done() ==> r is None && *final(self) == *old(self),
            !old(self).done() ==> {
                &&& r == Some(old(self).walker())
                &&& final(self).walker().position() == ring_step(
                    old(self).walker().store(),
                    old(self).walker().position(),
                )
                &&& final(self).done() == (final(self).walker().position() is None
                    || old(self).start() is None || final(self).walker().position() == old(
                    self,
                ).start())
            },
    {
        if self.is_done {
            return None;
        }
        let curr = self.current;
        let ghost c = self.current.store();
        if self.current.face_id().is_some() {
            self.current.as_previous();
            self.current.as_twin();
        } else {
            self.current.as_twin();
            let ghost target = hole_jump(c, self.current.position(), c.halfedges.len() as nat);
            let mut fuel: usize = self.current.connectivity_info.halfedge_slots();
            while fuel > 0 && self.current.face_id().is_some()
                invariant
                    self.current.inv(),
                    self.current.store() == c,
                    self.start == old(self).start,
                    self.is_done == old(self).is_done,
                    hole_jump(c, self.current.position(), fuel as nat) == target,
                decreases fuel,
            {
                self.current.as_next();
                self.current.as_twin();
                fuel = fuel - 1;
            }
            self.current.as_twin();
        }
        self.is_done = match self.current.halfedge_id() {
            Some(h) => match self.start {
                Some(s) => h == s,
                None => true,
            },
            None => true,
        };
        Some(curr)
    }
}

/// Walks the half-edges around a face.
pub struct FaceHalfedgeIter<'a> {
    current: Walker<'a>,
    start: Option<HalfEdgeID>,
    is_done: bool,
}

impl<'a> FaceHalfedgeIter<'a> {
    pub closed spec fn walker(&self) -> Walker<'a> {
        self.current
    }

    pub closed spec fn start(&self) -> Option<HalfEdgeID> {
        self.start
    }

    pub closed spec fn done(&self) -> bool {
        self.is_done
    }

    /// Starts at the half-edge that the face names.
    pub fn new(face_id: &FaceID, connectivity_info: &'a ConnectivityInfo) -> (it: FaceHalfedgeIter<
        'a,
    >)
        requires
            connectivity_info@.face_live(face_id.index as int),
        ensures
            it.walker().inv(),
            it.walker().store() == connectivity_info@,
            it.walker().position() == connectivity_info@.fc(face_id.index as int).halfedge,
            it.start() == it.walker().position(),
            it.done() == (it.start() is None),
    {
        let current = Walker::new(connectivity_info).into_face_halfedge_walker(face_id);
        let start = current.halfedge_id();
        FaceHalfedgeIter { current, start, is_done: start.is_none() }
    }

    /// Hands out a walker on the current half-edge and steps to the next one
    /// around the face; the walk is over when it comes back to where it started.
    pub fn next(&mut self) -> (r: Option<Walker<'a>>)
        requires
            old(self).walker().inv(),
        ensures
            final(self).walker().inv(),
            final(self).walker().store() == old(self).walker().store(),
            final(self).start() == old(self).start(),
            old(self).done() ==> r is None && *final(self) == *old(self),
            !old(self).done() ==> {
                &&& r == Some(old(self).walker())
                &&& final(self).walker().position() == next_step(
                    old(self).walker().store(),
                    old(self).walker().position(),
                )
                &&& final(self).done() == (final(self).walker().position() is None
                    || old(self).start() is None || final(self).walker().position() == old(
                    self,
                ).start())
            },
    {
        if self.is_done {
            return None;
        }
        let curr = self.current;
        self.current.as_next();
        self.is_done = match self.current.halfedge_id() {
            Some(h) => match self.start {
                Some(s) => h == s,
                None => true,
            },
            None => true,
        };
        Some(curr)
    }
}

/// The pairs `(h, twin(h))` with `h < twin(h)`, for the first `n` half-edges, in order.
pub open spec fn twin_pairs(c: ConnectivityView, n: nat) -> Seq<(HalfEdgeID, HalfEdgeID)>
    decreases n,
{
    if n == 0 {
        seq![]
    } else {
        let h = n - 1;
        if h < twin_of(c, h) {
            twin_pairs(c, (n - 1) as nat).push(
                (HalfEdgeID { index: h as usize }, c.he(h).twin->Some_0),
            )
        } else {
            twin_pairs(c, (n - 1) as nat)
        }
    }
}

/// The two end vertices of half-edge `h`, the one with the smaller index first.
pub open spec fn ordered_edge(c: ConnectivityView, h: int) -> (VertexID, VertexID) {
    let a = c.he(twin_of(c, h)).vertex->Some_0;
    let b = c.he(h).vertex->Some_0;
    if a.index < b.index {
        (a, b)
    } else {
        (b, a)
    }
}

/// `e` is the pair of end vertices of some half-edge.
pub open spec fn is_edge_of(c: ConnectivityView, e: (VertexID, VertexID)) -> bool {
    exists|h: int| 0 <= h < c.halfedges.len() && e == ordered_edge(c, h)
}

impl Mesh {
    /// A walker on no half-edge.
    pub fn walker(&self) -> (w: Walker<'_>)
        ensures
            w.inv(),
            w.store() == self@,
            w.position() is None,
    {
        proof {
            lemma_mesh_view(self);
        }
        Walker::new(&self.connectivity_info)
    }

    /// A walker on the half-edge that leaves the given vertex.
    pub fn walker_from_vertex(&self, vertex_id: &VertexID) -> (w: Walker<'_>)
        requires
            self.wf(),
            vertex_id.index < self@.vertices.len(),
        ensures
            w.inv(),
            w.store() == self@,
            w.position() == self@.vtx(vertex_id.index as int).halfedge,
    {
        proof {
            lemma_mesh_view(self);
        }
        Walker::new(&self.connectivity_info).into_vertex_halfedge_walker(vertex_id)
    }

    /// A walker on the given half-edge.
    pub fn walker_from_halfedge(&self, halfedge_id: &HalfEdgeID) -> (w: Walker<'_>)
        ensures
            w.inv(),
            w.store() == self@,
            w.position() == Some(*halfedge_id),
    {
        proof {
            lemma_mesh_view(self);
        }
        Walker::new(&self.connectivity_info).into_halfedge_walker(halfedge_id)
    }

    /// A walker on the half-edge that the given face names.
    pub fn walker_from_face(&self, face_id: &FaceID) -> (w: Walker<'_>)
        requires
            self.wf(),
            face_id.index < self@.faces.len(),
        ensures
            w.inv(),
            w.store() == self@,
            w.position() == self@.fc(face_id.index as int).halfedge,
    {
        proof {
            lemma_mesh_view(self);
        }
        Walker::new(&self.connectivity_info).into_face_halfedge_walker(face_id)
    }

    /// The walk around the one-ring of a vertex.
    pub fn vertex_halfedge_iter(&self, vertex_id: &VertexID) -> (it: VertexHalfedgeIter<'_>)
        requires
            self.wf(),
            vertex_id.index < self@.vertices.len(),
        ensures
            it.walker().inv(),
            it.walker().store() == self@,
            it.walker().position() == self@.vtx(vertex_id.index as int).halfedge,
            it.start() == it.walker().position(),
            it.done() == (it.start() is None),
    {
        proof {
            lemma_mesh_view(self);
        }
        VertexHalfedgeIter::new(vertex_id, &self.connectivity_info)
    }

    /// The walk around the three half-edges of a face.
    pub fn face_halfedge_iter(&self, face_id: &FaceID) -> (it: FaceHalfedgeIter<'_>)
        requires
            self.wf(),
            face_id.index < self@.faces.len(),
        ensures
            it.walker().inv(),
            it.walker().store() == self@,
            it.walker().position() == self@.fc(face_id.index as int).halfedge,
            it.start() == it.walker().position(),
            it.done() == (it.start() is None),
    {
        proof {
            lemma_mesh_view(self);
        }
        FaceHalfedgeIter::new(face_id, &self.connectivity_info)
    }

    /// The identifiers of the live vertices, smallest first.
    pub fn vertex_iter(&self) -> (r: Vec<VertexID>)
        requires
            self.wf(),
        ensures
            r@.len() == self@.vertices.len(),
            forall|i: int| 0 <= i < r@.len() ==> (#[trigger] r@[i]).index == i,
    {
        proof {
            lemma_mesh_view(self);
        }
        let n = self.connectivity_info.vertex_slots();
        let mut r: Vec<VertexID> = Vec::new();
        let mut cur = self.connectivity_info.vertex_first_iter();
        proof {
            if n > 0 {
                assert(self@.vertices[0] is Some);
            }
        }
        while cur.is_some()
            invariant
                n == self@.vertices.len(),
                self.wf(),
                self@ == self.connectivity_info@,
                r@.len() <= n,
                cur matches Some(id) ==> id.index == r@.len() && id.index < n,
                cur is None ==> r@.len() == n,
                forall|i: int| 0 <= i < r@.len() ==> (#[trigger] r@[i]).index == i,
            decreases n - r@.len(),
        {
            let id = cur.unwrap();
            r.push(id);
            cur = self.connectivity_info.vertex_next_iter(&id);
            proof {
                if r@.len() < n {
                    assert(self@.vertices[r@.len() as int] is Some);
                }
            }
        }
        r
    }

    /// The identifiers of the live half-edges, smallest first.
    pub fn halfedge_iter(&self) -> (r: Vec<HalfEdgeID>)
        requires
            self.wf(),
        ensures
            r@.len() == self@.halfedges.len(),
            forall|i: int| 0 <= i < r@.len() ==> (#[trigger] r@[i]).index == i,
    {
        proof {
            lemma_mesh_view(self);
        }
        let n = self.connectivity_info.halfedge_slots();
        let mut r: Vec<HalfEdgeID> = Vec::new();
        let mut cur = self.connectivity_info.halfedge_first_iter();
        proof {
            if n > 0 {
                assert(self@.halfedges[0] is Some);
            }
        }
        while cur.is_some()
            invariant
                n == self@.halfedges.len(),
                self.wf(),
                self@ == self.connectivity_info@,
                r@.len() <= n,
                cur matches Some(id) ==> id.index == r@.len() && id.index < n,
                cur is None ==> r@.len() == n,
                forall|i: int| 0 <= i < r@.len() ==> (#[trigger] r@[i]).index == i,
            decreases n - r@.len(),
        {
            let id = cur.unwrap();
            r.push(id);
            cur = self.connectivity_info.halfedge_next_iter(&id);
            proof {
                if r@.len() < n {
                    assert(self@.halfedges[r@.len() as int] is Some);
                }
            }
        }
        r
    }

    /// The identifiers of the live faces, smallest first.
    pub fn face_iter(&self) -> (r: Vec<FaceID>)
        requires
            self.wf(),
        ensures
            r@.len() == self@.faces.len(),
            forall|i: int| 0 <= i < r@.len() ==> (#[trigger] r@[i]).index == i,
    {
        proof {
            lemma_mesh_view(self);
        }
        let n = self.connectivity_info.face_slots();
        let mut r: Vec<FaceID> = Vec::new();
        let mut cur = self.connectivity_info.face_first_iter();
        proof {
            if n > 0 {
                assert(self@.faces[0] is Some);
            }
        }
        while cur.is_some()
            invariant
                n == self@.faces.len(),
                self.wf(),
                self@ == self.connectivity_info@,
                r@.len() <= n,
                cur matches Some(id) ==> id.index == r@.len() && id.index < n,
                cur is None ==> r@.len() == n,
                forall|i: int| 0 <= i < r@.len() ==> (#[trigger] r@[i]).index == i,
            decreases n - r@.len(),
        {
            let id = cur.unwrap();
            r.push(id);
            cur = self.connectivity_info.face_next_iter(&id);
            proof {
                if r@.len() < n {
                    assert(self@.faces[r@.len() as int] is Some);
                }
            }
        }
        r
    }

    /// Each pair of twins once, as `(h, twin(h))` with `h < twin(h)`, in the
    /// order of `h`.
    pub fn halfedge_twins_iter(&self) -> (r: Vec<(HalfEdgeID, HalfEdgeID)>)
        requires
            self.wf(),
        ensures
            r@ == twin_pairs(self@, self@.halfedges.len()),
    {
        let halfedges = self.halfedge_iter();
        let mut values: Vec<(HalfEdgeID, HalfEdgeID)> = Vec::new();
        let mut i: usize = 0;
        while i < halfedges.len()
            invariant
                self.wf(),
                halfedges@.len() == self@.halfedges.len(),
                forall|j: int| 0 <= j < halfedges@.len() ==> (#[trigger] halfedges@[j]).index == j,
                i <= halfedges@.len(),
                values@ == twin_pairs(self@, i as nat),
            decreases halfedges.len() - i,
        {
            let halfedge_id = halfedges[i];
            proof {
                assert(halfedge_twin_ok(self@, i as int));
            }
            let twin_id = self.walker_from_halfedge(&halfedge_id).twin_id().unwrap();
            if halfedge_id.index < twin_id.index {
                values.push((halfedge_id, twin_id));
            }
            i = i + 1;
        }
        values
    }

    /// The two end vertices of a half-edge, the one with the smaller index first.
    pub fn ordered_edge_vertices(&self, halfedge_id: &HalfEdgeID) -> (r: (VertexID, VertexID))
        requires
            self.wf(),
            halfedge_id.index < self@.halfedges.len(),
        ensures
            r == ordered_edge(self@, halfedge_id.index as int),
    {
        proof {
            assert(halfedge_twin_ok(self@, halfedge_id.index as int));
            assert(halfedge_loop_ok(self@, halfedge_id.index as int));
            let t = twin_of(self@, halfedge_id.index as int);
            assert(halfedge_loop_ok(self@, t));
        }
        let w = self.walker_from_halfedge(halfedge_id);
        let v0 = w.vertex_id().unwrap();
        let v1 = w.into_twin().vertex_id().unwrap();
        if v1.index < v0.index {
            (v1, v0)
        } else {
            (v0, v1)
        }
    }

    /// Each undirected edge once, as its two end vertices with the smaller
    /// index first.
    pub fn edge_iter(&self) -> (r: Vec<(VertexID, VertexID)>)
        requires
            self.wf(),
        ensures
            forall|j: int| 0 <= j < r@.len() ==> #[trigger] is_edge_of(self@, r@[j]),
            forall|h: int|
                0 <= h < self@.halfedges.len() ==> r@.contains(#[trigger] ordered_edge(self@, h)),
            forall|j1: int, j2: int|
                0 <= j1 < j2 < r@.len() ==> #[trigger] r@[j1] != #[trigger] r@[j2],
    {
        let halfedges = self.halfedge_iter();
        let mut r: Vec<(VertexID, VertexID)> = Vec::new();
        let mut i: usize = 0;
        while i < halfedges.len()
            invariant
                self.wf(),
                halfedges@.len() == self@.halfedges.len(),
                forall|j: int| 0 <= j < halfedges@.len() ==> (#[trigger] halfedges@[j]).index == j,
                i <= halfedges@.len(),
                forall|j: int|
                    0 <= j < r@.len() ==> exists|h: int|
                        0 <= h < i && #[trigger] r@[j] == ordered_edge(self@, h),
                forall|h: int| 0 <= h < i ==> r@.contains(#[trigger] ordered_edge(self@, h)),
                forall|j1: int, j2: int|
                    0 <= j1 < j2 < r@.len() ==> #[trigger] r@[j1] != #[trigger] r@[j2],
            decreases halfedges.len() - i,
        {
            let e = self.ordered_edge_vertices(&halfedges[i]);
            let mut found = false;
            let mut j: usize = 0;
            while j < r.len()
                invariant
                    j <= r@.len(),
                    found == exists|m: int| 0 <= m < j && r@[m] == e,
                decreases r.len() - j,
            {
                if r[j].0 == e.0 && r[j].1 == e.1 {
                    found = true;
                }
                j = j + 1;
            }
            let ghost old_r = r@;
            if !found {
                r.push(e);
                proof {
                    assert forall|j1: int, j2: int|
                        0 <= j1 < j2 < r@.len() implies #[trigger] r@[j1] != #[trigger] r@[j2] by {
                        if j2 == r@.len() - 1 {
                            assert(r@[j2] == e);
                            assert(old_r[j1] == r@[j1]);
                        } else {
                            assert(old_r[j1] != old_r[j2]);
                        }
                    }
                    assert(r@[old_r.len() as int] == e);
                }
            }
            proof {
                assert(r@.contains(e));
                assert forall|h: int| 0 <= h < i + 1 implies r@.contains(
                    #[trigger] ordered_edge(self@, h),
                ) by {
                    if h < i {
                        assert(old_r.contains(ordered_edge(self@, h)));
                        let m = choose|m: int| 0 <= m < old_r.len() && old_r[m] == ordered_edge(self@, h);
                        assert(r@[m] == old_r[m]);
                    }
                }
                assert forall|j: int| 0 <= j < r@.len() implies exists|h: int|
                    0 <= h < i + 1 && #[trigger] r@[j] == ordered_edge(self@, h) by {
                    if j < old_r.len() {
                        assert(r@[j] == old_r[j]);
                        let h = choose|h: int| 0 <= h < i && old_r[j] == ordered_edge(self@, h);
                        assert(0 <= h < i + 1 && r@[j] == ordered_edge(self@, h));
                    } else {
                        assert(r@[j] == ordered_edge(self@, i as int));
                    }
                }
            }
            i = i + 1;
        }
        proof {
            assert forall|j: int| 0 <= j < r@.len() implies #[trigger] is_edge_of(self@, r@[j]) by {
                let h = choose|h: int| 0 <= h < i && r@[j] == ordered_edge(self@, h);
                assert(0 <= h < self@.halfedges.len() && r@[j] == ordered_edge(self@, h));
            }
        }
        r
    }
}

/// The vertex at corner `k` of face `f`: the end of the `k`-th half-edge of
/// its loop, counted from the half-edge that the face names.
pub open spec fn corner(c: ConnectivityView, f: int, k: int) -> int {
    let h = c.fc(f).halfedge->Some_0.index as int;
    if k == 0 {
        vertex_of(c, h)
    } else if k == 1 {
        vertex_of(c, next_of(c, h))
    } else {
        vertex_of(c, next_of(c, next_of(c, h)))
    }
}

/// Every corner of a face of a well-formed mesh is a vertex of it.
pub proof fn lemma_corner_in_range(c: ConnectivityView, f: int, k: int)
    requires
        crate::mesh::mesh_wf(c),
        0 <= f < c.faces.len(),
        0 <= k < 3,
    ensures
        0 <= corner(c, f, k) < c.vertices.len(),
{
    assert(face_ok(c, f));
    let h = c.fc(f).halfedge->Some_0.index as int;
    assert(halfedge_loop_ok(c, h));
    assert(halfedge_loop_ok(c, next_of(c, h)));
    assert(halfedge_loop_ok(c, next_of(c, next_of(c, h))));
}

/// `h` leaves vertex `a` and ends at vertex `b`.
pub open spec fn joins(c: ConnectivityView, h: int, a: int, b: int) -> bool {
    vertex_of(c, twin_of(c, h)) == a && vertex_of(c, h) == b
}

impl Mesh {
    /// Number of vertices.
    pub fn no_vertices(&self) -> (r: usize)
        requires
            self.wf(),
        ensures
            r == self@.vertices.len(),
    {
        proof {
            lemma_mesh_view(self);
            lemma_live_count_all_live(self@.vertices);
        }
        self.connectivity_info.no_vertices()
    }

    /// Number of half-edges.
    pub fn no_halfedges(&self) -> (r: usize)
        requires
            self.wf(),
        ensures
            r == self@.halfedges.len(),
    {
        proof {
            lemma_mesh_view(self);
            lemma_live_count_all_live(self@.halfedges);
        }
        self.connectivity_info.no_halfedges()
    }

    /// Number of faces.
    pub fn no_faces(&self) -> (r: usize)
        requires
            self.wf(),
        ensures
            r == self@.faces.len(),
    {
        proof {
            lemma_mesh_view(self);
            lemma_live_count_all_live(self@.faces);
        }
        self.connectivity_info.no_faces()
    }

    /// The three corners of a face, in the order of its loop.
    pub fn face_vertices(&self, face_id: &FaceID) -> (r: (VertexID, VertexID, VertexID))
        requires
            self.wf(),
            face_id.index < self@.faces.len(),
        ensures
            r.0.index == corner(self@, face_id.index as int, 0),
            r.1.index == corner(self@, face_id.index as int, 1),
            r.2.index == corner(self@, face_id.index as int, 2),
            r.0.index < self@.vertices.len(),
            r.1.index < self@.vertices.len(),
            r.2.index < self@.vertices.len(),
    {
        proof {
            let c = self@;
            let f = face_id.index as int;
            assert(face_ok(c, f));
            let h = c.fc(f).halfedge->Some_0.index as int;
            assert(halfedge_loop_ok(c, h));
            assert(halfedge_loop_ok(c, next_of(c, h)));
            assert(halfedge_loop_ok(c, next_of(c, next_of(c, h))));
        }
        let mut w = self.walker_from_face(face_id);
        let v0 = w.vertex_id().unwrap();
        w.as_next();
        let v1 = w.vertex_id().unwrap();
        w.as_next();
        let v2 = w.vertex_id().unwrap();
        (v0, v1, v2)
    }

    /// The corners of every face, face by face in the order of the faces and
    /// each in the order of its loop: three entries per face, each the index
    /// of a vertex.
    pub fn indices_buffer(&self) -> (r: Vec<u32>)
        requires
            self.wf(),
            self@.vertices.len() <= u32::MAX,
        ensures
            r@.len() == 3 * self@.faces.len(),
            forall|f: int, k: int|
                0 <= f < self@.faces.len() && 0 <= k < 3 ==> #[trigger] r@[3 * f + k] as int
                    == corner(self@, f, k),
    {
        let faces = self.face_iter();
        let mut indices: Vec<u32> = Vec::new();
        let mut i: usize = 0;
        while i < faces.len()
            invariant
                self.wf(),
                self@.vertices.len() <= u32::MAX,
                faces@.len() == self@.faces.len(),
                forall|j: int| 0 <= j < faces@.len() ==> (#[trigger] faces@[j]).index == j,
                i <= faces@.len(),
                indices@.len() == 3 * i,
                forall|f: int, k: int|
                    0 <= f < i && 0 <= k < 3 ==> #[trigger] indices@[3 * f + k] as int == corner(
                        self@,
                        f,
                        k,
                    ),
            decreases faces.len() - i,
        {
            let (v0, v1, v2) = self.face_vertices(&faces[i]);
            let ghost before = indices@;
            indices.push(v0.index as u32);
            indices.push(v1.index as u32);
            indices.push(v2.index as u32);
            proof {
                assert forall|f: int, k: int| 0 <= f < i + 1 && 0 <= k < 3 implies #[trigger] indices@[3
                    * f + k] as int == corner(self@, f, k) by {
                    if f < i {
                        assert(indices@[3 * f + k] == before[3 * f + k]);
                    }
                }
            }
            i = i + 1;
        }
        indices
    }

    /// The half-edge that leaves `vertex_id1` and ends at `vertex_id2`, if
    /// there is one; the first such if there are several.
    pub fn connecting_edge(&self, vertex_id1: &VertexID, vertex_id2: &VertexID) -> (r: Option<
        HalfEdgeID,
    >)
        requires
            self.wf(),
        ensures
            r matches Some(h) ==> h.index < self@.halfedges.len() && joins(
                self@,
                h.index as int,
                vertex_id1.index as int,
                vertex_id2.index as int,
            ),
            r is None ==> forall|h: int|
                0 <= h < self@.halfedges.len() ==> !#[trigger] joins(
                    self@,
                    h,
                    vertex_id1.index as int,
                    vertex_id2.index as int,
                ),
    {
        let halfedges = self.halfedge_iter();
        let mut i: usize = 0;
        while i < halfedges.len()
            invariant
                self.wf(),
                halfedges@.len() == self@.halfedges.len(),
                forall|j: int| 0 <= j < halfedges@.len() ==> (#[trigger] halfedges@[j]).index == j,
                i <= halfedges@.len(),
                forall|h: int|
                    0 <= h < i ==> !#[trigger] joins(
                        self@,
                        h,
                        vertex_id1.index as int,
                        vertex_id2.index as int,
                    ),
            decreases halfedges.len() - i,
        {
            proof {
                assert(halfedge_twin_ok(self@, i as int));
                assert(halfedge_loop_ok(self@, i as int));
                assert(halfedge_loop_ok(self@, twin_of(self@, i as int)));
            }
            let w = self.walker_from_halfedge(&halfedges[i]);
            let b = w.vertex_id().unwrap();
            let a = w.into_twin().vertex_id().unwrap();
            if a == *vertex_id1 && b == *vertex_id2 {
                return Some(halfedges[i]);
            }
            i = i + 1;
        }
        None
    }
}

} // verus!
