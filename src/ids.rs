use vstd::prelude::*;

verus! {

/// Identifier of a vertex: the index of its slot in the vertex table.
#[derive(Clone, Copy, Debug, PartialEq, Eq, Structural, Hash, PartialOrd, Ord)]
pub struct VertexID {
    pub index: usize,
}

/// Identifier of a half-edge: the index of its slot in the half-edge table.
#[derive(Clone, Copy, Debug, PartialEq, Eq, Structural, Hash, PartialOrd, Ord)]
pub struct HalfEdgeID {
    pub index: usize,
}

/// Identifier of a face: the index of its slot in the face table.
#[derive(Clone, Copy, Debug, PartialEq, Eq, Structural, Hash, PartialOrd, Ord)]
pub struct FaceID {
    pub index: usize,
}

impl VertexID {
    pub fn new(index: usize) -> (r: VertexID)
        ensures
            r.index == index,
    {
        VertexID { index }
    }

    pub fn val(&self) -> (r: usize)
        ensures
            r == self.index,
    {
        self.index
    }
}

impl HalfEdgeID {
    pub fn new(index: usize) -> (r: HalfEdgeID)
        ensures
            r.index == index,
    {
        HalfEdgeID { index }
    }

    pub fn val(&self) -> (r: usize)
        ensures
            r == self.index,
    {
        self.index
    }
}

impl FaceID {
    pub fn new(index: usize) -> (r: FaceID)
        ensures
            r.index == index,
    {
        FaceID { index }
    }

    pub fn val(&self) -> (r: usize)
        ensures
            r == self.index,
    {
        self.index
    }
}

} // verus!
