//! Unique ids for vertices, half-edges and faces.
use vstd::prelude::*;

verus! {

/// The common interface of the three id types: an id is a thin wrapper of a `u32` index.
pub trait ID: Sized + Copy {
    /// The index that the id wraps.
    spec fn index(&self) -> u32;

    /// The id with the given index.
    spec fn from_index(i: u32) -> Self;

    /// Creates the id with the given index.
    fn new(val: u32) -> (id: Self)
        ensures
            id.index() == val,
            id == Self::from_index(val),
    ;

    /// `from_index` builds the id with that index.
    proof fn lemma_from_index(i: u32)
        ensures
            Self::from_index(i).index() == i,
    ;

    /// Returns the index that the id wraps.
    fn get(&self) -> (val: u32)
        ensures
            val == self.index(),
    ;

    /// Two ids are equal exactly when their indices are.
    proof fn lemma_index_injective(a: Self, b: Self)
        ensures
            a.index() == b.index() <==> a == b,
    ;
}

/// An unique id for a vertex.
#[derive(Copy, Clone, PartialEq, Eq, Structural, PartialOrd, Ord, Hash, Debug)]
pub struct VertexID {
    val: u32,
}

impl ID for VertexID {
    closed spec fn index(&self) -> u32 {
        self.val
    }

    closed spec fn from_index(i: u32) -> VertexID {
        VertexID { val: i }
    }

    proof fn lemma_from_index(i: u32) {
    }

    fn new(val: u32) -> (id: VertexID) {
        VertexID { val }
    }

    fn get(&self) -> (val: u32) {
        self.val
    }

    proof fn lemma_index_injective(a: VertexID, b: VertexID) {
    }
}

/// An unique id for a half-edge.
#[derive(Copy, Clone, PartialEq, Eq, Structural, PartialOrd, Ord, Hash, Debug)]
pub struct HalfEdgeID {
    val: u32,
}

impl ID for HalfEdgeID {
    closed spec fn index(&self) -> u32 {
        self.val
    }

    closed spec fn from_index(i: u32) -> HalfEdgeID {
        HalfEdgeID { val: i }
    }

    proof fn lemma_from_index(i: u32) {
    }

    fn new(val: u32) -> (id: HalfEdgeID) {
        HalfEdgeID { val }
    }

    fn get(&self) -> (val: u32) {
        self.val
    }

    proof fn lemma_index_injective(a: HalfEdgeID, b: HalfEdgeID) {
    }
}

/// An unique id for a face.
#[derive(Copy, Clone, PartialEq, Eq, Structural, PartialOrd, Ord, Hash, Debug)]
pub struct FaceID {
    val: u32,
}

impl ID for FaceID {
    closed spec fn index(&self) -> u32 {
        self.val
    }

    closed spec fn from_index(i: u32) -> FaceID {
        FaceID { val: i }
    }

    proof fn lemma_from_index(i: u32) {
    }

    fn new(val: u32) -> (id: FaceID) {
        FaceID { val }
    }

    fn get(&self) -> (val: u32) {
        self.val
    }

    proof fn lemma_index_injective(a: FaceID, b: FaceID) {
    }
}

} // verus!
