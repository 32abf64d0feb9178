//! A reference to one primitive of a mesh.
use vstd::prelude::*;
use crate::ids::{FaceID, HalfEdgeID, VertexID};

verus! {

/// A vertex, an edge (named by one of its half-edges) or a face of a mesh.
#[derive(Copy, Clone, PartialEq, Eq, Structural, Hash, Debug)]
pub enum Primitive {
    /// Vertex
    Vertex(VertexID),
    /// Edge
    Edge(HalfEdgeID),
    /// Face
    Face(FaceID),
}

} // verus!
