//! Connectivity queries: edges between vertices, boundaries, and the vertices of edges and faces.
use vstd::prelude::*;
use crate::ids::{FaceID, HalfEdgeID, VertexID, ID};
use super::Mesh;

verus! {

/// The three ids sorted by index: a permutation of `(a, b, c)` in non-decreasing index order.
pub open spec fn sorted_triple(a: VertexID, b: VertexID, c: VertexID, r: (VertexID, VertexID, VertexID)) -> bool {
    &&& r.0.index() <= r.1.index() <= r.2.index()
    &&& (r == (a, b, c) || r == (a, c, b) || r == (b, a, c) || r == (b, c, a) || r == (c, a, b) || r == (c, b, a))
}

impl<T: Copy> Mesh<T> {
    /// Whether the half-edge, or its twin, has no face.
    pub open spec fn edge_on_boundary(&self, h: HalfEdgeID) -> bool {
        self.face_of(Some(h)) is None || self.face_of(self.twin_of(Some(h))) is None
    }

    /// Returns the first half-edge of the one-ring of `vertex_id1` that points to `vertex_id2`,
    /// i.e. the half-edge from `vertex_id1` to `vertex_id2`, or `None` if no edge is found.
    pub fn connecting_edge(&self, vertex_id1: VertexID, vertex_id2: VertexID) -> (r: Option<HalfEdgeID>)
        requires
            self.wf(),
            self.vx(vertex_id1) is Some,
            self.vertex_halfedge_of(vertex_id1) is Some,
        ensures
            r matches Some(h) ==> exists|i: int| 0 <= i < self.one_ring(vertex_id1).len()
                && self.one_ring(vertex_id1)[i] == h
                && self.vertex_of(Some(h)) == Some(vertex_id2)
                && forall|j: int| 0 <= j < i ==> self.vertex_of(Some(#[trigger] self.one_ring(vertex_id1)[j])) != Some(vertex_id2),
            r is None ==> forall|i: int| 0 <= i < self.one_ring(vertex_id1).len()
                ==> self.vertex_of(Some(#[trigger] self.one_ring(vertex_id1)[i])) != Some(vertex_id2),
            r is Some <==> self.connects(vertex_id1, vertex_id2),
    {
        let ring = self.vertex_halfedge_iter(vertex_id1);
        let mut i: usize = 0;
        while i < ring.len()
            invariant
                ring@ == self.one_ring(vertex_id1),
                i <= ring.len(),
                forall|j: int| 0 <= j < i ==> self.vertex_of(Some(#[trigger] ring[j])) != Some(vertex_id2),
            decreases ring.len() - i,
        {
            let halfedge_id = ring[i];
            let walker = self.walker_from_halfedge(halfedge_id);
            proof {
                walker.lemma_reads(self);
            }
            if walker.vertex_id() == Some(vertex_id2) {
                return Some(halfedge_id);
            }
            i += 1;
        }
        None
    }

    /// Returns the half-edge from `vertex_id1` to `vertex_id2` found by scanning all half-edges
    /// in increasing order, or `None` if there is none.
    pub fn find_edge(&self, vertex_id1: VertexID, vertex_id2: VertexID) -> (r: Option<HalfEdgeID>)
        requires
            self.wf(),
        ensures
            r matches Some(h) ==> self.he_live(h) && self.vertex_of(Some(h)) == Some(vertex_id2)
                && self.vertex_of(self.twin_of(Some(h))) == Some(vertex_id1)
                && forall|g: HalfEdgeID| self.he_live(g) && g.index() < h.index()
                    ==> !(#[trigger] self.vertex_of(Some(g)) == Some(vertex_id2) && self.vertex_of(self.twin_of(Some(g))) == Some(vertex_id1)),
            r is None ==> forall|g: HalfEdgeID| self.he_live(g)
                ==> !(#[trigger] self.vertex_of(Some(g)) == Some(vertex_id2) && self.vertex_of(self.twin_of(Some(g))) == Some(vertex_id1)),
    {
        let all = self.halfedge_iter();
        let mut i: usize = 0;
        while i < all.len()
            invariant
                super::iterators::lists_in_order(all@, self.halfedges().dom()),
                i <= all.len(),
                forall|j: int| 0 <= j < i ==> !(self.vertex_of(Some(#[trigger] all[j])) == Some(vertex_id2) && self.vertex_of(self.twin_of(Some(all[j]))) == Some(vertex_id1)),
            decreases all.len() - i,
        {
            let halfedge_id = all[i];
            let mut walker = self.walker_from_halfedge(halfedge_id);
            proof {
                walker.lemma_reads(self);
            }
            if walker.vertex_id() == Some(vertex_id2) {
                walker.as_twin();
                proof {
                    walker.lemma_reads(self);
                }
                if walker.vertex_id() == Some(vertex_id1) {
                    proof {
                        assert forall|g: HalfEdgeID| self.he_live(g) && g.index() < halfedge_id.index()
                            implies !(#[trigger] self.vertex_of(Some(g)) == Some(vertex_id2) && self.vertex_of(self.twin_of(Some(g))) == Some(vertex_id1)) by {
                            let j = choose|j: int| 0 <= j < all.len() && #[trigger] all[j].index() == g.index();
                            HalfEdgeID::lemma_index_injective(all[j], g);
                            if j >= i {
                                if j > i {
                                    assert(all[i as int].index() < all[j].index());
                                }
                            }
                        }
                    }
                    return Some(halfedge_id);
                }
            }
            i += 1;
        }
        proof {
            assert forall|g: HalfEdgeID| self.he_live(g)
                implies !(#[trigger] self.vertex_of(Some(g)) == Some(vertex_id2) && self.vertex_of(self.twin_of(Some(g))) == Some(vertex_id1)) by {
                let j = choose|j: int| 0 <= j < all.len() && #[trigger] all[j].index() == g.index();
                HalfEdgeID::lemma_index_injective(all[j], g);
            }
        }
        None
    }

    /// Returns whether or not the vertex is on a boundary: some half-edge of its one-ring, or its twin, has no face.
    pub fn is_vertex_on_boundary(&self, vertex_id: VertexID) -> (b: bool)
        requires
            self.wf(),
            self.vx(vertex_id) is Some,
            self.vertex_halfedge_of(vertex_id) is Some,
        ensures
            b == exists|i: int| 0 <= i < self.one_ring(vertex_id).len() && self.edge_on_boundary(#[trigger] self.one_ring(vertex_id)[i]),
    {
        let ring = self.vertex_halfedge_iter(vertex_id);
        let mut i: usize = 0;
        while i < ring.len()
            invariant
                ring@ == self.one_ring(vertex_id),
                i <= ring.len(),
                forall|j: int| 0 <= j < i ==> !self.edge_on_boundary(#[trigger] ring[j]),
            decreases ring.len() - i,
        {
            if self.is_edge_on_boundary(ring[i]) {
                return true;
            }
            i += 1;
        }
        false
    }

    /// Returns whether or not the vertex is on a boundary.
    pub fn vertex_on_boundary(&self, vertex_id: VertexID) -> (b: bool)
        requires
            self.wf(),
            self.vx(vertex_id) is Some,
            self.vertex_halfedge_of(vertex_id) is Some,
        ensures
            b == exists|i: int| 0 <= i < self.one_ring(vertex_id).len() && self.edge_on_boundary(#[trigger] self.one_ring(vertex_id)[i]),
    {
        self.is_vertex_on_boundary(vertex_id)
    }

    /// Returns whether or not the edge is on a boundary: the half-edge or its twin has no face.
    pub fn is_edge_on_boundary(&self, halfedge_id: HalfEdgeID) -> (b: bool)
        ensures
            b == self.edge_on_boundary(halfedge_id),
    {
        let mut walker = self.walker_from_halfedge(halfedge_id);
        proof {
            walker.lemma_reads(self);
        }
        if walker.face_id().is_none() {
            return true;
        }
        walker.as_twin();
        proof {
            walker.lemma_reads(self);
        }
        walker.face_id().is_none()
    }

    /// Returns whether or not the edge is on a boundary.
    pub fn on_boundary(&self, halfedge_id: HalfEdgeID) -> (b: bool)
        ensures
            b == self.edge_on_boundary(halfedge_id),
    {
        self.is_edge_on_boundary(halfedge_id)
    }

    /// Returns the vertex ids of the two adjacent vertices to the given edge: the one the half-edge points to, then the one it starts in.
    pub fn edge_vertices(&self, halfedge_id: HalfEdgeID) -> (r: (VertexID, VertexID))
        requires
            self.vertex_of(Some(halfedge_id)) is Some,
            self.vertex_of(self.twin_of(Some(halfedge_id))) is Some,
        ensures
            r.0 == self.vertex_of(Some(halfedge_id))->0,
            r.1 == self.vertex_of(self.twin_of(Some(halfedge_id)))->0,
    {
        let mut walker = self.walker_from_halfedge(halfedge_id);
        proof {
            walker.lemma_reads(self);
        }
        let v1 = walker.vertex_id().unwrap();
        walker.as_twin();
        proof {
            walker.lemma_reads(self);
        }
        let v2 = walker.vertex_id().unwrap();
        (v1, v2)
    }

    /// Returns the vertex ids of the two adjacent vertices to the given edge, ordered by index.
    pub fn ordered_edge_vertices(&self, halfedge_id: HalfEdgeID) -> (r: (VertexID, VertexID))
        requires
            self.vertex_of(Some(halfedge_id)) is Some,
            self.vertex_of(self.twin_of(Some(halfedge_id))) is Some,
        ensures
            ({
                let a = self.vertex_of(Some(halfedge_id))->0;
                let b = self.vertex_of(self.twin_of(Some(halfedge_id)))->0;
                if a.index() < b.index() { r == (a, b) } else { r == (b, a) }
            }),
    {
        let (v1, v2) = self.edge_vertices(halfedge_id);
        if v1.get() < v2.get() {
            (v1, v2)
        } else {
            (v2, v1)
        }
    }

    /// Returns the vertex ids of the three vertices of the given face, starting with the one the face's half-edge points to.
    pub fn face_vertices(&self, face_id: FaceID) -> (r: (VertexID, VertexID, VertexID))
        requires
            self.fc(face_id) is Some,
            self.vertex_of(self.face_halfedge_of(face_id)) is Some,
            self.vertex_of(self.next_of(self.face_halfedge_of(face_id))) is Some,
            self.vertex_of(self.next_of(self.next_of(self.face_halfedge_of(face_id)))) is Some,
        ensures
            r.0 == self.vertex_of(self.face_halfedge_of(face_id))->0,
            r.1 == self.vertex_of(self.next_of(self.face_halfedge_of(face_id)))->0,
            r.2 == self.vertex_of(self.next_of(self.next_of(self.face_halfedge_of(face_id))))->0,
    {
        let mut walker = self.walker_from_face(face_id);
        proof {
            walker.lemma_reads(self);
        }
        let v1 = walker.vertex_id().unwrap();
        walker.as_next();
        proof {
            walker.lemma_reads(self);
        }
        let v2 = walker.vertex_id().unwrap();
        walker.as_next();
        proof {
            walker.lemma_reads(self);
        }
        let v3 = walker.vertex_id().unwrap();
        (v1, v2, v3)
    }

    /// Returns the vertex ids of the three vertices of the given face, ordered by index.
    pub fn ordered_face_vertices(&self, face_id: FaceID) -> (r: (VertexID, VertexID, VertexID))
        requires
            self.fc(face_id) is Some,
            self.vertex_of(self.face_halfedge_of(face_id)) is Some,
            self.vertex_of(self.next_of(self.face_halfedge_of(face_id))) is Some,
            self.vertex_of(self.next_of(self.next_of(self.face_halfedge_of(face_id)))) is Some,
        ensures
            sorted_triple(
                self.vertex_of(self.face_halfedge_of(face_id))->0,
                self.vertex_of(self.next_of(self.face_halfedge_of(face_id)))->0,
                self.vertex_of(self.next_of(self.next_of(self.face_halfedge_of(face_id))))->0,
                r,
            ),
    {
        let (v1, v2, v3) = self.face_vertices(face_id);
        let r = if v1.get() < v2.get() {
            if v2.get() < v3.get() {
                (v1, v2, v3)
            } else {
                if v1.get() < v3.get() {
                    (v1, v3, v2)
                } else {
                    (v3, v1, v2)
                }
            }
        } else {
            if v1.get() < v3.get() {
                (v2, v1, v3)
            } else {
                if v2.get() < v3.get() {
                    (v2, v3, v1)
                } else {
                    (v3, v2, v1)
                }
            }
        };
        r
    }
}

} // verus!
