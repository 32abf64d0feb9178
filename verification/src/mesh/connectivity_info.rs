//! The storage of a mesh: three id maps for vertices, half-edges and faces.
use vstd::prelude::*;
use crate::ids::{FaceID, HalfEdgeID, VertexID, ID};
use crate::id_map::IDMap;

verus! {

/// A vertex: one of the half-edges that start in it, and its position.
#[derive(Copy, Clone, Debug)]
pub struct Vertex<T> {
    pub halfedge: Option<HalfEdgeID>,
    pub position: [T; 3],
}

/// A half-edge: the vertex it points to, its twin, the next half-edge around its face, and its face.
#[derive(Copy, Clone, PartialEq, Eq, Structural, PartialOrd, Ord, Hash, Debug)]
pub struct HalfEdge {
    pub vertex: Option<VertexID>,
    pub twin: Option<HalfEdgeID>,
    pub next: Option<HalfEdgeID>,
    pub face: Option<FaceID>,
}

/// A face: one of its three half-edges.
#[derive(Copy, Clone, PartialEq, Eq, Structural, PartialOrd, Ord, Hash, Debug)]
pub struct Face {
    pub halfedge: Option<HalfEdgeID>,
}

/// The three id maps of a mesh.
#[derive(Debug)]
pub struct ConnectivityInfo<T> {
    pub vertices: IDMap<VertexID, Vertex<T>>,
    pub halfedges: IDMap<HalfEdgeID, HalfEdge>,
    pub faces: IDMap<FaceID, Face>,
}

/// The vertex slots with the half-edge of vertex `v` replaced.
pub open spec fn with_vertex_halfedge<T>(s: Seq<Vertex<T>>, v: VertexID, h: Option<HalfEdgeID>) -> Seq<Vertex<T>> {
    s.update(v.index() as int, Vertex { halfedge: h, ..s[v.index() as int] })
}

impl<T: Copy> ConnectivityInfo<T> {
    pub open spec fn wf(&self) -> bool {
        &&& self.vertices.wf()
        &&& self.halfedges.wf()
        &&& self.faces.wf()
    }

    pub open spec fn he(&self, h: HalfEdgeID) -> Option<HalfEdge> {
        self.halfedges.slot(h.index())
    }

    pub open spec fn vx(&self, v: VertexID) -> Option<Vertex<T>> {
        self.vertices.slot(v.index())
    }

    pub open spec fn fc(&self, f: FaceID) -> Option<Face> {
        self.faces.slot(f.index())
    }

    /// A copy of the storage, slot for slot.
    pub fn duplicate(&self) -> (c: Self)
        where T: Copy,
        ensures
            c.vertices.slots() == self.vertices.slots(),
            c.vertices.free_indices() == self.vertices.free_indices(),
            c.halfedges.slots() == self.halfedges.slots(),
            c.halfedges.free_indices() == self.halfedges.free_indices(),
            c.faces.slots() == self.faces.slots(),
            c.faces.free_indices() == self.faces.free_indices(),
            c.vertices@ == self.vertices@,
            c.halfedges@ == self.halfedges@,
            c.faces@ == self.faces@,
            self.wf() ==> c.wf(),
    {
        ConnectivityInfo {
            vertices: self.vertices.duplicate(),
            halfedges: self.halfedges.duplicate(),
            faces: self.faces.duplicate(),
        }
    }

    pub fn new(no_vertices: usize, no_faces: usize) -> (c: Self)
        requires
            4 * no_faces <= usize::MAX,
        ensures
            c.wf(),
            c.vertices@ == Map::<u32, Vertex<T>>::empty(),
            c.halfedges@ == Map::<u32, HalfEdge>::empty(),
            c.faces@ == Map::<u32, Face>::empty(),
            c.vertices.slots().len() == 0,
            c.halfedges.slots().len() == 0,
            c.faces.slots().len() == 0,
            c.vertices.free_indices().len() == 0,
            c.halfedges.free_indices().len() == 0,
            c.faces.free_indices().len() == 0,
    {
        ConnectivityInfo {
            vertices: IDMap::with_capacity(no_vertices),
            halfedges: IDMap::with_capacity(4 * no_faces),
            faces: IDMap::with_capacity(no_faces),
        }
    }

    pub fn no_vertices(&self) -> (n: usize)
        requires
            self.wf(),
        ensures
            n == self.vertices@.dom().len(),
    {
        self.vertices.len()
    }

    pub fn no_halfedges(&self) -> (n: usize)
        requires
            self.wf(),
        ensures
            n == self.halfedges@.dom().len(),
    {
        self.halfedges.len()
    }

    pub fn no_faces(&self) -> (n: usize)
        requires
            self.wf(),
        ensures
            n == self.faces@.dom().len(),
    {
        self.faces.len()
    }

    pub fn new_vertex(&mut self, position: [T; 3]) -> (id: VertexID)
        requires
            old(self).wf(),
            old(self).vertices.has_room(),
        ensures
            final(self).wf(),
            id.index() == old(self).vertices.next_id(),
            !old(self).vertices.is_live(id.index()),
            final(self).vertices@ == old(self).vertices@.insert(id.index(), Vertex { halfedge: None, position }),
            final(self).vertices.slots() == if old(self).vertices.free_indices().len() == 0 {
                old(self).vertices.slots().push(Vertex { halfedge: None, position })
            } else {
                old(self).vertices.slots().update(id.index() as int, Vertex { halfedge: None, position })
            },
            final(self).vertices.room() == old(self).vertices.room() - 1,
            final(self).vertices.free_indices() == if old(self).vertices.free_indices().len() == 0 {
                old(self).vertices.free_indices()
            } else {
                old(self).vertices.free_indices().drop_last()
            },
            forall|n: nat| #[trigger] final(self).vertices.nth_id(n) == old(self).vertices.nth_id(n + 1),
            id.index() == old(self).vertices.nth_id(0),
            final(self).halfedges == old(self).halfedges,
            final(self).faces == old(self).faces,
    {
        self.vertices.insert_new(Vertex { halfedge: None, position }).unwrap()
    }

    pub fn new_halfedge(&mut self, vertex: Option<VertexID>, next: Option<HalfEdgeID>, face: Option<FaceID>) -> (id: HalfEdgeID)
        requires
            old(self).wf(),
            old(self).halfedges.has_room(),
        ensures
            final(self).wf(),
            id.index() == old(self).halfedges.next_id(),
            !old(self).halfedges.is_live(id.index()),
            final(self).halfedges@ == old(self).halfedges@.insert(id.index(), HalfEdge { vertex, twin: None, next, face }),
            final(self).halfedges.slots() == if old(self).halfedges.free_indices().len() == 0 {
                old(self).halfedges.slots().push(HalfEdge { vertex, twin: None, next, face })
            } else {
                old(self).halfedges.slots().update(id.index() as int, HalfEdge { vertex, twin: None, next, face })
            },
            final(self).halfedges.room() == old(self).halfedges.room() - 1,
            final(self).halfedges.free_indices() == if old(self).halfedges.free_indices().len() == 0 {
                old(self).halfedges.free_indices()
            } else {
                old(self).halfedges.free_indices().drop_last()
            },
            forall|n: nat| #[trigger] final(self).halfedges.nth_id(n) == old(self).halfedges.nth_id(n + 1),
            id.index() == old(self).halfedges.nth_id(0),
            final(self).vertices == old(self).vertices,
            final(self).faces == old(self).faces,
    {
        self.halfedges.insert_new(HalfEdge { vertex, twin: None, next, face }).unwrap()
    }

    pub fn new_face(&mut self) -> (id: FaceID)
        requires
            old(self).wf(),
            old(self).faces.has_room(),
        ensures
            final(self).wf(),
            id.index() == old(self).faces.next_id(),
            !old(self).faces.is_live(id.index()),
            final(self).faces@ == old(self).faces@.insert(id.index(), Face { halfedge: None }),
            final(self).faces.slots() == if old(self).faces.free_indices().len() == 0 {
                old(self).faces.slots().push(Face { halfedge: None })
            } else {
                old(self).faces.slots().update(id.index() as int, Face { halfedge: None })
            },
            final(self).faces.room() == old(self).faces.room() - 1,
            final(self).faces.free_indices() == if old(self).faces.free_indices().len() == 0 {
                old(self).faces.free_indices()
            } else {
                old(self).faces.free_indices().drop_last()
            },
            forall|n: nat| #[trigger] final(self).faces.nth_id(n) == old(self).faces.nth_id(n + 1),
            id.index() == old(self).faces.nth_id(0),
            final(self).vertices == old(self).vertices,
            final(self).halfedges == old(self).halfedges,
    {
        self.faces.insert_new(Face { halfedge: None }).unwrap()
    }

    /// Creates a face and the three half-edges inside it, and connects them to each other and to the three vertices:
    /// the first half-edge points to `vertex_id2`, the next to `vertex_id3`, the last to `vertex_id1`.
    pub fn create_face(&mut self, vertex_id1: VertexID, vertex_id2: VertexID, vertex_id3: VertexID) -> (id: FaceID)
        requires
            old(self).wf(),
            old(self).faces.room() >= 1,
            old(self).halfedges.room() >= 3,
            old(self).vx(vertex_id1) is Some,
            old(self).vx(vertex_id2) is Some,
            old(self).vx(vertex_id3) is Some,
        ensures
            ({
                let f = FaceID::from_index(old(self).faces.nth_id(0));
                let h1 = HalfEdgeID::from_index(old(self).halfedges.nth_id(0));
                let h3 = HalfEdgeID::from_index(old(self).halfedges.nth_id(1));
                let h2 = HalfEdgeID::from_index(old(self).halfedges.nth_id(2));
                &&& id == f
                &&& final(self).wf()
                &&& final(self).halfedges@ == old(self).halfedges@
                    .insert(h1.index(), HalfEdge { vertex: Some(vertex_id2), twin: None, next: Some(h2), face: Some(f) })
                    .insert(h3.index(), HalfEdge { vertex: Some(vertex_id1), twin: None, next: Some(h1), face: Some(f) })
                    .insert(h2.index(), HalfEdge { vertex: Some(vertex_id3), twin: None, next: Some(h3), face: Some(f) })
                &&& final(self).he(h1) == Some(HalfEdge { vertex: Some(vertex_id2), twin: None, next: Some(h2), face: Some(f) })
                &&& final(self).he(h2) == Some(HalfEdge { vertex: Some(vertex_id3), twin: None, next: Some(h3), face: Some(f) })
                &&& final(self).he(h3) == Some(HalfEdge { vertex: Some(vertex_id1), twin: None, next: Some(h1), face: Some(f) })
                &&& forall|x: HalfEdgeID| x.index() != h1.index() && x.index() != h2.index() && x.index() != h3.index()
                    ==> #[trigger] final(self).he(x) == old(self).he(x)
                &&& final(self).halfedges.room() == old(self).halfedges.room() - 3
                &&& old(self).halfedges.free_indices().len() == 0 ==> final(self).halfedges.free_indices().len() == 0
                    && final(self).halfedges.slots().len() == old(self).halfedges.slots().len() + 3
                &&& forall|n: nat| #[trigger] final(self).halfedges.nth_id(n) == old(self).halfedges.nth_id(n + 3)
                &&& final(self).faces@ == old(self).faces@.insert(f.index(), Face { halfedge: Some(h1) })
                &&& final(self).fc(f) == Some(Face { halfedge: Some(h1) })
                &&& forall|g: FaceID| g.index() != f.index() ==> #[trigger] final(self).fc(g) == old(self).fc(g)
                &&& final(self).faces.room() == old(self).faces.room() - 1
                &&& old(self).faces.free_indices().len() == 0 ==> final(self).faces.free_indices().len() == 0
                    && final(self).faces.slots().len() == old(self).faces.slots().len() + 1
                &&& forall|n: nat| #[trigger] final(self).faces.nth_id(n) == old(self).faces.nth_id(n + 1)
                &&& final(self).vertices.slots() == with_vertex_halfedge(with_vertex_halfedge(with_vertex_halfedge(
                    old(self).vertices.slots(), vertex_id1, Some(h1)), vertex_id2, Some(h2)), vertex_id3, Some(h3))
                &&& final(self).vertices.free_indices() == old(self).vertices.free_indices()
            }),
    {
        let ghost old_he = self.halfedges;
        proof {
            old_he.lemma_nth_id(0, 1);
            old_he.lemma_nth_id(0, 2);
            old_he.lemma_nth_id(1, 2);
            self.faces.lemma_nth_id(0, 0);
        }
        let id = self.new_face();

        let halfedge1 = self.new_halfedge(Some(vertex_id2), None, Some(id));
        let halfedge3 = self.new_halfedge(Some(vertex_id1), Some(halfedge1), Some(id));
        let halfedge2 = self.new_halfedge(Some(vertex_id3), Some(halfedge3), Some(id));
        proof {
            HalfEdgeID::lemma_index_injective(halfedge1, HalfEdgeID::from_index(old_he.nth_id(0)));
            HalfEdgeID::lemma_index_injective(halfedge3, HalfEdgeID::from_index(old_he.nth_id(1)));
            HalfEdgeID::lemma_index_injective(halfedge2, HalfEdgeID::from_index(old_he.nth_id(2)));
            FaceID::lemma_index_injective(id, FaceID::from_index(old(self).faces.nth_id(0)));
            HalfEdgeID::lemma_from_index(old_he.nth_id(0));
            HalfEdgeID::lemma_from_index(old_he.nth_id(1));
            HalfEdgeID::lemma_from_index(old_he.nth_id(2));
            FaceID::lemma_from_index(old(self).faces.nth_id(0));
        }

        let ghost he_mid = self.halfedges;
        self.set_halfedge_next(halfedge1, Some(halfedge2));
        proof {
            IDMap::lemma_view_after_set(&he_mid, &self.halfedges, halfedge1.index(),
                HalfEdge { vertex: Some(vertex_id2), twin: None, next: Some(halfedge2), face: Some(id) });
        }

        self.set_vertex_halfedge(vertex_id1, Some(halfedge1));
        self.set_vertex_halfedge(vertex_id2, Some(halfedge2));
        self.set_vertex_halfedge(vertex_id3, Some(halfedge3));

        let ghost fc_mid = self.faces;
        self.set_face_halfedge(id, halfedge1);
        proof {
            IDMap::lemma_view_after_set(&fc_mid, &self.faces, id.index(), Face { halfedge: Some(halfedge1) });
            assert forall|n: nat| #[trigger] self.halfedges.nth_id(n) == old_he.nth_id(n + 3) by {
                assert(self.halfedges.nth_id(n) == he_mid.nth_id(n));
            }
            assert forall|n: nat| #[trigger] self.faces.nth_id(n) == old(self).faces.nth_id(n + 1) by {
                assert(self.faces.nth_id(n) == fc_mid.nth_id(n));
            }
            assert(self.halfedges@ =~= old(self).halfedges@
                .insert(halfedge1.index(), HalfEdge { vertex: Some(vertex_id2), twin: None, next: Some(halfedge2), face: Some(id) })
                .insert(halfedge3.index(), HalfEdge { vertex: Some(vertex_id1), twin: None, next: Some(halfedge1), face: Some(id) })
                .insert(halfedge2.index(), HalfEdge { vertex: Some(vertex_id3), twin: None, next: Some(halfedge3), face: Some(id) }));
            assert(self.faces@ =~= old(self).faces@.insert(id.index(), Face { halfedge: Some(halfedge1) }));
        }
        id
    }

    /// Creates a face from an existing half-edge, which points to `vertex_id2`, and two new half-edges:
    /// the next one points to `vertex_id3`, the last one to `vertex_id1`.
    pub fn create_face_with_existing_halfedge(&mut self, vertex_id1: VertexID, vertex_id2: VertexID, vertex_id3: VertexID, halfedge_id: HalfEdgeID) -> (id: FaceID)
        requires
            old(self).wf(),
            old(self).faces.room() >= 1,
            old(self).halfedges.room() >= 2,
            old(self).halfedges.is_live(halfedge_id.index()),
            old(self).vx(vertex_id1) is Some,
            old(self).vx(vertex_id2) is Some,
            old(self).vx(vertex_id3) is Some,
        ensures
            ({
                let f = FaceID::from_index(old(self).faces.nth_id(0));
                let h3 = HalfEdgeID::from_index(old(self).halfedges.nth_id(0));
                let h2 = HalfEdgeID::from_index(old(self).halfedges.nth_id(1));
                let e = old(self).he(halfedge_id)->0;
                &&& id == f
                &&& final(self).wf()
                &&& h3.index() != halfedge_id.index() && h2.index() != halfedge_id.index()
                &&& final(self).halfedges@ == old(self).halfedges@
                    .insert(h3.index(), HalfEdge { vertex: Some(vertex_id1), twin: None, next: Some(halfedge_id), face: Some(f) })
                    .insert(h2.index(), HalfEdge { vertex: Some(vertex_id3), twin: None, next: Some(h3), face: Some(f) })
                    .insert(halfedge_id.index(), HalfEdge { next: Some(h2), face: Some(f), ..e })
                &&& final(self).he(halfedge_id) == Some(HalfEdge { next: Some(h2), face: Some(f), ..e })
                &&& final(self).he(h2) == Some(HalfEdge { vertex: Some(vertex_id3), twin: None, next: Some(h3), face: Some(f) })
                &&& final(self).he(h3) == Some(HalfEdge { vertex: Some(vertex_id1), twin: None, next: Some(halfedge_id), face: Some(f) })
                &&& forall|x: HalfEdgeID| x.index() != halfedge_id.index() && x.index() != h2.index() && x.index() != h3.index()
                    ==> #[trigger] final(self).he(x) == old(self).he(x)
                &&& final(self).halfedges.room() == old(self).halfedges.room() - 2
                &&& old(self).halfedges.free_indices().len() == 0 ==> final(self).halfedges.free_indices().len() == 0
                    && final(self).halfedges.slots().len() == old(self).halfedges.slots().len() + 2
                &&& forall|n: nat| #[trigger] final(self).halfedges.nth_id(n) == old(self).halfedges.nth_id(n + 2)
                &&& final(self).faces@ == old(self).faces@.insert(f.index(), Face { halfedge: Some(halfedge_id) })
                &&& final(self).fc(f) == Some(Face { halfedge: Some(halfedge_id) })
                &&& forall|g: FaceID| g.index() != f.index() ==> #[trigger] final(self).fc(g) == old(self).fc(g)
                &&& final(self).faces.room() == old(self).faces.room() - 1
                &&& old(self).faces.free_indices().len() == 0 ==> final(self).faces.free_indices().len() == 0
                    && final(self).faces.slots().len() == old(self).faces.slots().len() + 1
                &&& forall|n: nat| #[trigger] final(self).faces.nth_id(n) == old(self).faces.nth_id(n + 1)
                &&& final(self).vertices.slots() == with_vertex_halfedge(with_vertex_halfedge(with_vertex_halfedge(
                    old(self).vertices.slots(), vertex_id1, Some(halfedge_id)), vertex_id2, Some(h2)), vertex_id3, Some(h3))
                &&& final(self).vertices.free_indices() == old(self).vertices.free_indices()
            }),
    {
        let ghost old_he = self.halfedges;
        proof {
            old_he.lemma_nth_id(0, 1);
            self.faces.lemma_nth_id(0, 0);
        }
        let id = self.new_face();

        let halfedge3 = self.new_halfedge(Some(vertex_id1), Some(halfedge_id), Some(id));
        let halfedge2 = self.new_halfedge(Some(vertex_id3), Some(halfedge3), Some(id));
        proof {
            HalfEdgeID::lemma_index_injective(halfedge3, HalfEdgeID::from_index(old_he.nth_id(0)));
            HalfEdgeID::lemma_index_injective(halfedge2, HalfEdgeID::from_index(old_he.nth_id(1)));
            FaceID::lemma_index_injective(id, FaceID::from_index(old(self).faces.nth_id(0)));
            HalfEdgeID::lemma_from_index(old_he.nth_id(0));
            HalfEdgeID::lemma_from_index(old_he.nth_id(1));
            FaceID::lemma_from_index(old(self).faces.nth_id(0));
        }
        let ghost e = old(self).he(halfedge_id)->0;
        let ghost he_mid = self.halfedges;
        self.set_halfedge_next(halfedge_id, Some(halfedge2));
        let ghost he_mid2 = self.halfedges;
        self.set_halfedge_face(halfedge_id, Some(id));
        proof {
            IDMap::lemma_view_after_set(&he_mid, &he_mid2, halfedge_id.index(), HalfEdge { next: Some(halfedge2), ..e });
            IDMap::lemma_view_after_set(&he_mid2, &self.halfedges, halfedge_id.index(), HalfEdge { next: Some(halfedge2), face: Some(id), ..e });
        }

        self.set_vertex_halfedge(vertex_id1, Some(halfedge_id));
        self.set_vertex_halfedge(vertex_id2, Some(halfedge2));
        self.set_vertex_halfedge(vertex_id3, Some(halfedge3));

        let ghost fc_mid = self.faces;
        self.set_face_halfedge(id, halfedge_id);
        proof {
            IDMap::lemma_view_after_set(&fc_mid, &self.faces, id.index(), Face { halfedge: Some(halfedge_id) });
            assert forall|n: nat| #[trigger] self.halfedges.nth_id(n) == old_he.nth_id(n + 2) by {
                assert(self.halfedges.nth_id(n) == he_mid.nth_id(n));
            }
            assert forall|n: nat| #[trigger] self.faces.nth_id(n) == old(self).faces.nth_id(n + 1) by {
                assert(self.faces.nth_id(n) == fc_mid.nth_id(n));
            }
            assert(self.halfedges@ =~= old(self).halfedges@
                .insert(halfedge3.index(), HalfEdge { vertex: Some(vertex_id1), twin: None, next: Some(halfedge_id), face: Some(id) })
                .insert(halfedge2.index(), HalfEdge { vertex: Some(vertex_id3), twin: None, next: Some(halfedge3), face: Some(id) })
                .insert(halfedge_id.index(), HalfEdge { next: Some(halfedge2), face: Some(id), ..e }));
            assert(self.faces@ =~= old(self).faces@.insert(id.index(), Face { halfedge: Some(halfedge_id) }));
        }
        id
    }

    pub fn remove_vertex(&mut self, vertex_id: VertexID)
        requires
            old(self).wf(),
            old(self).vertices.is_live(vertex_id.index()),
        ensures
            final(self).wf(),
            final(self).vertices@ == old(self).vertices@.remove(vertex_id.index()),
            final(self).vertices.slots() == old(self).vertices.slots(),
            final(self).vertices.free_indices() == old(self).vertices.free_indices().push(vertex_id.index()),
            final(self).halfedges == old(self).halfedges,
            final(self).faces == old(self).faces,
    {
        self.vertices.remove(vertex_id);
    }

    /// Removes the half-edge; its twin, if it names one, no longer names a twin.
    pub fn remove_halfedge(&mut self, halfedge_id: HalfEdgeID)
        requires
            old(self).wf(),
            old(self).halfedges.is_live(halfedge_id.index()),
            old(self).he(halfedge_id)->0.twin matches Some(t) ==> old(self).he(t) is Some,
        ensures
            final(self).wf(),
            final(self).halfedges.free_indices() == old(self).halfedges.free_indices().push(halfedge_id.index()),
            final(self).halfedges.slots() == match old(self).he(halfedge_id)->0.twin {
                Some(t) => old(self).halfedges.slots().update(t.index() as int, HalfEdge { twin: None, ..old(self).he(t)->0 }),
                None => old(self).halfedges.slots(),
            },
            final(self).vertices == old(self).vertices,
            final(self).faces == old(self).faces,
    {
        let twin = self.halfedges.get(halfedge_id).unwrap().twin;
        if let Some(twin_id) = twin {
            let t = *self.halfedges.get(twin_id).unwrap();
            self.halfedges.set(twin_id, HalfEdge { twin: None, ..t });
        }
        self.halfedges.remove(halfedge_id);
    }

    pub fn remove_face(&mut self, face_id: FaceID)
        requires
            old(self).wf(),
            old(self).faces.is_live(face_id.index()),
        ensures
            final(self).wf(),
            final(self).faces@ == old(self).faces@.remove(face_id.index()),
            final(self).faces.slots() == old(self).faces.slots(),
            final(self).faces.free_indices() == old(self).faces.free_indices().push(face_id.index()),
            final(self).vertices == old(self).vertices,
            final(self).halfedges == old(self).halfedges,
    {
        self.faces.remove(face_id);
    }

    pub fn set_vertex_halfedge(&mut self, id: VertexID, val: Option<HalfEdgeID>)
        requires
            old(self).wf(),
            old(self).vx(id) is Some,
        ensures
            final(self).wf(),
            final(self).vertices.slots() == old(self).vertices.slots().update(id.index() as int, Vertex { halfedge: val, ..old(self).vx(id)->0 }),
            final(self).vertices.free_indices() == old(self).vertices.free_indices(),
            final(self).halfedges == old(self).halfedges,
            final(self).faces == old(self).faces,
    {
        let v = *self.vertices.get(id).unwrap();
        self.vertices.set(id, Vertex { halfedge: val, ..v });
    }

    pub fn set_halfedge_next(&mut self, id: HalfEdgeID, val: Option<HalfEdgeID>)
        requires
            old(self).wf(),
            old(self).he(id) is Some,
        ensures
            final(self).wf(),
            final(self).halfedges.slots() == old(self).halfedges.slots().update(id.index() as int, HalfEdge { next: val, ..old(self).he(id)->0 }),
            final(self).halfedges.free_indices() == old(self).halfedges.free_indices(),
            final(self).vertices == old(self).vertices,
            final(self).faces == old(self).faces,
    {
        let h = *self.halfedges.get(id).unwrap();
        self.halfedges.set(id, HalfEdge { next: val, ..h });
    }

    /// Makes the two half-edges twins of each other.
    pub fn set_halfedge_twin(&mut self, id1: HalfEdgeID, id2: HalfEdgeID)
        requires
            old(self).wf(),
            old(self).he(id1) is Some,
            old(self).he(id2) is Some,
        ensures
            final(self).wf(),
            final(self).halfedges.slots() == old(self).halfedges.slots()
                .update(id1.index() as int, HalfEdge { twin: Some(id2), ..old(self).he(id1)->0 })
                .update(id2.index() as int, HalfEdge { twin: Some(id1), ..old(self).halfedges.slots()
                    .update(id1.index() as int, HalfEdge { twin: Some(id2), ..old(self).he(id1)->0 })[id2.index() as int] }),
            final(self).halfedges.free_indices() == old(self).halfedges.free_indices(),
            final(self).vertices == old(self).vertices,
            final(self).faces == old(self).faces,
    {
        let h1 = *self.halfedges.get(id1).unwrap();
        self.halfedges.set(id1, HalfEdge { twin: Some(id2), ..h1 });
        let h2 = *self.halfedges.get(id2).unwrap();
        self.halfedges.set(id2, HalfEdge { twin: Some(id1), ..h2 });
    }

    /// The half-edge no longer names a twin.
    pub fn remove_halfedge_twin(&mut self, id: HalfEdgeID)
        requires
            old(self).wf(),
            old(self).he(id) is Some,
        ensures
            final(self).wf(),
            final(self).halfedges.slots() == old(self).halfedges.slots().update(id.index() as int, HalfEdge { twin: None, ..old(self).he(id)->0 }),
            final(self).halfedges.free_indices() == old(self).halfedges.free_indices(),
            final(self).vertices == old(self).vertices,
            final(self).faces == old(self).faces,
    {
        let h = *self.halfedges.get(id).unwrap();
        self.halfedges.set(id, HalfEdge { twin: None, ..h });
    }

    pub fn set_halfedge_vertex(&mut self, id: HalfEdgeID, val: VertexID)
        requires
            old(self).wf(),
            old(self).he(id) is Some,
        ensures
            final(self).wf(),
            final(self).halfedges.slots() == old(self).halfedges.slots().update(id.index() as int, HalfEdge { vertex: Some(val), ..old(self).he(id)->0 }),
            final(self).halfedges.free_indices() == old(self).halfedges.free_indices(),
            final(self).vertices == old(self).vertices,
            final(self).faces == old(self).faces,
    {
        let h = *self.halfedges.get(id).unwrap();
        self.halfedges.set(id, HalfEdge { vertex: Some(val), ..h });
    }

    pub fn set_halfedge_face(&mut self, id: HalfEdgeID, val: Option<FaceID>)
        requires
            old(self).wf(),
            old(self).he(id) is Some,
        ensures
            final(self).wf(),
            final(self).halfedges.slots() == old(self).halfedges.slots().update(id.index() as int, HalfEdge { face: val, ..old(self).he(id)->0 }),
            final(self).halfedges.free_indices() == old(self).halfedges.free_indices(),
            final(self).vertices == old(self).vertices,
            final(self).faces == old(self).faces,
    {
        let h = *self.halfedges.get(id).unwrap();
        self.halfedges.set(id, HalfEdge { face: val, ..h });
    }

    pub fn set_face_halfedge(&mut self, id: FaceID, val: HalfEdgeID)
        requires
            old(self).wf(),
            old(self).fc(id) is Some,
        ensures
            final(self).wf(),
            final(self).faces.slots() == old(self).faces.slots().update(id.index() as int, Face { halfedge: Some(val) }),
            final(self).faces.free_indices() == old(self).faces.free_indices(),
            final(self).vertices == old(self).vertices,
            final(self).halfedges == old(self).halfedges,
    {
        self.faces.set(id, Face { halfedge: Some(val) });
    }

    pub fn set_position(&mut self, vertex_id: VertexID, position: [T; 3])
        requires
            old(self).wf(),
            old(self).vx(vertex_id) is Some,
        ensures
            final(self).wf(),
            final(self).vertices.slots() == old(self).vertices.slots().update(vertex_id.index() as int, Vertex { position, ..old(self).vx(vertex_id)->0 }),
            final(self).vertices.free_indices() == old(self).vertices.free_indices(),
            final(self).halfedges == old(self).halfedges,
            final(self).faces == old(self).faces,
    {
        let v = *self.vertices.get(vertex_id).unwrap();
        self.vertices.set(vertex_id, Vertex { position, ..v });
    }

    pub fn vertex_iterator(&self) -> (ids: Vec<VertexID>)
        requires
            self.wf(),
        ensures
            forall|j: int| 0 <= j < ids.len() ==> self.vertices.is_live(#[trigger] ids[j].index()),
            forall|j: int, l: int| 0 <= j < l < ids.len() ==> ids[j].index() < ids[l].index(),
            forall|i: u32| self.vertices.is_live(i) ==> exists|j: int| 0 <= j < ids.len() && #[trigger] ids[j].index() == i,
    {
        self.vertices.iter()
    }

    pub fn halfedge_iterator(&self) -> (ids: Vec<HalfEdgeID>)
        requires
            self.wf(),
        ensures
            forall|j: int| 0 <= j < ids.len() ==> self.halfedges.is_live(#[trigger] ids[j].index()),
            forall|j: int, l: int| 0 <= j < l < ids.len() ==> ids[j].index() < ids[l].index(),
            forall|i: u32| self.halfedges.is_live(i) ==> exists|j: int| 0 <= j < ids.len() && #[trigger] ids[j].index() == i,
    {
        self.halfedges.iter()
    }

    pub fn face_iterator(&self) -> (ids: Vec<FaceID>)
        requires
            self.wf(),
        ensures
            forall|j: int| 0 <= j < ids.len() ==> self.faces.is_live(#[trigger] ids[j].index()),
            forall|j: int, l: int| 0 <= j < l < ids.len() ==> ids[j].index() < ids[l].index(),
            forall|i: u32| self.faces.is_live(i) ==> exists|j: int| 0 <= j < ids.len() && #[trigger] ids[j].index() == i,
    {
        self.faces.iter()
    }

    pub fn vertex_halfedge(&self, vertex_id: VertexID) -> (h: Option<HalfEdgeID>)
        requires
            self.vx(vertex_id) is Some,
        ensures
            h == self.vx(vertex_id)->0.halfedge,
    {
        self.vertices.get(vertex_id).unwrap().halfedge
    }

    pub fn halfedge(&self, halfedge_id: HalfEdgeID) -> (h: Option<HalfEdge>)
        ensures
            h == self.he(halfedge_id),
    {
        match self.halfedges.get(halfedge_id) {
            Some(h) => Some(*h),
            None => None,
        }
    }

    pub fn face_halfedge(&self, face_id: FaceID) -> (h: Option<HalfEdgeID>)
        requires
            self.fc(face_id) is Some,
        ensures
            h == self.fc(face_id)->0.halfedge,
    {
        self.faces.get(face_id).unwrap().halfedge
    }

    pub fn position(&self, vertex_id: VertexID) -> (p: [T; 3])
        requires
            self.vx(vertex_id) is Some,
        ensures
            p == self.vx(vertex_id)->0.position,
    {
        self.vertices.get(vertex_id).unwrap().position
    }
}

} // verus!
