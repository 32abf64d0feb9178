//! Edit operations: flip, split and collapse edges, split faces and vertices, remove faces.
use vstd::prelude::*;
use crate::ids::{FaceID, HalfEdgeID, VertexID, ID};
use crate::error::Error;
use super::Mesh;
use super::connectivity_info::{Face, HalfEdge, Vertex};

verus! {

impl<T: Copy> Mesh<T> {
    /// Creates a vertex at the given position, not connected to anything.
    pub fn create_vertex(&mut self, position: [T; 3]) -> (id: VertexID)
        requires
            old(self).wf(),
            old(self).room().0 >= 1,
        ensures
            final(self).wf(),
            id == old(self).nth_vertex_id(0),
            !old(self).vx_live(id),
            final(self).vertices() == old(self).vertices().insert(id.index(), Vertex { halfedge: None, position }),
            final(self).vx(id) == Some(Vertex { halfedge: None, position }),
            forall|x: VertexID| x.index() != id.index() ==> #[trigger] final(self).vx(x) == old(self).vx(x),
            final(self).same_halfedges_faces(old(self)),
            final(self).room().0 == old(self).room().0 - 1,
            final(self).room().1 == old(self).room().1,
            final(self).room().2 == old(self).room().2,
            forall|n: nat| #[trigger] final(self).nth_vertex_id(n) == old(self).nth_vertex_id(n + 1),
            forall|n: nat| #[trigger] final(self).nth_halfedge_id(n) == old(self).nth_halfedge_id(n),
            forall|n: nat| #[trigger] final(self).nth_face_id(n) == old(self).nth_face_id(n),
            final(self).is_vertex_added_to(*old(self), position),
    {
        let id = self.connectivity_info.new_vertex(position);
        proof {
            VertexID::lemma_index_injective(id, VertexID::from_index(old(self).connectivity_info.vertices.nth_id(0)));
            VertexID::lemma_from_index(old(self).connectivity_info.vertices.nth_id(0));
        }
        id
    }

    /// `self` is `m` with one more vertex, at `position`, that nothing is connected to.
    pub open spec fn is_vertex_added_to(&self, m: Mesh<T>, position: [T; 3]) -> bool {
        &&& self.vertices() == m.vertices().insert(m.nth_vertex_id(0).index(), Vertex { halfedge: None, position })
        &&& self.halfedges() == m.halfedges()
        &&& self.faces() == m.faces()
        &&& forall|k: nat| #[trigger] self.nth_vertex_id(k) == m.nth_vertex_id(k + 1)
        &&& forall|k: nat| #[trigger] self.nth_halfedge_id(k) == m.nth_halfedge_id(k)
        &&& forall|k: nat| #[trigger] self.nth_face_id(k) == m.nth_face_id(k)
        &&& self.room().0 == m.room().0 - 1 && self.room().1 == m.room().1 && self.room().2 == m.room().2
    }

    /// Whether the one-ring of `a` holds a half-edge that points to `b`.
    pub open spec fn connects(&self, a: VertexID, b: VertexID) -> bool {
        exists|i: int| 0 <= i < self.one_ring(a).len() && self.vertex_of(Some(#[trigger] self.one_ring(a)[i])) == Some(b)
    }

    /// Flip the given edge such that the edge after the flip is connected to the
    /// other pair of the four vertices connected to the two adjacent faces.
    ///
    /// ```text
    ///   /\          /|\
    ///  /  \        / | \
    /// /____\  --> /  |  \
    /// \    /      \  |  /
    ///  \  /        \ | /
    ///   \/          \|/
    /// ```
    ///
    /// Returns an error, and changes nothing, if the edge is on the boundary or the flip would connect
    /// two vertices that are already connected by another edge.
    pub fn flip_edge(&mut self, halfedge_id: HalfEdgeID) -> (r: Result<(), Error>)
        requires
            old(self).valid(),
            old(self).he_live(halfedge_id),
        ensures
            ({
                let m = *old(self);
                let h = halfedge_id;
                let f = m.face_of(Some(h));
                let n = m.next_of(Some(h))->0;
                let p = m.previous_of(Some(h))->0;
                let t = m.twin_of(Some(h))->0;
                let tf = m.face_of(Some(t));
                let tn = m.next_of(Some(t))->0;
                let tp = m.previous_of(Some(t))->0;
                let v0 = m.vertex_of(Some(h))->0;
                let v1 = m.vertex_of(Some(t))->0;
                let v2 = m.vertex_of(Some(tn))->0;
                let v3 = m.vertex_of(Some(n))->0;
                &&& r is Err <==> (f is None || tf is None || m.connects(v2, v3))
                &&& r is Err ==> *final(self) == m
                &&& r matches Err(e) ==> (e matches Error::ActionWillResultInInvalidMesh(msg) && msg@ == if f is None || tf is None {
                    "Trying to flip edge on boundary"@
                } else {
                    "Trying to flip edge which will connect two vertices that are already connected by another edge"@
                })
                &&& r is Ok ==> {
                    &&& v2 != v3 ==> final(self).valid()
                    &&& final(self).wf()
                    &&& final(self).halfedges() == m.halfedges()
                        .insert(h.index(), HalfEdge { vertex: Some(v3), next: Some(p), ..m.halfedges()[h.index()] })
                        .insert(n.index(), HalfEdge { next: Some(t), face: tf, ..m.halfedges()[n.index()] })
                        .insert(p.index(), HalfEdge { next: Some(tn), ..m.halfedges()[p.index()] })
                        .insert(t.index(), HalfEdge { vertex: Some(v2), next: Some(tp), ..m.halfedges()[t.index()] })
                        .insert(tn.index(), HalfEdge { next: Some(h), face: f, ..m.halfedges()[tn.index()] })
                        .insert(tp.index(), HalfEdge { next: Some(n), ..m.halfedges()[tp.index()] })
                    &&& final(self).faces() == m.faces()
                        .insert(f->0.index(), Face { halfedge: Some(p) })
                        .insert(tf->0.index(), Face { halfedge: Some(tp) })
                    &&& final(self).vertices() == m.vertices()
                        .insert(v0.index(), Vertex { halfedge: Some(n), ..m.vertices()[v0.index()] })
                        .insert(v1.index(), Vertex { halfedge: Some(tn), ..m.vertices()[v1.index()] })
                    &&& final(self).slot_counts() == m.slot_counts()
                    &&& final(self).room() == m.room()
                }
            }),
    {
        proof {
            self.lemma_valid_wf();
            self.lemma_wf();
        }
        let ghost m = *self;
        let mut walker = self.walker_from_halfedge(halfedge_id);
        proof { walker.lemma_reads(self); }
        let face_id = match walker.face_id() {
            Some(f) => f,
            None => {
                return Err(Error::ActionWillResultInInvalidMesh("Trying to flip edge on boundary".to_owned()));
            },
        };
        proof {
            self.lemma_triangle(halfedge_id);
        }
        let next_id = walker.next_id().unwrap();
        let previous_id = walker.previous_id().unwrap();
        let v0 = walker.vertex_id().unwrap();
        walker.as_next();
        proof { walker.lemma_reads(self); }
        let v3 = walker.vertex_id().unwrap();
        walker.as_previous();
        proof { walker.lemma_reads(self); }
        walker.as_twin();
        proof { walker.lemma_reads(self); }
        let twin_id = walker.halfedge_id().unwrap();
        let twin_face_id = match walker.face_id() {
            Some(f) => f,
            None => {
                return Err(Error::ActionWillResultInInvalidMesh("Trying to flip edge on boundary".to_owned()));
            },
        };
        proof {
            self.lemma_triangle(twin_id);
        }
        let twin_next_id = walker.next_id().unwrap();
        let twin_previous_id = walker.previous_id().unwrap();
        let v1 = walker.vertex_id().unwrap();
        let v2 = walker.as_next().vertex_id().unwrap();
        proof {
            walker.lemma_reads(self);
            self.lemma_triangle(twin_id);
            self.lemma_vertex_ok(v2);
        }

        if self.connecting_edge(v2, v3).is_some() {
            return Err(Error::ActionWillResultInInvalidMesh("Trying to flip edge which will connect two vertices that are already connected by another edge".to_owned()));
        }
        proof {
            assert(!m.connects(v2, v3));
        }

        self.set_face_halfedge(face_id, previous_id);
        self.set_face_halfedge(twin_face_id, twin_previous_id);

        self.set_vertex_halfedge(v0, Some(next_id));
        self.set_vertex_halfedge(v1, Some(twin_next_id));

        self.set_next(halfedge_id, Some(previous_id));
        self.set_next(next_id, Some(twin_id));
        self.set_next(previous_id, Some(twin_next_id));
        self.set_next(twin_id, Some(twin_previous_id));
        self.set_next(twin_next_id, Some(halfedge_id));
        self.set_next(twin_previous_id, Some(next_id));

        self.set_vertex(halfedge_id, v3);
        self.set_vertex(twin_id, v2);

        self.set_face(next_id, Some(twin_face_id));
        self.set_face(twin_next_id, Some(face_id));

        proof {
            let h = halfedge_id;
            let (n, p, t, tn, tp) = (next_id, previous_id, twin_id, twin_next_id, twin_previous_id);
            assert(self.halfedges() =~= m.halfedges()
                .insert(h.index(), HalfEdge { vertex: Some(v3), next: Some(p), ..m.halfedges()[h.index()] })
                .insert(n.index(), HalfEdge { next: Some(t), face: Some(twin_face_id), ..m.halfedges()[n.index()] })
                .insert(p.index(), HalfEdge { next: Some(tn), ..m.halfedges()[p.index()] })
                .insert(t.index(), HalfEdge { vertex: Some(v2), next: Some(tp), ..m.halfedges()[t.index()] })
                .insert(tn.index(), HalfEdge { next: Some(h), face: Some(face_id), ..m.halfedges()[tn.index()] })
                .insert(tp.index(), HalfEdge { next: Some(n), ..m.halfedges()[tp.index()] }));
            assert(self.faces() =~= m.faces()
                .insert(face_id.index(), Face { halfedge: Some(p) })
                .insert(twin_face_id.index(), Face { halfedge: Some(tp) }));
            assert(self.vertices() =~= m.vertices()
                .insert(v0.index(), Vertex { halfedge: Some(n), ..m.vertices()[v0.index()] })
                .insert(v1.index(), Vertex { halfedge: Some(tn), ..m.vertices()[v1.index()] }));
            reveal(Mesh::is_flip_of);
            assert(self.is_flip_of(m, halfedge_id));
            if v2 != v3 {
                Self::lemma_flip_keeps_valid(m, *self, halfedge_id);
            }
        }
        Ok(())
    }
}

impl<T: Copy> Mesh<T> {
    /// The vertex that the half-edge points to, read through a walker.
    fn vertex_of_halfedge(&self, h: HalfEdgeID) -> (v: Option<VertexID>)
        ensures
            v == self.vertex_of(Some(h)),
    {
        let walker = self.walker_from_halfedge(h);
        proof { walker.lemma_reads(self); }
        walker.vertex_id()
    }

    /// The mesh after `split_face` of face `face_id` at a new vertex with the given position.
    pub open spec fn is_face_split_of(&self, m: Mesh<T>, face_id: FaceID, position: [T; 3]) -> bool {
        let h1 = m.face_halfedge_of(face_id)->0;
        let h2 = m.next_of(Some(h1))->0;
        let h3 = m.next_of(Some(h2))->0;
        let v1 = m.vertex_of(Some(h1))->0;
        let v2 = m.vertex_of(Some(h2))->0;
        let v3 = m.vertex_of(Some(h3))->0;
        let nv = m.nth_vertex_id(0);
        let f1 = m.nth_face_id(0);
        let f2 = m.nth_face_id(1);
        let a3 = m.nth_halfedge_id(0);
        let a2 = m.nth_halfedge_id(1);
        let b3 = m.nth_halfedge_id(2);
        let b2 = m.nth_halfedge_id(3);
        let c2 = m.nth_halfedge_id(4);
        let c1 = m.nth_halfedge_id(5);
        let he = m.halfedges();
        let vs = m.vertices();
        &&& self.halfedges() == he
            .insert(h1.index(), HalfEdge { next: Some(c1), ..he[h1.index()] })
            .insert(h2.index(), HalfEdge { next: Some(a2), face: Some(f1), ..he[h2.index()] })
            .insert(h3.index(), HalfEdge { next: Some(b2), face: Some(f2), ..he[h3.index()] })
            .insert(a3.index(), HalfEdge { vertex: Some(v1), twin: Some(c1), next: Some(h2), face: Some(f1) })
            .insert(a2.index(), HalfEdge { vertex: Some(nv), twin: Some(b3), next: Some(a3), face: Some(f1) })
            .insert(b3.index(), HalfEdge { vertex: Some(v2), twin: Some(a2), next: Some(h3), face: Some(f2) })
            .insert(b2.index(), HalfEdge { vertex: Some(nv), twin: Some(c2), next: Some(b3), face: Some(f2) })
            .insert(c2.index(), HalfEdge { vertex: Some(v3), twin: Some(b2), next: Some(h1), face: Some(face_id) })
            .insert(c1.index(), HalfEdge { vertex: Some(nv), twin: Some(a3), next: Some(c2), face: Some(face_id) })
        &&& self.faces() == m.faces()
            .insert(f1.index(), Face { halfedge: Some(h2) })
            .insert(f2.index(), Face { halfedge: Some(h3) })
            .insert(face_id.index(), Face { halfedge: Some(h1) })
        &&& self.vertices() == vs
            .insert(nv.index(), Vertex { halfedge: Some(b3), position })
            .insert(v1.index(), Vertex { halfedge: Some(h2), ..vs[v1.index()] })
            .insert(v2.index(), Vertex { halfedge: Some(h3), ..vs[v2.index()] })
            .insert(v3.index(), Vertex { halfedge: Some(b2), ..vs[v3.index()] })
    }

    /// Split the given face into three new faces.
    /// Returns the id of the new vertex positioned at the given position.
    pub fn split_face(&mut self, face_id: FaceID, position: [T; 3]) -> (vid: VertexID)
        requires
            old(self).valid(),
            old(self).fc_live(face_id),
            old(self).room().0 >= 1,
            old(self).room().1 >= 6,
            old(self).room().2 >= 2,
        ensures
            vid == old(self).nth_vertex_id(0),
            final(self).wf(),
            final(self).valid(),
            final(self).is_face_split_of(*old(self), face_id, position),
    {
        let ghost m = *self;
        proof {
            self.lemma_valid_wf();
            self.lemma_wf();
            self.lemma_nth_ids();
            self.lemma_face_ok(face_id);
            let h1 = self.face_halfedge_of(face_id)->0;
            self.lemma_triangle(h1);
        }
        let new_vertex_id = self.create_vertex(position);

        let mut walker = self.walker_from_face(face_id);
        proof { walker.lemma_reads(self); }
        let halfedge_id1 = walker.halfedge_id().unwrap();
        let vertex_id1 = walker.vertex_id().unwrap();

        walker.as_next();
        proof { walker.lemma_reads(self); }
        let halfedge_id2 = walker.halfedge_id().unwrap();
        let vertex_id2 = walker.vertex_id().unwrap();

        walker.as_next();
        proof { walker.lemma_reads(self); }
        let halfedge_id3 = walker.halfedge_id().unwrap();
        let vertex_id3 = walker.vertex_id().unwrap();
        proof {
            m.lemma_halfedge_ok(halfedge_id1);
            m.lemma_halfedge_ok(halfedge_id2);
            m.lemma_halfedge_ok(halfedge_id3);
            assert(vertex_id1 != vertex_id2 && vertex_id2 != vertex_id3 && vertex_id1 != vertex_id3);
        }

        let ghost m1 = *self;
        proof {
            self.lemma_wf();
            assert(self.he_live(halfedge_id1) && self.he_live(halfedge_id2) && self.he_live(halfedge_id3));
            assert(self.vx_live(vertex_id1) && self.vx_live(vertex_id2) && self.vx_live(vertex_id3) && self.vx_live(new_vertex_id));
            assert(self.fc_live(face_id));
        }
        let face_id1 = self.new_face_on(vertex_id1, vertex_id2, new_vertex_id, halfedge_id2);
        proof { self.lemma_wf(); }
        let face_id2 = self.new_face_on(vertex_id2, vertex_id3, new_vertex_id, halfedge_id3);
        proof { self.lemma_wf(); }

        let new_halfedge_id2 = self.new_halfedge(Some(vertex_id3), Some(halfedge_id1), Some(face_id));
        proof { self.lemma_wf(); }
        let new_halfedge_id1 = self.new_halfedge(Some(new_vertex_id), Some(new_halfedge_id2), Some(face_id));
        proof { self.lemma_wf(); }
        self.set_next(halfedge_id1, Some(new_halfedge_id1));
        proof { self.lemma_wf(); }
        self.set_face_halfedge(face_id, halfedge_id1);
        proof { self.lemma_wf(); }

        let ghost a3 = m.nth_halfedge_id(0);
        let ghost a2 = m.nth_halfedge_id(1);
        let ghost b3 = m.nth_halfedge_id(2);
        let ghost b2 = m.nth_halfedge_id(3);
        let ghost c2 = m.nth_halfedge_id(4);
        let ghost c1 = m.nth_halfedge_id(5);
        proof {
            assert(face_id1 == m.nth_face_id(0));
            assert(face_id2 == m.nth_face_id(1));
            assert(new_halfedge_id2 == c2);
            assert(new_halfedge_id1 == c1);
            assert(self.he(halfedge_id2)->0.next == Some(a2));
            assert(self.he(a2)->0.next == Some(a3));
            assert(self.he(a3)->0.next == Some(halfedge_id2));
            assert(self.he(halfedge_id3)->0.next == Some(b2));
            assert(self.he(b2)->0.next == Some(b3));
            assert(self.he(b3)->0.next == Some(halfedge_id3));
            assert(self.fc(face_id1) == Some(Face { halfedge: Some(halfedge_id2) }));
            assert(self.fc(face_id2) == Some(Face { halfedge: Some(halfedge_id3) }));
            assert(self.he(a2)->0.vertex == Some(new_vertex_id));
            assert(self.he(a3)->0.vertex == Some(vertex_id1));
            assert(self.he(halfedge_id2)->0.vertex == Some(vertex_id2));
            assert(self.he(b2)->0.vertex == Some(new_vertex_id));
            assert(self.he(b3)->0.vertex == Some(vertex_id2));
            assert(self.he(halfedge_id3)->0.vertex == Some(vertex_id3));
            assert(self.he_live(a2) && self.he_live(a3) && self.he_live(b2) && self.he_live(b3) && self.he_live(c1) && self.he_live(c2));
        }

        proof {
            let he = m.halfedges();
            let nv = new_vertex_id;
            let (h1, h2, h3) = (halfedge_id1, halfedge_id2, halfedge_id3);
            let (v1, v2, v3) = (vertex_id1, vertex_id2, vertex_id3);
            let (f1, f2) = (face_id1, face_id2);
            assert(self.halfedges() =~= he
                .insert(h1.index(), HalfEdge { next: Some(c1), ..he[h1.index()] })
                .insert(h2.index(), HalfEdge { next: Some(a2), face: Some(f1), ..he[h2.index()] })
                .insert(h3.index(), HalfEdge { next: Some(b2), face: Some(f2), ..he[h3.index()] })
                .insert(a3.index(), HalfEdge { vertex: Some(v1), twin: None, next: Some(h2), face: Some(f1) })
                .insert(a2.index(), HalfEdge { vertex: Some(nv), twin: None, next: Some(a3), face: Some(f1) })
                .insert(b3.index(), HalfEdge { vertex: Some(v2), twin: None, next: Some(h3), face: Some(f2) })
                .insert(b2.index(), HalfEdge { vertex: Some(nv), twin: None, next: Some(b3), face: Some(f2) })
                .insert(c2.index(), HalfEdge { vertex: Some(v3), twin: None, next: Some(h1), face: Some(face_id) })
                .insert(c1.index(), HalfEdge { vertex: Some(nv), twin: None, next: Some(c2), face: Some(face_id) }));
            let vs = m.vertices();
            assert(self.vertices() =~= vs
                .insert(nv.index(), Vertex { halfedge: Some(b3), position })
                .insert(v1.index(), Vertex { halfedge: Some(h2), ..vs[v1.index()] })
                .insert(v2.index(), Vertex { halfedge: Some(h3), ..vs[v2.index()] })
                .insert(v3.index(), Vertex { halfedge: Some(b2), ..vs[v3.index()] }));
            assert(self.faces() =~= m.faces()
                .insert(f1.index(), Face { halfedge: Some(h2) })
                .insert(f2.index(), Face { halfedge: Some(h3) })
                .insert(face_id.index(), Face { halfedge: Some(h1) }));
        }
        // Update twin information
        let ghost stage = *self;
        let mut new_halfedge_id = HalfEdgeID::new(0);
        let face1 = self.face_halfedge_iter(face_id1);
        proof {
            assert(face1@ == seq![a2, a3, halfedge_id2]);
        }
        let vid = self.vertex_of_halfedge(face1[0]).unwrap();
        if vid == vertex_id1 {
            self.set_twins(new_halfedge_id1, face1[0]);
        } else if vid == new_vertex_id {
            new_halfedge_id = face1[0];
        }
        proof { assert(self.shape(face1[1]) == stage.shape(face1[1])); }
        let vid = self.vertex_of_halfedge(face1[1]).unwrap();
        if vid == vertex_id1 {
            self.set_twins(new_halfedge_id1, face1[1]);
        } else if vid == new_vertex_id {
            new_halfedge_id = face1[1];
        }
        proof { assert(self.shape(face1[2]) == stage.shape(face1[2])); }
        let vid = self.vertex_of_halfedge(face1[2]).unwrap();
        if vid == vertex_id1 {
            self.set_twins(new_halfedge_id1, face1[2]);
        } else if vid == new_vertex_id {
            new_halfedge_id = face1[2];
        }
        proof {
            assert(self.shape(b2) == stage.shape(b2));
            assert(self.shape(b3) == stage.shape(b3));
            assert(self.shape(halfedge_id3) == stage.shape(halfedge_id3));
            assert(self.fc(face_id2) == stage.fc(face_id2));
        }
        let face2 = self.face_halfedge_iter(face_id2);
        proof {
            assert(face2@ == seq![b2, b3, halfedge_id3]);
        }
        let vid = self.vertex_of_halfedge(face2[0]).unwrap();
        if vid == vertex_id2 {
            self.set_twins(new_halfedge_id, face2[0]);
        } else if vid == new_vertex_id {
            self.set_twins(new_halfedge_id2, face2[0]);
        }
        proof { assert(self.shape(face2[1]) == stage.shape(face2[1])); }
        let vid = self.vertex_of_halfedge(face2[1]).unwrap();
        if vid == vertex_id2 {
            self.set_twins(new_halfedge_id, face2[1]);
        } else if vid == new_vertex_id {
            self.set_twins(new_halfedge_id2, face2[1]);
        }
        proof { assert(self.shape(face2[2]) == stage.shape(face2[2])); }
        let vid = self.vertex_of_halfedge(face2[2]).unwrap();
        if vid == vertex_id2 {
            self.set_twins(new_halfedge_id, face2[2]);
        } else if vid == new_vertex_id {
            self.set_twins(new_halfedge_id2, face2[2]);
        }
        proof {
            let he = m.halfedges();
            let nv = new_vertex_id;
            let (h1, h2, h3) = (halfedge_id1, halfedge_id2, halfedge_id3);
            let (v1, v2, v3) = (vertex_id1, vertex_id2, vertex_id3);
            let (f1, f2) = (face_id1, face_id2);
            assert(new_halfedge_id == a2);
            assert(self.halfedges() =~= he
                .insert(h1.index(), HalfEdge { next: Some(c1), ..he[h1.index()] })
                .insert(h2.index(), HalfEdge { next: Some(a2), face: Some(f1), ..he[h2.index()] })
                .insert(h3.index(), HalfEdge { next: Some(b2), face: Some(f2), ..he[h3.index()] })
                .insert(a3.index(), HalfEdge { vertex: Some(v1), twin: Some(c1), next: Some(h2), face: Some(f1) })
                .insert(a2.index(), HalfEdge { vertex: Some(nv), twin: Some(b3), next: Some(a3), face: Some(f1) })
                .insert(b3.index(), HalfEdge { vertex: Some(v2), twin: Some(a2), next: Some(h3), face: Some(f2) })
                .insert(b2.index(), HalfEdge { vertex: Some(nv), twin: Some(c2), next: Some(b3), face: Some(f2) })
                .insert(c2.index(), HalfEdge { vertex: Some(v3), twin: Some(b2), next: Some(h1), face: Some(face_id) })
                .insert(c1.index(), HalfEdge { vertex: Some(nv), twin: Some(a3), next: Some(c2), face: Some(face_id) }));
            Self::lemma_face_split_keeps_valid(m, *self, face_id, position);
        }
        new_vertex_id
    }
}

impl<T: Copy> Mesh<T> {
    /// `self` is `m` with the face of `h` split at the vertex `nv` on the edge of `h`: `h` now ends in `nv`,
    /// a new face holds the rest of the edge and the next half-edge of `h`, and the new half-edge that ends the
    /// new face becomes the twin of `th`.
    pub open spec fn is_one_face_split_of(&self, m: Mesh<T>, h: HalfEdgeID, th: HalfEdgeID, nv: VertexID) -> bool {
        let n = m.next_of(Some(h))->0;
        let p = m.next_of(Some(n))->0;
        let b = m.vertex_of(Some(h))->0;
        let c = m.vertex_of(Some(n))->0;
        let old_face = m.face_of(Some(h))->0;
        let nf = m.nth_face_id(0);
        let x3 = m.nth_halfedge_id(0);
        let x2 = m.nth_halfedge_id(1);
        let y = m.nth_halfedge_id(2);
        let he = m.halfedges();
        let vs = m.vertices();
        &&& self.halfedges() == he
            .insert(h.index(), HalfEdge { vertex: Some(nv), next: Some(y), ..he[h.index()] })
            .insert(n.index(), HalfEdge { next: Some(x2), face: Some(nf), ..he[n.index()] })
            .insert(x3.index(), HalfEdge { vertex: Some(b), twin: Some(th), next: Some(n), face: Some(nf) })
            .insert(x2.index(), HalfEdge { vertex: Some(nv), twin: Some(y), next: Some(x3), face: Some(nf) })
            .insert(y.index(), HalfEdge { vertex: Some(c), twin: Some(x2), next: Some(p), face: Some(old_face) })
            .insert(th.index(), HalfEdge { twin: Some(x3), ..he[th.index()] })
        &&& self.faces() == m.faces()
            .insert(nf.index(), Face { halfedge: Some(n) })
            .insert(old_face.index(), Face { halfedge: Some(h) })
        &&& self.vertices() == vs
            .insert(b.index(), Vertex { halfedge: Some(n), ..vs[b.index()] })
            .insert(c.index(), Vertex { halfedge: Some(x2), ..vs[c.index()] })
            .insert(nv.index(), Vertex { halfedge: Some(x3), ..vs[nv.index()] })
        &&& forall|k: nat| #[trigger] self.nth_halfedge_id(k) == m.nth_halfedge_id(k + 3)
        &&& forall|k: nat| #[trigger] self.nth_face_id(k) == m.nth_face_id(k + 1)
        &&& forall|k: nat| #[trigger] self.nth_vertex_id(k) == m.nth_vertex_id(k)
        &&& self.room().0 == m.room().0 && self.room().1 == m.room().1 - 3 && self.room().2 == m.room().2 - 1
    }

    /// Splits the face of `halfedge_id` at `new_vertex_id`, which lies on the edge of `halfedge_id`.
    fn split_one_face(&mut self, halfedge_id: HalfEdgeID, twin_halfedge_id: HalfEdgeID, new_vertex_id: VertexID)
        requires
            old(self).wf(),
            old(self).he_live(halfedge_id),
            old(self).he_live(twin_halfedge_id),
            twin_halfedge_id != halfedge_id,
            old(self).vx_live(new_vertex_id),
            old(self).room().1 >= 3,
            old(self).room().2 >= 1,
            old(self).face_of(Some(halfedge_id)) is Some,
            ({
                let n = old(self).next_of(Some(halfedge_id));
                let p = old(self).next_of(n);
                &&& n is Some && p is Some
                &&& old(self).he_live(n->0) && old(self).he_live(p->0)
                &&& n->0 != halfedge_id && p->0 != halfedge_id && n->0 != p->0
                &&& twin_halfedge_id != n->0 && twin_halfedge_id != p->0
                &&& old(self).fc_live(old(self).face_of(Some(halfedge_id))->0)
                &&& old(self).vertex_of(Some(halfedge_id)) matches Some(b) && old(self).vx_live(b) && b != new_vertex_id
                &&& old(self).vertex_of(n) matches Some(c) && old(self).vx_live(c) && c != new_vertex_id
                    && c != old(self).vertex_of(Some(halfedge_id))->0
            }),
        ensures
            final(self).wf(),
            final(self).is_one_face_split_of(*old(self), halfedge_id, twin_halfedge_id, new_vertex_id),
    {
        let ghost m = *self;
        proof {
            self.lemma_wf();
            self.lemma_nth_ids();
        }
        let mut walker = self.walker_from_halfedge(halfedge_id);
        proof { walker.lemma_reads(self); }
        let vertex_id1 = walker.vertex_id().unwrap();
        let old_face_id = walker.face_id().unwrap();

        walker.as_next();
        proof { walker.lemma_reads(self); }
        let halfedge_to_reuse_vertex = walker.vertex_id().unwrap();
        let halfedge_to_reuse = walker.halfedge_id().unwrap();
        let halfedge_to_reuse_next = walker.next_id().unwrap();

        // Create new face
        let new_face_id = self.new_face_on(vertex_id1, halfedge_to_reuse_vertex, new_vertex_id, halfedge_to_reuse);
        proof { self.lemma_wf(); }

        // Update old face
        let new_halfedge_id = self.new_halfedge(Some(halfedge_to_reuse_vertex), Some(halfedge_to_reuse_next), Some(old_face_id));
        proof { self.lemma_wf(); }
        let ghost created = *self;
        self.set_vertex(halfedge_id, new_vertex_id);
        self.set_next(halfedge_id, Some(new_halfedge_id));
        proof { self.lemma_wf(); }
        self.set_face_halfedge(old_face_id, halfedge_id);
        proof { self.lemma_wf(); }

        let ghost x3 = m.nth_halfedge_id(0);
        let ghost x2 = m.nth_halfedge_id(1);
        let ghost y = m.nth_halfedge_id(2);
        proof {
            assert(new_halfedge_id == y);
            assert(self.he(halfedge_to_reuse)->0.next == Some(x2));
            assert(self.he(x2)->0.next == Some(x3));
            assert(self.he(x3)->0.next == Some(halfedge_to_reuse));
            assert(self.he(x2)->0.vertex == Some(new_vertex_id));
            assert(self.he(x3)->0.vertex == Some(vertex_id1));
            assert(self.he(halfedge_to_reuse)->0.vertex == Some(halfedge_to_reuse_vertex));
            assert(self.he_live(x2) && self.he_live(x3) && self.he_live(y));
            assert(self.fc(new_face_id) == Some(Face { halfedge: Some(halfedge_to_reuse) }));
            let he = m.halfedges();
            let (h, n, p) = (halfedge_id, halfedge_to_reuse, halfedge_to_reuse_next);
            let (b, c, nv) = (vertex_id1, halfedge_to_reuse_vertex, new_vertex_id);
            assert(self.halfedges() =~= he
                .insert(h.index(), HalfEdge { vertex: Some(nv), next: Some(y), ..he[h.index()] })
                .insert(n.index(), HalfEdge { next: Some(x2), face: Some(new_face_id), ..he[n.index()] })
                .insert(x3.index(), HalfEdge { vertex: Some(b), twin: None, next: Some(n), face: Some(new_face_id) })
                .insert(x2.index(), HalfEdge { vertex: Some(nv), twin: None, next: Some(x3), face: Some(new_face_id) })
                .insert(y.index(), HalfEdge { vertex: Some(c), twin: None, next: Some(p), face: Some(old_face_id) }));
            assert(x2 != x3 && x2 != y && x3 != y);
            assert(twin_halfedge_id != x2 && twin_halfedge_id != x3 && twin_halfedge_id != y);
        }

        // Update twin information
        let ghost stage = *self;
        let ids = self.face_halfedge_iter(new_face_id);
        proof { assert(ids@ == seq![x2, x3, halfedge_to_reuse]); }
        let vid = self.vertex_of_halfedge(ids[0]).unwrap();
        proof { assert(vid == new_vertex_id && vid != vertex_id1); }
        if vid == vertex_id1 {
            self.set_twins(twin_halfedge_id, ids[0]);
        } else if vid == new_vertex_id {
            self.set_twins(new_halfedge_id, ids[0]);
        }
        let ghost s1 = stage.halfedges().insert(y.index(), HalfEdge { twin: Some(x2), ..stage.halfedges()[y.index()] });
        let ghost s1 = s1.insert(x2.index(), HalfEdge { twin: Some(y), ..s1[x2.index()] });
        proof {
            assert(self.halfedges() == s1);
            assert(self.shape(ids[1]) == stage.shape(ids[1]));
        }
        let vid = self.vertex_of_halfedge(ids[1]).unwrap();
        proof { assert(vid == vertex_id1); }
        if vid == vertex_id1 {
            self.set_twins(twin_halfedge_id, ids[1]);
        } else if vid == new_vertex_id {
            self.set_twins(new_halfedge_id, ids[1]);
        }
        let ghost s2 = s1.insert(twin_halfedge_id.index(), HalfEdge { twin: Some(x3), ..s1[twin_halfedge_id.index()] });
        let ghost s2 = s2.insert(x3.index(), HalfEdge { twin: Some(twin_halfedge_id), ..s2[x3.index()] });
        proof {
            assert(self.halfedges() == s2);
            assert(self.shape(ids[2]) == stage.shape(ids[2]));
        }
        let vid = self.vertex_of_halfedge(ids[2]).unwrap();
        proof { assert(vid != vertex_id1 && vid != new_vertex_id); }
        if vid == vertex_id1 {
            self.set_twins(twin_halfedge_id, ids[2]);
        } else if vid == new_vertex_id {
            self.set_twins(new_halfedge_id, ids[2]);
        }
        proof {
            assert(self.halfedges() == s2);
            let th = twin_halfedge_id;
            HalfEdgeID::lemma_index_injective(th, halfedge_id);
            HalfEdgeID::lemma_index_injective(th, halfedge_to_reuse);
            HalfEdgeID::lemma_index_injective(th, x2);
            HalfEdgeID::lemma_index_injective(th, x3);
            HalfEdgeID::lemma_index_injective(th, y);
            HalfEdgeID::lemma_index_injective(x2, y);
            HalfEdgeID::lemma_index_injective(x3, y);
            HalfEdgeID::lemma_index_injective(x2, x3);
            let he = m.halfedges();
            let vs = m.vertices();
            let (h, n, p, th) = (halfedge_id, halfedge_to_reuse, halfedge_to_reuse_next, twin_halfedge_id);
            let (b, c, nv) = (vertex_id1, halfedge_to_reuse_vertex, new_vertex_id);
            assert(self.halfedges() =~= he
                .insert(h.index(), HalfEdge { vertex: Some(nv), next: Some(y), ..he[h.index()] })
                .insert(n.index(), HalfEdge { next: Some(x2), face: Some(new_face_id), ..he[n.index()] })
                .insert(x3.index(), HalfEdge { vertex: Some(b), twin: Some(th), next: Some(n), face: Some(new_face_id) })
                .insert(x2.index(), HalfEdge { vertex: Some(nv), twin: Some(y), next: Some(x3), face: Some(new_face_id) })
                .insert(y.index(), HalfEdge { vertex: Some(c), twin: Some(x2), next: Some(p), face: Some(old_face_id) })
                .insert(th.index(), HalfEdge { twin: Some(x3), ..he[th.index()] }));
            assert(self.faces() =~= m.faces()
                .insert(new_face_id.index(), Face { halfedge: Some(n) })
                .insert(old_face_id.index(), Face { halfedge: Some(h) }));
            assert(self.vertices() =~= vs
                .insert(b.index(), Vertex { halfedge: Some(n), ..vs[b.index()] })
                .insert(c.index(), Vertex { halfedge: Some(x2), ..vs[c.index()] })
                .insert(nv.index(), Vertex { halfedge: Some(x3), ..vs[nv.index()] }));
            assert(new_face_id == m.nth_face_id(0));
            assert(p == m.next_of(Some(n))->0);
            assert(self.same_ids(&created));
            self.lemma_same_ids(&created);
            assert(forall|k: nat| #[trigger] self.nth_halfedge_id(k) == m.nth_halfedge_id(k + 3));
            assert(forall|k: nat| #[trigger] self.nth_face_id(k) == m.nth_face_id(k + 1));
            assert(forall|k: nat| #[trigger] self.nth_vertex_id(k) == m.nth_vertex_id(k));
            assert(self.room().0 == m.room().0 && self.room().1 == m.room().1 - 3 && self.room().2 == m.room().2 - 1);
        }
    }
}

impl<T: Copy> Mesh<T> {
    /// `self` is `m` after the split of the edge of `s` at `nv`, where the twin `t` of `s` has no face: a new
    /// boundary half-edge, pointing where `t` pointed, becomes the twin of `s`, and `t` now points to `nv`.
    pub open spec fn is_boundary_close_of(&self, m: Mesh<T>, s: HalfEdgeID, t: HalfEdgeID, nv: VertexID) -> bool {
        let z = m.nth_halfedge_id(0);
        let he = m.halfedges();
        &&& self.halfedges() == he
            .insert(z.index(), HalfEdge { vertex: m.vertex_of(Some(t)), twin: Some(s), next: None, face: None })
            .insert(s.index(), HalfEdge { twin: Some(z), ..he[s.index()] })
            .insert(t.index(), HalfEdge { vertex: Some(nv), ..he[t.index()] })
        &&& self.faces() == m.faces()
        &&& self.vertices() == m.vertices()
    }

    /// The half-edge of the edge of `h` whose face `split_edge` splits first: `h` if it has a face, else its twin.
    pub open spec fn split_side(&self, h: HalfEdgeID) -> HalfEdgeID {
        if self.face_of(Some(h)) is Some { h } else { self.twin_of(Some(h))->0 }
    }

    /// `self` is `m` after `split_edge` of the edge of `h` at a new vertex with the given position: the vertex is
    /// added, the face of the split side is split, then the face on the other side, or, where there is none,
    /// the boundary is closed.
    pub open spec fn is_edge_split_of(&self, m: Mesh<T>, h: HalfEdgeID, position: [T; 3]) -> bool {
        let s = m.split_side(h);
        let t = m.twin_of(Some(s))->0;
        let nv = m.nth_vertex_id(0);
        exists|m1: Mesh<T>, m2: Mesh<T>| {
            &&& m1.wf() && m2.wf()
            &&& #[trigger] m1.is_vertex_added_to(m, position)
            &&& #[trigger] m2.is_one_face_split_of(m1, s, t, nv)
            &&& if m.face_of(Some(t)) is Some {
                self.is_one_face_split_of(m2, t, s, nv)
            } else {
                self.is_boundary_close_of(m2, s, t, nv)
            }
        }
    }

    /// Split the given edge into two.
    /// Returns the id of the new vertex positioned at the given position.
    pub fn split_edge(&mut self, halfedge_id: HalfEdgeID, position: [T; 3]) -> (vid: VertexID)
        requires
            old(self).valid(),
            old(self).he_live(halfedge_id),
            old(self).face_of(Some(halfedge_id)) is Some || old(self).face_of(old(self).twin_of(Some(halfedge_id))) is Some,
            old(self).room().0 >= 1,
            old(self).room().1 >= 6,
            old(self).room().2 >= 2,
        ensures
            vid == old(self).nth_vertex_id(0),
            final(self).wf(),
            final(self).valid(),
            final(self).is_edge_split_of(*old(self), halfedge_id, position),
    {
        let ghost m = *self;
        proof {
            self.lemma_valid_wf();
            self.lemma_wf();
            self.lemma_nth_ids();
            self.lemma_halfedge_ok(halfedge_id);
        }
        let mut walker = self.walker_from_halfedge(halfedge_id);
        proof { walker.lemma_reads(self); }
        if walker.face_id().is_none() {
            walker.as_twin();
            proof { walker.lemma_reads(self); }
        }
        let split_halfedge_id = walker.halfedge_id().unwrap();
        walker.as_twin();
        proof { walker.lemma_reads(self); }
        let twin_halfedge_id = walker.halfedge_id().unwrap();
        let twin_vertex_id = walker.vertex_id();
        let is_boundary = walker.face_id().is_none();

        let ghost s = split_halfedge_id;
        let ghost t = twin_halfedge_id;
        proof {
            assert(s == m.split_side(halfedge_id));
            m.lemma_triangle(s);
            let n = m.next_of(Some(s))->0;
            m.lemma_halfedge_ok(n);
            m.lemma_halfedge_ok(t);
        }
        let new_vertex_id = self.create_vertex(position);
        let ghost m1 = *self;
        proof {
            self.lemma_wf();
            assert forall|x: HalfEdgeID| m.he_live(x) implies #[trigger] self.he(x) == m.he(x) by {}
            let n = m.next_of(Some(s))->0;
            let p = m.next_of(Some(n))->0;
            assert(self.he(s) == m.he(s) && self.he(n) == m.he(n) && self.he(p) == m.he(p));
        }
        self.split_one_face(split_halfedge_id, twin_halfedge_id, new_vertex_id);
        let ghost m2 = *self;
        if !is_boundary {
            proof {
                self.lemma_wf();
                m.lemma_triangle(t);
                let tn = m.next_of(Some(t))->0;
                let tp = m.next_of(Some(tn))->0;
                m.lemma_halfedge_ok(tn);
                let n = m.next_of(Some(s))->0;
                let p = m.next_of(Some(n))->0;
                let x3 = m1.nth_halfedge_id(0);
                let x2 = m1.nth_halfedge_id(1);
                let y = m1.nth_halfedge_id(2);
                HalfEdgeID::lemma_index_injective(tn, s);
                HalfEdgeID::lemma_index_injective(tn, n);
                HalfEdgeID::lemma_index_injective(tn, t);
                HalfEdgeID::lemma_index_injective(tn, x3);
                HalfEdgeID::lemma_index_injective(tn, x2);
                HalfEdgeID::lemma_index_injective(tn, y);
                HalfEdgeID::lemma_index_injective(tp, s);
                HalfEdgeID::lemma_index_injective(tp, n);
                HalfEdgeID::lemma_index_injective(tp, t);
                HalfEdgeID::lemma_index_injective(tp, x3);
                HalfEdgeID::lemma_index_injective(tp, x2);
                HalfEdgeID::lemma_index_injective(tp, y);
                HalfEdgeID::lemma_index_injective(t, s);
                HalfEdgeID::lemma_index_injective(t, n);
                HalfEdgeID::lemma_index_injective(t, x3);
                HalfEdgeID::lemma_index_injective(t, x2);
                HalfEdgeID::lemma_index_injective(t, y);
                assert(self.he(t) == Some(HalfEdge { twin: Some(x3), ..m.he(t)->0 }));
                assert(self.he(tn) == m.he(tn));
                assert(self.he(tp) == m.he(tp));
            }
            self.split_one_face(twin_halfedge_id, split_halfedge_id, new_vertex_id);
            proof {
                assert(self.is_one_face_split_of(m2, t, s, new_vertex_id));
            }
        } else {
            let new_halfedge_id = self.new_halfedge(twin_vertex_id, None, None);
            self.set_twins(split_halfedge_id, new_halfedge_id);
            self.set_vertex(twin_halfedge_id, new_vertex_id);
            proof {
                let z = m2.nth_halfedge_id(0);
                let he = m2.halfedges();
                assert(self.halfedges() =~= he
                    .insert(z.index(), HalfEdge { vertex: m2.vertex_of(Some(t)), twin: Some(s), next: None, face: None })
                    .insert(s.index(), HalfEdge { twin: Some(z), ..he[s.index()] })
                    .insert(t.index(), HalfEdge { vertex: Some(new_vertex_id), ..he[t.index()] }));
                assert(self.is_boundary_close_of(m2, s, t, new_vertex_id));
            }
        }
        proof {
            assert(m1.is_vertex_added_to(m, position));
            assert(m2.is_one_face_split_of(m1, s, t, new_vertex_id));
            self.lemma_wf();
            assert(m.edge_split_names(halfedge_id).t == t);
            Self::lemma_edge_split_shape(m, m1, m2, *self, halfedge_id, position);
            Self::lemma_edge_split_keeps_valid(m, *self, halfedge_id);
        }
        new_vertex_id
    }
}

impl<T: Copy> Mesh<T> {
    /// `self` is `m` without the face of `h` and its three half-edges: the twins of the other two half-edges
    /// become twins of each other, the twin of `h` no longer names a twin, and the vertex that the next
    /// half-edge of `h` points to now names the first of those twins.
    pub open spec fn is_one_face_removed_of(&self, m: Mesh<T>, h: HalfEdgeID) -> bool {
        let f = m.face_of(Some(h))->0;
        let n = m.next_of(Some(h))->0;
        let p = m.next_of(Some(n))->0;
        let t1 = m.twin_of(Some(n))->0;
        let t2 = m.twin_of(Some(p))->0;
        let v = m.vertex_of(Some(n))->0;
        let he = m.halfedges();
        let he1 = match m.twin_of(Some(h)) {
            Some(th) => if m.he_live(th) { he.insert(th.index(), HalfEdge { twin: None, ..he[th.index()] }) } else { he },
            None => he,
        };
        let he2 = he1.remove(h.index()).remove(n.index()).remove(p.index());
        &&& self.halfedges() == he2
            .insert(t1.index(), HalfEdge { twin: Some(t2), ..he[t1.index()] })
            .insert(t2.index(), HalfEdge { twin: Some(t1), ..he[t2.index()] })
        &&& self.faces() == m.faces().remove(f.index())
        &&& self.vertices() == m.vertices().insert(v.index(), Vertex { halfedge: Some(t1), ..m.vertices()[v.index()] })
    }

    /// The conditions under which the face of `h` can be removed: it is a triangle of distinct half-edges
    /// whose other two half-edges have distinct twins outside the face.
    pub open spec fn one_face_removable(&self, h: HalfEdgeID) -> bool {
        let n = self.next_of(Some(h));
        let p = self.next_of(n);
        &&& self.he_live(h)
        &&& self.face_of(Some(h)) matches Some(f) && self.fc_live(f)
        &&& n is Some && p is Some && self.he_live(n->0) && self.he_live(p->0)
        &&& h != n->0 && h != p->0 && n->0 != p->0
        &&& self.twin_of(n) matches Some(t1) && self.he_live(t1)
        &&& self.twin_of(p) matches Some(t2) && self.he_live(t2)
        &&& self.twin_of(n)->0 != self.twin_of(p)->0
        &&& self.twin_of(n)->0 != h && self.twin_of(n)->0 != n->0 && self.twin_of(n)->0 != p->0
        &&& self.twin_of(p)->0 != h && self.twin_of(p)->0 != n->0 && self.twin_of(p)->0 != p->0
        &&& (self.twin_of(Some(h)) matches Some(th) ==> self.he(th) is Some && th != n->0 && th != p->0)
        &&& self.vertex_of(n) matches Some(v) && self.vx_live(v)
    }

    /// Removes the face of the half-edge and its three half-edges, and makes the twins of the other two
    /// half-edges twins of each other.
    fn remove_one_face(&mut self, halfedge_id: HalfEdgeID)
        requires
            old(self).wf(),
            old(self).one_face_removable(halfedge_id),
        ensures
            final(self).wf(),
            final(self).is_one_face_removed_of(*old(self), halfedge_id),
    {
        let ghost m = *self;
        proof { self.lemma_wf(); }
        let mut walker = self.walker_from_halfedge(halfedge_id);
        proof { walker.lemma_reads(self); }
        let face_id = walker.face_id().unwrap();

        walker.as_next();
        proof { walker.lemma_reads(self); }
        let halfedge_id1 = walker.halfedge_id().unwrap();
        let twin_id1 = walker.twin_id().unwrap();
        let vertex_id = walker.vertex_id().unwrap();
        walker.as_next();
        proof { walker.lemma_reads(self); }
        let halfedge_id2 = walker.halfedge_id().unwrap();
        let twin_id2 = walker.twin_id().unwrap();

        let ghost (h, n, p, t1, t2) = (halfedge_id, halfedge_id1, halfedge_id2, twin_id1, twin_id2);
        proof {
            HalfEdgeID::lemma_index_injective(h, n);
            HalfEdgeID::lemma_index_injective(h, p);
            HalfEdgeID::lemma_index_injective(n, p);
            HalfEdgeID::lemma_index_injective(t1, h);
            HalfEdgeID::lemma_index_injective(t1, n);
            HalfEdgeID::lemma_index_injective(t1, p);
            HalfEdgeID::lemma_index_injective(t2, h);
            HalfEdgeID::lemma_index_injective(t2, n);
            HalfEdgeID::lemma_index_injective(t2, p);
            HalfEdgeID::lemma_index_injective(t1, t2);
            if let Some(th) = m.twin_of(Some(h)) {
                HalfEdgeID::lemma_index_injective(th, n);
                HalfEdgeID::lemma_index_injective(th, p);
            }
        }
        self.drop_face(face_id);
        self.drop_halfedge(halfedge_id);
        proof {
            self.lemma_wf();
            assert(self.he(n) == m.he(n) && self.he(p) == m.he(p));
        }
        self.drop_halfedge(halfedge_id1);
        proof {
            self.lemma_wf();
            assert(self.he(p) == m.he(p));
        }
        self.drop_halfedge(halfedge_id2);
        proof { self.lemma_wf(); }
        self.set_twins(twin_id1, twin_id2);
        self.set_vertex_halfedge(vertex_id, Some(twin_id1));
        proof {
            let he = m.halfedges();
            let he1 = match m.twin_of(Some(h)) {
                Some(th) => if m.he_live(th) { he.insert(th.index(), HalfEdge { twin: None, ..he[th.index()] }) } else { he },
                None => he,
            };
            let he2 = he1.remove(h.index()).remove(n.index()).remove(p.index());
            assert(self.halfedges() =~= he2
                .insert(t1.index(), HalfEdge { twin: Some(t2), ..he[t1.index()] })
                .insert(t2.index(), HalfEdge { twin: Some(t1), ..he[t2.index()] }));
        }
    }
}

impl<T: Copy> Mesh<T> {
    /// The two meshes have the same vertices, half-edges and faces.
    pub open spec fn same_maps(&self, m: Mesh<T>) -> bool {
        &&& self.halfedges() == m.halfedges()
        &&& self.vertices() == m.vertices()
        &&& self.faces() == m.faces()
    }

    /// `self` is `m` without the half-edge `h`; the twin of `h`, if in the mesh, names no twin.
    pub open spec fn is_halfedge_dropped_of(&self, m: Mesh<T>, h: HalfEdgeID) -> bool {
        let he = m.halfedges();
        &&& self.halfedges() == (match m.twin_of(Some(h)) {
            Some(t) => if m.he_live(t) { he.insert(t.index(), HalfEdge { twin: None, ..he[t.index()] }) } else { he },
            None => he,
        }).remove(h.index())
        &&& self.vertices() == m.vertices()
        &&& self.faces() == m.faces()
    }

    /// `self` is `m` with the vertex `v` naming the half-edge `x`.
    pub open spec fn is_vertex_halfedge_set_of(&self, m: Mesh<T>, v: VertexID, x: Option<HalfEdgeID>) -> bool {
        &&& self.vertices() == m.vertices().insert(v.index(), Vertex { halfedge: x, ..m.vertices()[v.index()] })
        &&& self.halfedges() == m.halfedges()
        &&& self.faces() == m.faces()
    }

    /// The index `k` is that of the twin of a half-edge of `ring`.
    pub open spec fn is_twin_in(&self, ring: Seq<HalfEdgeID>, k: u32) -> bool {
        exists|j: int| 0 <= j < ring.len() && (#[trigger] self.twin_of(Some(ring[j])))->0.index() == k
    }

    /// The half-edges of the mesh, where each twin of a half-edge of `ring` points to `v`.
    pub open spec fn retargeted(&self, ring: Seq<HalfEdgeID>, v: VertexID) -> Map<u32, HalfEdge> {
        let he = self.halfedges();
        Map::new(
            |k: u32| he.dom().contains(k),
            |k: u32| if self.is_twin_in(ring, k) {
                HalfEdge { vertex: Some(v), ..he[k] }
            } else {
                he[k]
            },
        )
    }

    /// The faces on the two sides of the edge of `h` share no other edge: neither twin of the other two
    /// half-edges of the face of `h` lies in the face of the twin of `h`.
    pub open spec fn sides_share_only_edge(&self, h: HalfEdgeID) -> bool {
        let t = self.twin_of(Some(h));
        let t1 = self.twin_of(self.next_of(Some(h)));
        let t2 = self.twin_of(self.previous_of(Some(h)));
        let tn = self.next_of(t);
        let tp = self.previous_of(t);
        self.face_of(Some(h)) is Some && self.face_of(t) is Some ==> (t1 != tn && t1 != tp && t2 != tn && t2 != tp)
    }

    /// In a valid mesh, an edge may be collapsed exactly when, where it has a face on both sides, neither of the
    /// two other edges of the first face has the second face on its other side: the two faces share no edge but
    /// this one.
    pub proof fn lemma_collapsible_iff_neighbours_differ(&self, h: HalfEdgeID)
        requires
            self.valid(),
            self.he_live(h),
        ensures
            self.sides_share_only_edge(h) <==> (self.face_of(Some(h)) is Some && self.face_of(self.twin_of(Some(h))) is Some
                ==> {
                    let other = self.face_of(self.twin_of(Some(h)));
                    &&& self.face_of(self.twin_of(self.next_of(Some(h)))) != other
                    &&& self.face_of(self.twin_of(self.previous_of(Some(h)))) != other
                }),
    {
        self.lemma_halfedge_ok(h);
        if self.face_of(Some(h)) is Some && self.face_of(self.twin_of(Some(h))) is Some {
            self.lemma_triangle(h);
            let t = self.twin_of(Some(h))->0;
            let n = self.next_of(Some(h))->0;
            let p = self.next_of(Some(n))->0;
            self.lemma_triangle(t);
            self.lemma_triangle(n);
            self.lemma_triangle(p);
            let t1 = self.twin_of(Some(n))->0;
            let t2 = self.twin_of(Some(p))->0;
            let tn = self.next_of(Some(t))->0;
            let tp = self.next_of(Some(tn))->0;
            // A twin of `n` or `p` in the face of `t` is one of its three half-edges, and not `t` itself.
            if self.face_of(Some(t1)) == self.face_of(Some(t)) {
                self.lemma_face_members(t, t1);
            }
            if self.face_of(Some(t2)) == self.face_of(Some(t)) {
                self.lemma_face_members(t, t2);
            }
            assert(self.previous_of(Some(t)) == Some(tp));
        }
    }

    /// Whether [Mesh::collapse_edge] may collapse the edge: where it has a face on both sides, the two other
    /// edges of one face and those of the other face are four distinct edges.
    pub fn can_collapse_edge(&self, halfedge_id: HalfEdgeID) -> (b: bool)
        ensures
            b == self.sides_share_only_edge(halfedge_id),
            self.valid() && self.he_live(halfedge_id) ==> (b <==> (self.face_of(Some(halfedge_id)) is Some
                && self.face_of(self.twin_of(Some(halfedge_id))) is Some ==> {
                    let other = self.face_of(self.twin_of(Some(halfedge_id)));
                    &&& self.face_of(self.twin_of(self.next_of(Some(halfedge_id)))) != other
                    &&& self.face_of(self.twin_of(self.previous_of(Some(halfedge_id)))) != other
                })),
    {
        proof {
            if self.valid() && self.he_live(halfedge_id) {
                self.lemma_collapsible_iff_neighbours_differ(halfedge_id);
            }
        }
        let h = Some(halfedge_id);
        let t = self.twin_id_of(h);
        let t1 = self.twin_id_of(self.next_id_of(h));
        let t2 = self.twin_id_of(self.next_id_of(self.next_id_of(h)));
        let tn = self.next_id_of(t);
        let tp = self.next_id_of(self.next_id_of(t));
        if self.face_id_of(h).is_some() && self.face_id_of(t).is_some() {
            t1 != tn && t1 != tp && t2 != tn && t2 != tp
        } else {
            true
        }
    }

    /// The steps of `collapse_edge`, `m` to `m5` and `self`: the half-edges that pointed to the dying vertex
    /// point to the surviving one; each side of the edge that has a face names a new half-edge for the surviving
    /// vertex and loses its face, else its half-edge; the dying vertex goes, the surviving one moves.
    pub open spec fn collapse_steps(&self, m: Mesh<T>, m1: Mesh<T>, m2: Mesh<T>, m3: Mesh<T>, m4: Mesh<T>, m5: Mesh<T>,
        h: HalfEdgeID, position: [T; 3]) -> bool {
        let t = m.twin_of(Some(h))->0;
        let sv = m.vertex_of(Some(h))->0;
        let dv = m.vertex_of(Some(t))->0;
        &&& m1.wf() && m2.wf() && m3.wf() && m4.wf() && m5.wf()
        &&& m1.halfedges() == m.retargeted(m.one_ring(dv), sv)
        &&& m1.vertices() == m.vertices() && m1.faces() == m.faces()
        &&& if m.face_of(Some(t)) is Some {
            m2.is_vertex_halfedge_set_of(m1, sv, m1.twin_of(m1.previous_of(Some(t))))
        } else {
            m2.is_halfedge_dropped_of(m1, t)
        }
        &&& if m.face_of(Some(h)) is Some {
            m3.is_vertex_halfedge_set_of(m2, sv, m2.twin_of(m2.previous_of(Some(h)))) && m4.is_one_face_removed_of(m3, h)
        } else {
            m3.same_maps(m2) && m4.is_halfedge_dropped_of(m3, h)
        }
        &&& if m.face_of(Some(t)) is Some { m5.is_one_face_removed_of(m4, t) } else { m5.same_maps(m4) }
        &&& self.vertices() == m5.vertices().remove(dv.index()).insert(sv.index(), Vertex { position, ..m5.vertices()[sv.index()] })
        &&& self.halfedges() == m5.halfedges()
        &&& self.faces() == m5.faces()
    }

    /// `self` is `m` after `collapse_edge` of the edge of `h`, with the surviving vertex moved to `position`.
    pub open spec fn is_edge_collapse_of(&self, m: Mesh<T>, h: HalfEdgeID, position: [T; 3]) -> bool {
        exists|m1: Mesh<T>, m2: Mesh<T>, m3: Mesh<T>, m4: Mesh<T>, m5: Mesh<T>|
            #[trigger] self.collapse_steps(m, m1, m2, m3, m4, m5, h, position)
    }

    /// Collapses the given edge. Consequently, the two adjacent faces are removed and
    /// the two adjacent vertices are merged into one vertex, the one that the half-edge points to,
    /// which is moved to `position` (usually the midpoint of the edge).
    /// Returns the merged vertex.
    ///
    /// **Note:** This might make some faces degenerate.
    pub fn collapse_edge(&mut self, halfedge_id: HalfEdgeID, position: [T; 3]) -> (vid: VertexID)
        requires
            old(self).valid(),
            old(self).he_live(halfedge_id),
            old(self).sides_share_only_edge(halfedge_id),
        ensures
            vid == old(self).vertex_of(Some(halfedge_id))->0,
            final(self).wf(),
            final(self).is_edge_collapse_of(*old(self), halfedge_id, position),
            old(self).collapse_keeps_shape(halfedge_id) ==> final(self).valid(),
    {
        let ghost m = *self;
        proof {
            self.lemma_valid_wf();
            self.lemma_wf();
            self.lemma_halfedge_ok(halfedge_id);
        }
        let walker = self.walker_from_halfedge(halfedge_id);
        proof { walker.lemma_reads(self); }
        let surviving_vertex_id = walker.vertex_id().unwrap();
        let walker = walker.into_twin();
        proof {
            walker.lemma_reads(self);
            self.lemma_halfedge_ok(self.twin_of(Some(halfedge_id))->0);
        }
        let twin_id = walker.halfedge_id().unwrap();
        let dying_vertex_id = walker.vertex_id().unwrap();
        let ghost (h, t, sv, dv) = (halfedge_id, twin_id, surviving_vertex_id, dying_vertex_id);
        proof {
            self.lemma_halfedge_ok(t);
            self.lemma_vertex_ok(dv);
            self.lemma_one_ring_live(dv);
        }

        // Update halfedges pointing to dying vertex
        let ring = self.vertex_halfedge_iter(dying_vertex_id);
        let mut i: usize = 0;
        while i < ring.len()
            invariant
                m.valid(),
                m.wf(),
                self.wf(),
                ring@ == m.one_ring(dv),
                sv == surviving_vertex_id,
                i <= ring.len(),
                forall|j: int| 0 <= j < ring.len() ==> {
                    &&& m.he_live(#[trigger] ring@[j])
                    &&& m.twin_of(Some(ring@[j])) is Some
                    &&& m.he_live(m.twin_of(Some(ring@[j]))->0)
                },
                self.halfedges() == m.retargeted(ring@.take(i as int), sv),
                self.vertices() == m.vertices(),
                self.faces() == m.faces(),
            decreases ring.len() - i,
        {
            proof {
                self.lemma_wf();
                m.lemma_wf();
                assert(m.he_live(ring@[i as int]));
                assert(self.he(ring@[i as int])->0.twin == m.he(ring@[i as int])->0.twin);
            }
            let tw = self.walker_from_halfedge(ring[i]).twin_id().unwrap();
            proof {
                assert(tw == m.twin_of(Some(ring@[i as int]))->0);
            }
            let ghost before = self.halfedges();
            self.set_vertex(tw, surviving_vertex_id);
            proof {
                let a = ring@.take(i as int);
                let b = ring@.take(i as int + 1);
                let he = self.halfedges();
                assert forall|k: u32| #[trigger] m.is_twin_in(b, k) <==> (k == tw.index() || m.is_twin_in(a, k)) by {
                    if exists|j: int| 0 <= j < b.len() && (#[trigger] m.twin_of(Some(b[j])))->0.index() == k {
                        let j = choose|j: int| 0 <= j < b.len() && (#[trigger] m.twin_of(Some(b[j])))->0.index() == k;
                        if j < a.len() {
                            assert(a[j] == b[j]);
                        }
                    }
                    if k == tw.index() {
                        assert(b[i as int] == ring@[i as int]);
                    }
                    if exists|j: int| 0 <= j < a.len() && (#[trigger] m.twin_of(Some(a[j])))->0.index() == k {
                        let j = choose|j: int| 0 <= j < a.len() && (#[trigger] m.twin_of(Some(a[j])))->0.index() == k;
                        assert(a[j] == b[j]);
                    }
                }
                assert forall|k: u32| #[trigger] he.dom().contains(k) implies he[k] == m.retargeted(b, sv)[k] by {
                    assert(m.halfedges().dom().contains(k));
                    assert(before == m.retargeted(a, sv));
                    if k == tw.index() {
                        assert(m.is_twin_in(b, k));
                        assert(he[k] == HalfEdge { vertex: Some(sv), ..before[k] });
                        assert(m.retargeted(b, sv)[k] == HalfEdge { vertex: Some(sv), ..m.halfedges()[k] });
                    } else {
                        assert(he[k] == before[k]);
                        assert(m.is_twin_in(b, k) == m.is_twin_in(a, k));
                    }
                }
                assert(self.halfedges() =~= m.retargeted(b, sv));
            }
            i += 1;
        }
        proof {
            assert(ring@.take(ring.len() as int) =~= ring@);
        }
        let ghost m1 = *self;
        proof {
            self.lemma_wf();
            assert forall|x: HalfEdgeID| m.he_live(x) implies #[trigger] self.he(x) == Some(HalfEdge { vertex: self.he(x)->0.vertex, ..m.he(x)->0 }) by {}
            assert(self.vx_live(sv) && self.vx_live(dv));
        }
        let ghost (n, p) = (m.next_of(Some(h))->0, m.previous_of(Some(h))->0);
        let ghost (tn, tp) = (m.next_of(Some(t))->0, m.previous_of(Some(t))->0);
        proof {
            HalfEdgeID::lemma_index_injective(t, h);
            if m.face_of(Some(h)) is Some {
                m.lemma_triangle(h);
                HalfEdgeID::lemma_index_injective(t, n);
                HalfEdgeID::lemma_index_injective(t, p);
                HalfEdgeID::lemma_index_injective(t, m.twin_of(Some(n))->0);
                HalfEdgeID::lemma_index_injective(t, m.twin_of(Some(p))->0);
                if m.face_of(Some(t)) is Some {
                    FaceID::lemma_index_injective(m.face_of(Some(t))->0, m.face_of(Some(h))->0);
                    HalfEdgeID::lemma_index_injective(tn, n);
                    HalfEdgeID::lemma_index_injective(tn, p);
                    HalfEdgeID::lemma_index_injective(tn, h);
                    HalfEdgeID::lemma_index_injective(tp, n);
                    HalfEdgeID::lemma_index_injective(tp, p);
                    HalfEdgeID::lemma_index_injective(tp, h);
                    HalfEdgeID::lemma_index_injective(tn, m.twin_of(Some(n))->0);
                    HalfEdgeID::lemma_index_injective(tn, m.twin_of(Some(p))->0);
                    HalfEdgeID::lemma_index_injective(tp, m.twin_of(Some(n))->0);
                    HalfEdgeID::lemma_index_injective(tp, m.twin_of(Some(p))->0);
                }
                m.lemma_triangle(n);
                m.lemma_triangle(p);
                m.lemma_halfedge_ok(n);
                m.lemma_halfedge_ok(p);
            }
            if m.face_of(Some(t)) is Some {
                m.lemma_triangle(t);
                m.lemma_triangle(tn);
                m.lemma_triangle(tp);
                m.lemma_halfedge_ok(tn);
                m.lemma_halfedge_ok(tp);
            }
        }

        // Remove first face + halfedges
        let mut he_id1 = Some(twin_id);
        let twin_walker = self.walker_from_halfedge(twin_id);
        proof { twin_walker.lemma_reads(self); }
        if twin_walker.face_id().is_some() {
            let previous_twin = twin_walker.into_previous().twin_id();
            self.set_vertex_halfedge(surviving_vertex_id, previous_twin);
        } else {
            self.drop_halfedge(twin_id);
            he_id1 = None;
        }
        let ghost m2 = *self;
        let ghost mut m3 = *self;
        proof { self.lemma_wf(); }

        // Remove second face + halfedges
        let walker = self.walker_from_halfedge(halfedge_id);
        proof { walker.lemma_reads(self); }
        if walker.face_id().is_some() {
            let previous_twin = walker.into_previous().twin_id();
            self.set_vertex_halfedge(surviving_vertex_id, previous_twin);
            proof {
                m3 = *self;
                self.lemma_wf();
                assert(self.one_face_removable(halfedge_id));
            }
            self.remove_one_face(halfedge_id);
        } else {
            self.drop_halfedge(halfedge_id);
        }
        let ghost m4 = *self;
        proof { self.lemma_wf(); }

        if let Some(he_id_to_remove) = he_id1 {
            proof {
                let x = he_id_to_remove;
                assert(self.he_live(x));
                assert(self.face_of(Some(x)) matches Some(f) && self.fc_live(f));
                assert(self.next_of(Some(x)) == Some(tn));
                assert(self.next_of(Some(tn)) == Some(tp));
                assert(self.he_live(tn) && self.he_live(tp));
                assert(self.twin_of(Some(tn)) == m.twin_of(Some(tn)));
                assert(self.twin_of(Some(tp)) == m.twin_of(Some(tp)));
                assert(self.he_live(m.twin_of(Some(tn))->0));
                assert(self.he_live(m.twin_of(Some(tp))->0));
                assert(self.twin_of(Some(x)) is None);
                assert(self.vertex_of(Some(tn)) matches Some(v) && self.vx_live(v));
                assert(self.one_face_removable(he_id_to_remove));
            }
            self.remove_one_face(he_id_to_remove);
        }
        let ghost m5 = *self;
        proof { self.lemma_wf(); }

        // Remove dying vertex
        proof { VertexID::lemma_index_injective(sv, dv); }
        self.drop_vertex(dying_vertex_id);
        self.move_vertex_to(surviving_vertex_id, position);
        proof {
            assert(m1.halfedges() == m.retargeted(m.one_ring(dv), sv));
            if m.face_of(Some(t)) is Some {
                assert(m2.is_vertex_halfedge_set_of(m1, sv, m1.twin_of(m1.previous_of(Some(t)))));
            } else {
                assert(m2.is_halfedge_dropped_of(m1, t));
            }
            if m.face_of(Some(h)) is Some {
                assert(m3.is_vertex_halfedge_set_of(m2, sv, m2.twin_of(m2.previous_of(Some(h)))));
                assert(m4.is_one_face_removed_of(m3, h));
            } else {
                assert(m3.same_maps(m2));
                assert(m4.is_halfedge_dropped_of(m3, h));
            }
            if m.face_of(Some(t)) is Some {
                assert(m5.is_one_face_removed_of(m4, t));
            } else {
                assert(m5.same_maps(m4));
            }
            assert(self.vertices() == m5.vertices().remove(dv.index()).insert(sv.index(), Vertex { position, ..m5.vertices()[sv.index()] }));
            assert(self.collapse_steps(m, m1, m2, m3, m4, m5, h, position));
            self.lemma_wf();
            if m.collapse_keeps_shape(h) {
                Self::lemma_collapse_shape(m, m1, m2, m3, m4, m5, *self, h, position);
                Self::lemma_collapse_keeps_valid(m, *self, h, position);
            }
        }
        surviving_vertex_id
    }
}

impl<T: Copy> Mesh<T> {
    /// The half-edges that `split_vertex` moves to the new vertex: `x`, then the twin of the next half-edge, as
    /// long as there is one, at most `fuel` of them.
    pub open spec fn incoming_walk(&self, x: HalfEdgeID, fuel: nat) -> Seq<HalfEdgeID>
        decreases fuel,
    {
        if fuel == 0 {
            Seq::empty()
        } else {
            seq![x] + match self.twin_of(self.next_of(Some(x))) {
                Some(y) => self.incoming_walk(y, (fuel - 1) as nat),
                None => Seq::empty(),
            }
        }
    }

    /// The half-edges of the mesh, where those of `walk` point to `v`.
    pub open spec fn moved_to(&self, walk: Seq<HalfEdgeID>, v: VertexID) -> Map<u32, HalfEdge> {
        let he = self.halfedges();
        Map::new(
            |k: u32| he.dom().contains(k),
            |k: u32| if exists|j: int| 0 <= j < walk.len() && (#[trigger] walk[j]).index() == k {
                HalfEdge { vertex: Some(v), ..he[k] }
            } else {
                he[k]
            },
        )
    }

    /// `map` with a new boundary half-edge `z`, pointing to `v`, as twin of `h`.
    pub open spec fn with_new_twin(map: Map<u32, HalfEdge>, h: HalfEdgeID, z: HalfEdgeID, v: VertexID) -> Map<u32, HalfEdge> {
        map.insert(z.index(), HalfEdge { vertex: Some(v), twin: Some(h), next: None, face: None })
            .insert(h.index(), HalfEdge { twin: Some(z), ..map[h.index()] })
    }

    /// `self` is `m` after `split_vertex` along `start` and `end`: the edges of `start` and `end` are cut open,
    /// the half-edges from `start` around the vertex until the cut move to a new vertex at the same position, and
    /// each of the four half-edges of the two cut edges gets a new boundary twin.
    pub open spec fn is_vertex_split_of(&self, m: Mesh<T>, start: HalfEdgeID, end: HalfEdgeID) -> bool {
        let rs = m.twin_of(Some(start))->0;
        let re = m.twin_of(Some(end))->0;
        let old = m.vertex_of(Some(start))->0;
        let nv = m.nth_vertex_id(0);
        exists|mc: Mesh<T>| {
            &&& mc.wf()
            &&& mc.vertices() == m.vertices().insert(nv.index(), Vertex { halfedge: Some(re), position: m.vertices()[old.index()].position })
            &&& #[trigger] mc.halfedges() == m.split_cut_halfedges(start, end)
            &&& self.halfedges() == Self::with_new_twin(Self::with_new_twin(Self::with_new_twin(Self::with_new_twin(
                    mc.moved_to(mc.incoming_walk(start, m.walk_bound()), nv),
                    start, m.nth_halfedge_id(0), m.vertex_of(Some(rs))->0),
                    rs, m.nth_halfedge_id(1), old),
                    end, m.nth_halfedge_id(2), m.vertex_of(Some(re))->0),
                    re, m.nth_halfedge_id(3), nv)
            &&& self.vertices() == mc.vertices()
            &&& self.faces() == m.faces()
        }
    }

    /// `self` is `m` with its edges at `start` and `end` cut open and a new vertex, at the position of the vertex
    /// that `start` points to, that names the twin of `end`.
    pub open spec fn is_cut_for_split_of(&self, m: Mesh<T>, start: HalfEdgeID, end: HalfEdgeID) -> bool {
        let rs = m.twin_of(Some(start))->0;
        let re = m.twin_of(Some(end))->0;
        let old = m.vertex_of(Some(start))->0;
        let nv = m.nth_vertex_id(0);
        &&& self.vertices() == m.vertices().insert(nv.index(), Vertex { halfedge: Some(re), position: m.vertices()[old.index()].position })
        &&& self.halfedges() == m.split_cut_halfedges(start, end)
        &&& self.faces() == m.faces()
    }

    /// The half-edges of the mesh with the edges of `start` and `end` cut open: the four half-edges of the two
    /// edges name no twin.
    pub open spec fn split_cut_halfedges(&self, start: HalfEdgeID, end: HalfEdgeID) -> Map<u32, HalfEdge> {
        let rs = self.twin_of(Some(start))->0;
        let re = self.twin_of(Some(end))->0;
        let he = self.halfedges();
        he.insert(start.index(), HalfEdge { twin: None, ..he[start.index()] })
            .insert(rs.index(), HalfEdge { twin: None, ..he[rs.index()] })
            .insert(end.index(), HalfEdge { twin: None, ..he[end.index()] })
            .insert(re.index(), HalfEdge { twin: None, ..he[re.index()] })
    }

    /// Cuts the edges at `start` and `end` open, creates the new vertex and moves the half-edges from `start`
    /// around the vertex to it.
    fn split_vertex_unfinished(&mut self, start: HalfEdgeID, end: HalfEdgeID) -> (newvert: VertexID)
        requires
            old(self).valid(),
            old(self).he_live(start),
            old(self).he_live(end),
            old(self).vertex_of(Some(start)) == old(self).vertex_of(Some(end)),
            old(self).room().0 >= 1,
        ensures
            newvert == old(self).nth_vertex_id(0),
            final(self).wf(),
            exists|mc: Mesh<T>| {
                &&& mc.wf()
                &&& #[trigger] mc.is_cut_for_split_of(*old(self), start, end)
                &&& final(self).halfedges() == mc.moved_to(mc.incoming_walk(start, old(self).walk_bound()), newvert)
                &&& final(self).vertices() == mc.vertices()
                &&& final(self).faces() == mc.faces()
            },
            forall|n: nat| #[trigger] final(self).nth_halfedge_id(n) == old(self).nth_halfedge_id(n),
            final(self).room().1 == old(self).room().1,
    {
        let ghost m = *self;
        proof {
            self.lemma_valid_wf();
            self.lemma_wf();
            self.lemma_nth_ids();
            self.lemma_halfedge_ok(start);
            self.lemma_halfedge_ok(end);
            self.lemma_halfedge_ok(self.twin_of(Some(start))->0);
            self.lemma_halfedge_ok(self.twin_of(Some(end))->0);
        }
        let bound = self.halfedge_slot_count() as u64 + 1;
        proof { self.lemma_he_slots_bound(); }
        let old_vertex = self.vertex_of_halfedge(start).unwrap();
        let position = self.vertex_position(old_vertex);
        let newvert = self.create_vertex(position);
        let rend = self.walker_from_halfedge(end).into_twin().halfedge_id();
        proof { self.lemma_wf(); }
        self.set_vertex_halfedge(newvert, rend);
        let rstart = self.walker_from_halfedge(start).into_twin().halfedge_id().unwrap();
        // cut at start and at end
        self.clear_twin(start);
        self.clear_twin(rstart);
        self.clear_twin(end);
        proof { self.lemma_wf(); }
        self.clear_twin(rend.unwrap());
        let ghost mc = *self;
        proof {
            let he = m.halfedges();
            let (rs, re) = (rstart, rend.unwrap());
            assert(self.halfedges() =~= he
                .insert(start.index(), HalfEdge { twin: None, ..he[start.index()] })
                .insert(rs.index(), HalfEdge { twin: None, ..he[rs.index()] })
                .insert(end.index(), HalfEdge { twin: None, ..he[end.index()] })
                .insert(re.index(), HalfEdge { twin: None, ..he[re.index()] }));
            assert(self.vertices() =~= m.vertices().insert(newvert.index(), Vertex { halfedge: Some(re), position: m.vertices()[old_vertex.index()].position }));
            assert(self.is_cut_for_split_of(m, start, end));
            self.lemma_wf();
            m.lemma_wf();
            // Next half-edges are those of `m`, twins those of `m` or none.
            assert forall|x: HalfEdgeID| #[trigger] self.he_live(x) implies self.he(x)->0.next == m.he(x)->0.next
                && self.he(x)->0.face == m.he(x)->0.face
                && (self.he(x)->0.twin == m.he(x)->0.twin || self.he(x)->0.twin is None) by {
            }
        }
        // change refs to old vertex between these two halfedges
        let mut cur: Option<HalfEdgeID> = Some(start);
        let mut remaining: u64 = bound;
        let ghost mut done: Seq<HalfEdgeID> = Seq::empty();
        while remaining > 0
            invariant
                m.valid(),
                mc.wf(),
                self.wf(),
                bound == m.walk_bound(),
                remaining <= bound,
                forall|x: HalfEdgeID| #[trigger] mc.he_live(x) ==> mc.he(x)->0.next == m.he(x)->0.next
                    && (mc.he(x)->0.twin == m.he(x)->0.twin || mc.he(x)->0.twin is None),
                forall|x: HalfEdgeID| #[trigger] self.he_live(x) <==> mc.he_live(x),
                forall|x: HalfEdgeID| #[trigger] m.he_live(x) <==> mc.he_live(x),
                forall|x: HalfEdgeID| mc.he_live(x) ==> #[trigger] self.he(x) == Some(HalfEdge { vertex: self.he(x)->0.vertex, ..mc.he(x)->0 }),
                cur matches Some(c) ==> mc.he_live(c) && done + mc.incoming_walk(c, remaining as nat) == mc.incoming_walk(start, bound as nat),
                cur is None ==> done == mc.incoming_walk(start, bound as nat),
                remaining == 0 ==> done == mc.incoming_walk(start, bound as nat),
                self.halfedges() == mc.moved_to(done, newvert),
                self.vertices() == mc.vertices(),
                self.faces() == mc.faces(),
                forall|n: nat| #[trigger] self.nth_halfedge_id(n) == mc.nth_halfedge_id(n),
                self.room().1 == mc.room().1,
            ensures
                self.halfedges() == mc.moved_to(mc.incoming_walk(start, bound as nat), newvert),
            decreases remaining,
        {
            let he = match cur {
                Some(h) => h,
                None => {
                    break;
                },
            };
            let ghost before = self.halfedges();
            proof {
                m.lemma_valid_wf();
                m.lemma_wf();
                m.lemma_halfedge_ok(he);
                if let Some(n) = m.next_of(Some(he)) {
                    m.lemma_halfedge_ok(n);
                }
            }
            let ghost pre = *self;
            self.set_vertex(he, newvert);
            let walker = self.walker_from_halfedge(he);
            proof {
                self.lemma_same_ids(&pre);
                walker.lemma_reads(self);
                self.lemma_wf();
                mc.lemma_wf();
                assert(self.next_of(Some(he)) == mc.next_of(Some(he)));
                if let Some(n) = mc.next_of(Some(he)) {
                    assert(mc.he_live(n));
                    assert(self.twin_of(Some(n)) == mc.twin_of(Some(n)));
                }
            }
            let walker = walker.into_next().into_twin();
            let next_cur = walker.halfedge_id();
            proof {
                walker.lemma_reads(self);
                let w = mc.incoming_walk(he, remaining as nat);
                assert(w == seq![he] + match mc.twin_of(mc.next_of(Some(he))) {
                    Some(y) => mc.incoming_walk(y, (remaining - 1) as nat),
                    None => Seq::<HalfEdgeID>::empty(),
                });
                assert(next_cur == mc.twin_of(mc.next_of(Some(he))));
                let done2 = done.push(he);
                assert forall|k: u32| #[trigger] self.halfedges().dom().contains(k) implies self.halfedges()[k] == mc.moved_to(done2, newvert)[k] by {
                    if k == he.index() {
                        assert(done2[done.len() as int] == he);
                    } else {
                        if exists|j: int| 0 <= j < done2.len() && (#[trigger] done2[j]).index() == k {
                            let j = choose|j: int| 0 <= j < done2.len() && (#[trigger] done2[j]).index() == k;
                            assert(done[j] == done2[j]);
                        }
                        if exists|j: int| 0 <= j < done.len() && (#[trigger] done[j]).index() == k {
                            let j = choose|j: int| 0 <= j < done.len() && (#[trigger] done[j]).index() == k;
                            assert(done[j] == done2[j]);
                        }
                    }
                }
                assert(self.halfedges() =~= mc.moved_to(done2, newvert));
                if let Some(y) = next_cur {
                    assert(done2 + mc.incoming_walk(y, (remaining - 1) as nat) =~= done + w);
                } else {
                    assert(done2 =~= done + w);
                }
                done = done2;
            }
            cur = next_cur;
            remaining = remaining - 1;
        }
        proof {
            assert(mc.is_cut_for_split_of(m, start, end));
        }
        newvert
    }

    /// Split a vertex in two vertices, along the edges `start` and `end`, returning the created vertex.
    /// - `start` and `end` must point to the same vertex.
    /// - the two vertices remain at the same position.
    /// - the created vertex becomes the vertex pointed to by `start`.
    ///
    /// The half-edges from `start` around the vertex, each the twin of the next half-edge of the one before, move
    /// to the created vertex until the walk reaches the cut at `end`; the walk also ends where the mesh ends or
    /// after [Mesh::walk_bound] steps. A valid mesh stays valid where the walk reaches the cut at `end` and the
    /// half-edge that the vertex names does not start between the two cuts ([Mesh::split_keeps_shape]).
    /// ```text
    ///        +                           +
    ///        |                          / \
    ///  ------+-------     -->      ----+   +----
    ///        |                          \ /
    ///        +                           +
    /// ```
    pub fn split_vertex(&mut self, start: HalfEdgeID, end: HalfEdgeID) -> (created: VertexID)
        requires
            old(self).valid(),
            old(self).he_live(start),
            old(self).he_live(end),
            start != end,
            old(self).vertex_of(Some(start)) == old(self).vertex_of(Some(end)),
            old(self).room().0 >= 1,
            old(self).room().1 >= 4,
        ensures
            created == old(self).nth_vertex_id(0),
            final(self).wf(),
            final(self).is_vertex_split_of(*old(self), start, end),
            old(self).split_keeps_shape(start, end) ==> final(self).valid(),
    {
        let ghost m = *self;
        proof {
            self.lemma_valid_wf();
            self.lemma_wf();
            self.lemma_nth_ids();
            self.lemma_halfedge_ok(start);
            self.lemma_halfedge_ok(end);
        }
        // get start vertex of `start` and `end` and their twin
        let walker = self.walker_from_halfedge(start).into_twin();
        proof { walker.lemma_reads(self); self.lemma_halfedge_ok(self.twin_of(Some(start))->0); }
        let vstart = walker.vertex_id().unwrap();
        let rstart = walker.halfedge_id().unwrap();
        let walker = self.walker_from_halfedge(end).into_twin();
        proof { walker.lemma_reads(self); self.lemma_halfedge_ok(self.twin_of(Some(end))->0); }
        let vend = walker.vertex_id().unwrap();
        let rend = walker.halfedge_id().unwrap();
        // split vertex
        let old = self.vertex_of_halfedge(start).unwrap();
        let created = self.split_vertex_unfinished(start, end);
        let ghost mw = *self;

        proof {
            mw.lemma_wf();
            mw.lemma_nth_ids();
            assert(mw.he_live(start) && mw.he_live(rstart) && mw.he_live(end) && mw.he_live(rend));
        }
        // create twins for the separated halfedges
        let z1 = self.new_halfedge(Some(vstart), None, None);
        let ghost map0 = mw.halfedges();
        let ghost t1 = *self;
        self.set_twins(start, z1);
        proof {
            HalfEdgeID::lemma_index_injective(start, z1);
            assert(self.halfedges() =~= Self::with_new_twin(map0, start, z1, vstart));
        }
        let ghost map1 = self.halfedges();
        proof { self.lemma_same_ids(&t1); }
        let z2 = self.new_halfedge(Some(old), None, None);
        let ghost t2 = *self;
        self.set_twins(rstart, z2);
        proof {
            HalfEdgeID::lemma_index_injective(rstart, z2);
            assert(self.halfedges() =~= Self::with_new_twin(map1, rstart, z2, old));
        }
        let ghost map2 = self.halfedges();
        proof { self.lemma_same_ids(&t2); }
        let z3 = self.new_halfedge(Some(vend), None, None);
        let ghost t3 = *self;
        self.set_twins(end, z3);
        proof {
            HalfEdgeID::lemma_index_injective(end, z3);
            assert(self.halfedges() =~= Self::with_new_twin(map2, end, z3, vend));
        }
        let ghost map3 = self.halfedges();
        proof { self.lemma_same_ids(&t3); }
        let z4 = self.new_halfedge(Some(created), None, None);
        self.set_twins(rend, z4);
        proof {
            HalfEdgeID::lemma_index_injective(rend, z4);
            assert(self.halfedges() =~= Self::with_new_twin(map3, rend, z4, created));
            let mc = choose|mc: Mesh<T>| {
                &&& mc.wf()
                &&& #[trigger] mc.is_cut_for_split_of(m, start, end)
                &&& mw.halfedges() == mc.moved_to(mc.incoming_walk(start, m.walk_bound()), created)
                &&& mw.vertices() == mc.vertices()
                &&& mw.faces() == mc.faces()
            };
            assert(z1 == m.nth_halfedge_id(0));
            assert(z2 == m.nth_halfedge_id(1));
            assert(z3 == m.nth_halfedge_id(2));
            assert(z4 == m.nth_halfedge_id(3));
            assert(self.vertices() == mc.vertices());
            assert(self.is_vertex_split_of(m, start, end));
            self.lemma_wf();
            if m.split_keeps_shape(start, end) {
                Self::lemma_vertex_split_keeps_valid(m, *self, start, end);
            }
        }
        created
    }
}

/// The names of the half-edges, faces and vertices around an edge that `flip_edge` reads.
pub struct FlipNames {
    pub f: FaceID,
    pub tf: FaceID,
    pub h: HalfEdgeID,
    pub n: HalfEdgeID,
    pub p: HalfEdgeID,
    pub t: HalfEdgeID,
    pub tn: HalfEdgeID,
    pub tp: HalfEdgeID,
    pub v0: VertexID,
    pub v1: VertexID,
    pub v2: VertexID,
    pub v3: VertexID,
}

impl<T: Copy> Mesh<T> {
    /// The names around the edge of `h`.
    pub open spec fn flip_names(&self, h: HalfEdgeID) -> FlipNames {
        let t = self.twin_of(Some(h))->0;
        let n = self.next_of(Some(h))->0;
        let tn = self.next_of(Some(t))->0;
        FlipNames {
            f: self.face_of(Some(h))->0,
            tf: self.face_of(Some(t))->0,
            h,
            n,
            p: self.previous_of(Some(h))->0,
            t,
            tn,
            tp: self.previous_of(Some(t))->0,
            v0: self.vertex_of(Some(h))->0,
            v1: self.vertex_of(Some(t))->0,
            v2: self.vertex_of(Some(tn))->0,
            v3: self.vertex_of(Some(n))->0,
        }
    }

    /// `m2` is `self` with the edge of `h` flipped.
    #[verifier::opaque]
    pub open spec fn is_flip_of(&self, m: Mesh<T>, h: HalfEdgeID) -> bool {
        let x = m.flip_names(h);
        &&& self.halfedges() == m.halfedges()
            .insert(x.h.index(), HalfEdge { vertex: Some(x.v3), next: Some(x.p), ..m.halfedges()[x.h.index()] })
            .insert(x.n.index(), HalfEdge { next: Some(x.t), face: Some(x.tf), ..m.halfedges()[x.n.index()] })
            .insert(x.p.index(), HalfEdge { next: Some(x.tn), ..m.halfedges()[x.p.index()] })
            .insert(x.t.index(), HalfEdge { vertex: Some(x.v2), next: Some(x.tp), ..m.halfedges()[x.t.index()] })
            .insert(x.tn.index(), HalfEdge { next: Some(x.h), face: Some(x.f), ..m.halfedges()[x.tn.index()] })
            .insert(x.tp.index(), HalfEdge { next: Some(x.n), ..m.halfedges()[x.tp.index()] })
        &&& self.faces() == m.faces()
            .insert(x.f.index(), Face { halfedge: Some(x.p) })
            .insert(x.tf.index(), Face { halfedge: Some(x.tp) })
        &&& self.vertices() == m.vertices()
            .insert(x.v0.index(), Vertex { halfedge: Some(x.n), ..m.vertices()[x.v0.index()] })
            .insert(x.v1.index(), Vertex { halfedge: Some(x.tn), ..m.vertices()[x.v1.index()] })
    }

    /// Whether the half-edge is one of the six around the flipped edge.
    pub open spec fn in_flip(x: FlipNames, y: HalfEdgeID) -> bool {
        y == x.h || y == x.n || y == x.p || y == x.t || y == x.tn || y == x.tp
    }

    /// What a flip of an interior edge does, half-edge by half-edge.
    proof fn lemma_flip_setup(m: Mesh<T>, m2: Mesh<T>, h: HalfEdgeID)
        requires
            m.valid(),
            m.he_live(h),
            m.face_of(Some(h)) is Some,
            m.face_of(m.twin_of(Some(h))) is Some,
            m.flip_names(h).v2 != m.flip_names(h).v3,
            m2.wf(),
            m2.is_flip_of(m, h),
        ensures
            ({
                let x = m.flip_names(h);
                &&& m.wf()
                &&& x.f != x.tf
                &&& x.v0 != x.v1 && x.v0 != x.v3 && x.v3 != x.v1 && x.v1 != x.v2 && x.v2 != x.v0 && x.v2 != x.v3
                &&& x.h != x.n && x.h != x.p && x.h != x.t && x.h != x.tn && x.h != x.tp
                &&& x.n != x.p && x.n != x.t && x.n != x.tn && x.n != x.tp
                &&& x.p != x.t && x.p != x.tn && x.p != x.tp
                &&& x.t != x.tn && x.t != x.tp && x.tn != x.tp
                &&& m.he_live(x.h) && m.he_live(x.n) && m.he_live(x.p) && m.he_live(x.t) && m.he_live(x.tn) && m.he_live(x.tp)
                &&& m.fc_live(x.f) && m.fc_live(x.tf)
                &&& m.vx_live(x.v0) && m.vx_live(x.v1) && m.vx_live(x.v2) && m.vx_live(x.v3)
                &&& m.he(x.h) == Some(HalfEdge { vertex: Some(x.v0), twin: Some(x.t), next: Some(x.n), face: Some(x.f) })
                &&& m.he(x.n)->0.vertex == Some(x.v3) && m.he(x.n)->0.next == Some(x.p) && m.he(x.n)->0.face == Some(x.f)
                &&& m.he(x.p)->0.vertex == Some(x.v1) && m.he(x.p)->0.next == Some(x.h) && m.he(x.p)->0.face == Some(x.f)
                &&& m.he(x.t) == Some(HalfEdge { vertex: Some(x.v1), twin: Some(x.h), next: Some(x.tn), face: Some(x.tf) })
                &&& m.he(x.tn)->0.vertex == Some(x.v2) && m.he(x.tn)->0.next == Some(x.tp) && m.he(x.tn)->0.face == Some(x.tf)
                &&& m.he(x.tp)->0.vertex == Some(x.v0) && m.he(x.tp)->0.next == Some(x.t) && m.he(x.tp)->0.face == Some(x.tf)
                &&& m.vertex_of(m.twin_of(Some(x.n))) == Some(x.v0)
                &&& m.vertex_of(m.twin_of(Some(x.p))) == Some(x.v3)
                &&& m.vertex_of(m.twin_of(Some(x.tn))) == Some(x.v1)
                &&& m.vertex_of(m.twin_of(Some(x.tp))) == Some(x.v2)
                &&& !Self::in_flip(x, m.twin_of(Some(x.n))->0)
                &&& !Self::in_flip(x, m.twin_of(Some(x.p))->0)
                &&& !Self::in_flip(x, m.twin_of(Some(x.tn))->0)
                &&& !Self::in_flip(x, m.twin_of(Some(x.tp))->0)
                &&& m2.he(x.h) == Some(HalfEdge { vertex: Some(x.v3), twin: Some(x.t), next: Some(x.p), face: Some(x.f) })
                &&& m2.he(x.n) == Some(HalfEdge { vertex: Some(x.v3), next: Some(x.t), face: Some(x.tf), ..m.he(x.n)->0 })
                &&& m2.he(x.p) == Some(HalfEdge { vertex: Some(x.v1), next: Some(x.tn), face: Some(x.f), ..m.he(x.p)->0 })
                &&& m2.he(x.t) == Some(HalfEdge { vertex: Some(x.v2), twin: Some(x.h), next: Some(x.tp), face: Some(x.tf) })
                &&& m2.he(x.tn) == Some(HalfEdge { vertex: Some(x.v2), next: Some(x.h), face: Some(x.f), ..m.he(x.tn)->0 })
                &&& m2.he(x.tp) == Some(HalfEdge { vertex: Some(x.v0), next: Some(x.n), face: Some(x.tf), ..m.he(x.tp)->0 })
                &&& forall|y: HalfEdgeID| m.he_live(y) && !Self::in_flip(x, y) ==> #[trigger] m2.he(y) == m.he(y)
                &&& forall|y: HalfEdgeID| #[trigger] m2.he_live(y) == m.he_live(y)
                &&& forall|y: VertexID| #[trigger] m2.vx_live(y) == m.vx_live(y)
                &&& forall|y: FaceID| #[trigger] m2.fc_live(y) == m.fc_live(y)
                &&& forall|y: VertexID| m.vx_live(y) && y != x.v0 && y != x.v1 ==> #[trigger] m2.vx(y) == m.vx(y)
                &&& m2.vertex_halfedge_of(x.v0) == Some(x.n) && m2.vertex_halfedge_of(x.v1) == Some(x.tn)
                &&& forall|g: FaceID| m.fc_live(g) && g != x.f && g != x.tf ==> #[trigger] m2.fc(g) == m.fc(g)
                &&& m2.face_halfedge_of(x.f) == Some(x.p) && m2.face_halfedge_of(x.tf) == Some(x.tp)
                &&& forall|z: HalfEdgeID| m.he_live(z) ==> #[trigger] m2.twin_of(Some(z)) == m.twin_of(Some(z))
                &&& forall|z: HalfEdgeID| m.he_live(z) && z != x.h && z != x.t ==> #[trigger] m2.vertex_of(Some(z)) == m.vertex_of(Some(z))
                &&& forall|z: HalfEdgeID| m.he_live(z) && m.face_of(Some(z)) != Some(x.f) && m.face_of(Some(z)) != Some(x.tf)
                    ==> #[trigger] m2.he(z) == m.he(z)
            }),
    {
        reveal(Mesh::is_flip_of);
        m.lemma_valid_wf();
        m.lemma_wf();
        m2.lemma_wf();
        let x = m.flip_names(h);
        m.lemma_triangle(h);
        m.lemma_triangle(x.t);
        m.lemma_halfedge_ok(h);
        m.lemma_halfedge_ok(x.n);
        m.lemma_halfedge_ok(x.p);
        m.lemma_halfedge_ok(x.t);
        m.lemma_halfedge_ok(x.tn);
        m.lemma_halfedge_ok(x.tp);
        assert(m.face_of(Some(x.tn)) == Some(x.tf) && m.face_of(Some(x.tp)) == Some(x.tf));
        assert(m.vertex_of(Some(x.p)) == Some(x.v1));
        assert(m.vertex_of(Some(x.tp)) == Some(x.v0));
        assert forall|y: HalfEdgeID| #[trigger] m2.he_live(y) == m.he_live(y) by {}
        assert forall|y: VertexID| #[trigger] m2.vx_live(y) == m.vx_live(y) by {}
        assert forall|y: FaceID| #[trigger] m2.fc_live(y) == m.fc_live(y) by {}
        assert forall|y: HalfEdgeID| m.he_live(y) && !Self::in_flip(x, y) implies #[trigger] m2.he(y) == m.he(y) by {
            HalfEdgeID::lemma_index_injective(y, x.h);
            HalfEdgeID::lemma_index_injective(y, x.n);
            HalfEdgeID::lemma_index_injective(y, x.p);
            HalfEdgeID::lemma_index_injective(y, x.t);
            HalfEdgeID::lemma_index_injective(y, x.tn);
            HalfEdgeID::lemma_index_injective(y, x.tp);
        }
        assert forall|z: HalfEdgeID| m.he_live(z) implies #[trigger] m2.twin_of(Some(z)) == m.twin_of(Some(z)) by {
            if !Self::in_flip(x, z) {
                assert(m2.he(z) == m.he(z));
            }
        }
        assert forall|z: HalfEdgeID| m.he_live(z) && z != x.h && z != x.t implies #[trigger] m2.vertex_of(Some(z)) == m.vertex_of(Some(z)) by {
            if !Self::in_flip(x, z) {
                assert(m2.he(z) == m.he(z));
            }
        }
        assert forall|z: HalfEdgeID| m.he_live(z) && m.face_of(Some(z)) != Some(x.f) && m.face_of(Some(z)) != Some(x.tf)
            implies #[trigger] m2.he(z) == m.he(z) by {
            assert(!Self::in_flip(x, z));
        }
        assert forall|y: VertexID| m.vx_live(y) && y != x.v0 && y != x.v1 implies #[trigger] m2.vx(y) == m.vx(y) by {
            VertexID::lemma_index_injective(y, x.v0);
            VertexID::lemma_index_injective(y, x.v1);
        }
        assert forall|g: FaceID| m.fc_live(g) && g != x.f && g != x.tf implies #[trigger] m2.fc(g) == m.fc(g) by {
            FaceID::lemma_index_injective(g, x.f);
            FaceID::lemma_index_injective(g, x.tf);
        }
        HalfEdgeID::lemma_index_injective(x.h, x.n);
        HalfEdgeID::lemma_index_injective(x.h, x.p);
        HalfEdgeID::lemma_index_injective(x.h, x.t);
        HalfEdgeID::lemma_index_injective(x.h, x.tn);
        HalfEdgeID::lemma_index_injective(x.h, x.tp);
        HalfEdgeID::lemma_index_injective(x.n, x.p);
        HalfEdgeID::lemma_index_injective(x.n, x.t);
        HalfEdgeID::lemma_index_injective(x.n, x.tn);
        HalfEdgeID::lemma_index_injective(x.n, x.tp);
        HalfEdgeID::lemma_index_injective(x.p, x.t);
        HalfEdgeID::lemma_index_injective(x.p, x.tn);
        HalfEdgeID::lemma_index_injective(x.p, x.tp);
        HalfEdgeID::lemma_index_injective(x.t, x.tn);
        HalfEdgeID::lemma_index_injective(x.t, x.tp);
        HalfEdgeID::lemma_index_injective(x.tn, x.tp);
        VertexID::lemma_index_injective(x.v0, x.v1);
        FaceID::lemma_index_injective(x.f, x.tf);
    }

    /// After the flip, a half-edge outside the six around the edge is as `halfedge_ok` says.
    #[verifier::rlimit(40)]
    proof fn lemma_flip_other_ok(m: Mesh<T>, m2: Mesh<T>, h: HalfEdgeID, y: HalfEdgeID)
        requires
            m.valid(),
            m.he_live(h),
            m.face_of(Some(h)) is Some,
            m.face_of(m.twin_of(Some(h))) is Some,
            m.flip_names(h).v2 != m.flip_names(h).v3,
            m2.wf(),
            m2.is_flip_of(m, h),
            m.he_live(y),
            !Self::in_flip(m.flip_names(h), y),
        ensures
            m2.halfedge_ok(y),
    {
        Self::lemma_flip_setup(m, m2, h);
        let x = m.flip_names(h);
        m.lemma_halfedge_ok(y);
        let e = m.he(y)->0;
        let ty = e.twin->0;
        m.lemma_halfedge_ok(ty);
        assert(ty != x.h && ty != x.t);
        if e.next is Some {
            m.lemma_triangle(y);
            if e.face == Some(x.f) {
                m.lemma_face_members(h, y);
            }
            if e.face == Some(x.tf) {
                m.lemma_triangle(x.t);
                m.lemma_face_members(x.t, y);
            }
            let ny = e.next->0;
            let nny = m.next_of(Some(ny))->0;
            m.lemma_halfedge_ok(ny);
            let tny = m.twin_of(Some(ny))->0;
            assert(tny != x.h && tny != x.t);
            assert(m2.he(ny) == m.he(ny));
            assert(m2.he(nny) == m.he(nny));
        }
        assert(m2.he(y) == m.he(y));
    }

    /// After the flip, the six half-edges around the edge are as `halfedge_ok` says.
    proof fn lemma_flip_six_ok(m: Mesh<T>, m2: Mesh<T>, h: HalfEdgeID)
        requires
            m.valid(),
            m.he_live(h),
            m.face_of(Some(h)) is Some,
            m.face_of(m.twin_of(Some(h))) is Some,
            m.flip_names(h).v2 != m.flip_names(h).v3,
            m2.wf(),
            m2.is_flip_of(m, h),
        ensures
            ({
                let x = m.flip_names(h);
                &&& m2.halfedge_ok(x.h) && m2.halfedge_ok(x.n) && m2.halfedge_ok(x.p)
                &&& m2.halfedge_ok(x.t) && m2.halfedge_ok(x.tn) && m2.halfedge_ok(x.tp)
            }),
    {
        Self::lemma_flip_setup(m, m2, h);
        let x = m.flip_names(h);
        let twn = m.twin_of(Some(x.n))->0;
        let twp = m.twin_of(Some(x.p))->0;
        let twtn = m.twin_of(Some(x.tn))->0;
        let twtp = m.twin_of(Some(x.tp))->0;
        m.lemma_halfedge_ok(x.n);
        m.lemma_halfedge_ok(x.p);
        m.lemma_halfedge_ok(x.tn);
        m.lemma_halfedge_ok(x.tp);
        m.lemma_halfedge_ok(twn);
        m.lemma_halfedge_ok(twp);
        m.lemma_halfedge_ok(twtn);
        m.lemma_halfedge_ok(twtp);
        assert(m2.he(twn) == m.he(twn));
        assert(m2.he(twp) == m.he(twp));
        assert(m2.he(twtn) == m.he(twtn));
        assert(m2.he(twtp) == m.he(twtp));
    }

    /// After the flip, a half-edge with face `f` or `tf` is one of the six.
    proof fn lemma_flip_face_members(m: Mesh<T>, m2: Mesh<T>, h: HalfEdgeID, z: HalfEdgeID)
        requires
            m.valid(),
            m.he_live(h),
            m.face_of(Some(h)) is Some,
            m.face_of(m.twin_of(Some(h))) is Some,
            m.flip_names(h).v2 != m.flip_names(h).v3,
            m2.wf(),
            m2.is_flip_of(m, h),
            m.he_live(z),
        ensures
            ({
                let x = m.flip_names(h);
                &&& m2.face_of(Some(z)) == Some(x.f) ==> (z == x.h || z == x.p || z == x.tn)
                &&& m2.face_of(Some(z)) == Some(x.tf) ==> (z == x.t || z == x.tp || z == x.n)
                &&& (m2.face_of(Some(z)) != Some(x.f) && m2.face_of(Some(z)) != Some(x.tf)) ==> {
                    &&& !Self::in_flip(x, z)
                    &&& m2.he(z) == m.he(z)
                }
            }),
    {
        Self::lemma_flip_setup(m, m2, h);
        let x = m.flip_names(h);
        if !Self::in_flip(x, z) {
            if m.face_of(Some(z)) == Some(x.f) {
                m.lemma_face_members(h, z);
            }
            if m.face_of(Some(z)) == Some(x.tf) {
                m.lemma_triangle(x.t);
                m.lemma_face_members(x.t, z);
            }
            assert(m2.he(z) == m.he(z));
        }
    }

    /// After the flip, two half-edges with the same face lie on one triangle.
    proof fn lemma_flip_pair_ok(m: Mesh<T>, m2: Mesh<T>, h: HalfEdgeID, a: HalfEdgeID, b: HalfEdgeID)
        requires
            m.valid(),
            m.he_live(h),
            m.face_of(Some(h)) is Some,
            m.face_of(m.twin_of(Some(h))) is Some,
            m.flip_names(h).v2 != m.flip_names(h).v3,
            m2.wf(),
            m2.is_flip_of(m, h),
        ensures
            m2.same_face_pair_ok(a, b),
    {
        Self::lemma_flip_setup(m, m2, h);
        let x = m.flip_names(h);
        if m2.he_live(a) && m2.he_live(b) && m2.face_of(Some(a)) is Some && m2.face_of(Some(a)) == m2.face_of(Some(b)) {
            Self::lemma_flip_face_members(m, m2, h, a);
            Self::lemma_flip_face_members(m, m2, h, b);
            let fa = m2.face_of(Some(a));
            if fa != Some(x.f) && fa != Some(x.tf) {
                m.lemma_face_members(a, b);
                m.lemma_triangle(a);
                let na = m.next_of(Some(a))->0;
                Self::lemma_flip_face_members(m, m2, h, na);
                let pa = m.next_of(Some(na))->0;
                Self::lemma_flip_face_members(m, m2, h, pa);
            }
        }
    }

    /// After the flip, every vertex and face is as `vertex_ok` and `face_ok` say.
    proof fn lemma_flip_vertices_faces_ok(m: Mesh<T>, m2: Mesh<T>, h: HalfEdgeID)
        requires
            m.valid(),
            m.he_live(h),
            m.face_of(Some(h)) is Some,
            m.face_of(m.twin_of(Some(h))) is Some,
            m.flip_names(h).v2 != m.flip_names(h).v3,
            m2.wf(),
            m2.is_flip_of(m, h),
        ensures
            forall|v: VertexID| m2.vx_live(v) ==> #[trigger] m2.vertex_ok(v),
            forall|g: FaceID| m2.fc_live(g) ==> #[trigger] m2.face_ok(g),
    {
        Self::lemma_flip_setup(m, m2, h);
        let x = m.flip_names(h);
        m.lemma_halfedge_ok(x.n);
        m.lemma_halfedge_ok(x.tn);
        assert forall|v: VertexID| m2.vx_live(v) implies #[trigger] m2.vertex_ok(v) by {
            m.lemma_vertex_ok(v);
            if v != x.v0 && v != x.v1 {
                let g = m.vertex_halfedge_of(v)->0;
                m.lemma_halfedge_ok(g);
                let tg = m.twin_of(Some(g))->0;
                m.lemma_halfedge_ok(tg);
                assert(tg != x.h && tg != x.t);
            }
        }
        assert forall|g: FaceID| m2.fc_live(g) implies #[trigger] m2.face_ok(g) by {
            m.lemma_face_ok(g);
            if g != x.f && g != x.tf {
                let k = m.face_halfedge_of(g)->0;
                Self::lemma_flip_face_members(m, m2, h, k);
                if Self::in_flip(x, k) {
                    m.lemma_halfedge_ok(k);
                }
            }
        }
    }

    /// Flipping an interior edge of a valid mesh, between two faces whose opposite vertices differ, gives a valid mesh.
    proof fn lemma_flip_keeps_valid(m: Mesh<T>, m2: Mesh<T>, h: HalfEdgeID)
        requires
            m.valid(),
            m.he_live(h),
            m.face_of(Some(h)) is Some,
            m.face_of(m.twin_of(Some(h))) is Some,
            m.flip_names(h).v2 != m.flip_names(h).v3,
            m2.wf(),
            m2.is_flip_of(m, h),
        ensures
            m2.valid(),
    {
        Self::lemma_flip_halfedges_ok(m, m2, h);
        Self::lemma_flip_vertices_faces_ok(m, m2, h);
        assert forall|a: HalfEdgeID, b: HalfEdgeID| #[trigger] m2.same_face_pair_ok(a, b) by {
            Self::lemma_flip_pair_ok(m, m2, h, a, b);
        }
        reveal(Mesh::valid);
    }

    /// After the flip, every half-edge is as `halfedge_ok` says.
    proof fn lemma_flip_halfedges_ok(m: Mesh<T>, m2: Mesh<T>, h: HalfEdgeID)
        requires
            m.valid(),
            m.he_live(h),
            m.face_of(Some(h)) is Some,
            m.face_of(m.twin_of(Some(h))) is Some,
            m.flip_names(h).v2 != m.flip_names(h).v3,
            m2.wf(),
            m2.is_flip_of(m, h),
        ensures
            forall|y: HalfEdgeID| #[trigger] m2.he_live(y) ==> m2.halfedge_ok(y),
    {
        Self::lemma_flip_setup(m, m2, h);
        let x = m.flip_names(h);
        assert forall|y: HalfEdgeID| #[trigger] m2.he_live(y) implies m2.halfedge_ok(y) by {
            if !Self::in_flip(x, y) {
                Self::lemma_flip_other_ok(m, m2, h, y);
            } else {
                Self::lemma_flip_six_ok(m, m2, h);
            }
        }
    }
}

} // verus!