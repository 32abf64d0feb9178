//! Removal of faces, and of the edges and vertices that a removal leaves unconnected.
use vstd::prelude::*;
use crate::ids::{FaceID, HalfEdgeID, VertexID, ID};
use super::Mesh;
use super::connectivity_info::{Face, HalfEdge, Vertex};

verus! {

impl<T: Copy> Mesh<T> {
    /// `self` is `m` without the face `f`: its three half-edges stay, without face and next half-edge.
    pub open spec fn is_face_detached_of(&self, m: Mesh<T>, f: FaceID) -> bool {
        let h1 = m.face_halfedge_of(f)->0;
        let h2 = m.next_of(Some(h1))->0;
        let h3 = m.next_of(Some(h2))->0;
        let he = m.halfedges();
        &&& self.halfedges() == he
            .insert(h1.index(), HalfEdge { face: None, next: None, ..he[h1.index()] })
            .insert(h2.index(), HalfEdge { face: None, next: None, ..he[h2.index()] })
            .insert(h3.index(), HalfEdge { face: None, next: None, ..he[h3.index()] })
        &&& self.faces() == m.faces().remove(f.index())
        &&& self.vertices() == m.vertices()
    }

    /// Removes the face; its three half-edges stay in the mesh, on the boundary.
    pub fn remove_face_unsafe(&mut self, face_id: FaceID)
        requires
            old(self).valid(),
            old(self).fc_live(face_id),
        ensures
            final(self).valid(),
            final(self).is_face_detached_of(*old(self), face_id),
    {
        let ghost m = *self;
        proof {
            self.lemma_valid_wf();
            self.lemma_wf();
            self.lemma_face_ok(face_id);
            self.lemma_triangle(self.face_halfedge_of(face_id)->0);
        }
        self.detach_face(face_id);
        proof {
            Self::lemma_detach_keeps_valid(m, *self, face_id);
        }
    }

    /// The face is a triangle: it names a half-edge of the mesh, and three steps of `next` through distinct
    /// half-edges of the mesh come back to it.
    pub open spec fn face_is_triangle(&self, f: FaceID) -> bool {
        let h1 = self.face_halfedge_of(f);
        let h2 = self.next_of(h1);
        let h3 = self.next_of(h2);
        &&& self.fc_live(f)
        &&& h1 is Some && h2 is Some && h3 is Some
        &&& self.he_live(h1->0) && self.he_live(h2->0) && self.he_live(h3->0)
        &&& self.next_of(h3) == h1
        &&& h1 != h2 && h2 != h3 && h1 != h3
    }

    /// Removes the face, leaving its three half-edges without face and next half-edge.
    pub(crate) fn detach_face(&mut self, face_id: FaceID)
        requires
            old(self).wf(),
            old(self).face_is_triangle(face_id),
        ensures
            final(self).wf(),
            final(self).is_face_detached_of(*old(self), face_id),
    {
        let ghost m = *self;
        proof {
            self.lemma_wf();
        }
        let walker = self.walker_from_face(face_id);
        proof { walker.lemma_reads(self); }
        let he_id1 = walker.halfedge_id().unwrap();
        let walker = walker.into_next();
        proof { walker.lemma_reads(self); }
        let he_id2 = walker.halfedge_id().unwrap();
        let walker = walker.into_next();
        proof { walker.lemma_reads(self); }
        let he_id3 = walker.halfedge_id().unwrap();

        self.set_face(he_id1, None);
        self.set_face(he_id2, None);
        self.set_face(he_id3, None);

        self.set_next(he_id1, None);
        self.set_next(he_id2, None);
        self.set_next(he_id3, None);

        self.drop_face(face_id);
        proof {
            let he = m.halfedges();
            let (h1, h2, h3) = (he_id1, he_id2, he_id3);
            assert(self.halfedges() =~= he
                .insert(h1.index(), HalfEdge { face: None, next: None, ..he[h1.index()] })
                .insert(h2.index(), HalfEdge { face: None, next: None, ..he[h2.index()] })
                .insert(h3.index(), HalfEdge { face: None, next: None, ..he[h3.index()] }));
        }
    }

    /// Detaching a face from a valid mesh leaves it valid.
    pub proof fn lemma_detach_keeps_valid(m: Mesh<T>, m2: Mesh<T>, f: FaceID)
        requires
            m.valid(),
            m.fc_live(f),
            m2.wf(),
            m2.is_face_detached_of(m, f),
        ensures
            m2.valid(),
    {
        m.lemma_valid_wf();
        m.lemma_wf();
        m2.lemma_wf();
        m.lemma_face_ok(f);
        let h1 = m.face_halfedge_of(f)->0;
        m.lemma_triangle(h1);
        let h2 = m.next_of(Some(h1))->0;
        let h3 = m.next_of(Some(h2))->0;
        // Half-edges outside the face keep their entry; those of the face lose face and next.
        assert forall|x: HalfEdgeID| m.he_live(x) implies #[trigger] m2.he(x) == (if x == h1 || x == h2 || x == h3 {
            Some(HalfEdge { face: None, next: None, ..m.he(x)->0 })
        } else {
            m.he(x)
        }) by {
            HalfEdgeID::lemma_index_injective(x, h1);
            HalfEdgeID::lemma_index_injective(x, h2);
            HalfEdgeID::lemma_index_injective(x, h3);
            assert(m2.he_live(x));
        }
        // A half-edge with a face other than `f` lies outside the face.
        assert forall|x: HalfEdgeID| m.he_live(x) && m.face_of(Some(x)) is Some && m.face_of(Some(x)) != Some(f)
            implies !(x == h1 || x == h2 || x == h3) by {}
        assert forall|x: HalfEdgeID| m.he_live(x) && m.face_of(Some(x)) == Some(f)
            implies (x == h1 || x == h2 || x == h3) by {
            m.lemma_face_members(h1, x);
        }
        reveal(Mesh::valid);
        assert forall|x: HalfEdgeID, y: HalfEdgeID| #[trigger] m2.same_face_pair_ok(x, y) by {
            if m2.he_live(x) && m2.he_live(y) && m2.face_of(Some(x)) is Some && m2.face_of(Some(x)) == m2.face_of(Some(y)) {
                assert(m.same_face_pair_ok(x, y));
                if m.face_of(Some(x)) == Some(f) {
                    assert(false);
                }
                let nx = m.next_of(Some(x))->0;
                m.lemma_halfedge_ok(x);
                m.lemma_halfedge_ok(nx);
            }
        }
        assert forall|v: VertexID| m2.vx_live(v) implies #[trigger] m2.vertex_ok(v) by {
            assert(m.vertex_ok(v));
            let h = m.vertex_halfedge_of(v)->0;
            m.lemma_halfedge_ok(h);
        }
        assert forall|x: HalfEdgeID| m2.he_live(x) implies #[trigger] m2.halfedge_ok(x) by {
            m.lemma_halfedge_ok(x);
            let t = m.twin_of(Some(x))->0;
            m.lemma_halfedge_ok(t);
            if m.face_of(Some(x)) is Some && m.face_of(Some(x)) != Some(f) {
                let nx = m.next_of(Some(x))->0;
                m.lemma_halfedge_ok(nx);
                let nnx = m.next_of(Some(nx))->0;
                m.lemma_halfedge_ok(nnx);
                m.lemma_halfedge_ok(m.twin_of(Some(nx))->0);
                FaceID::lemma_index_injective(m.face_of(Some(x))->0, f);
            }
        }
        assert forall|g: FaceID| m2.fc_live(g) implies #[trigger] m2.face_ok(g) by {
            assert(m.face_ok(g));
            FaceID::lemma_index_injective(g, f);
            let h = m.face_halfedge_of(g)->0;
            m.lemma_halfedge_ok(h);
        }
    }

    /// `x` is the half-edge of the mesh with the smallest index among those that point to `v`.
    pub open spec fn is_first_pointing_to(&self, x: HalfEdgeID, v: VertexID) -> bool {
        &&& self.he_live(x)
        &&& self.vertex_of(Some(x)) == Some(v)
        &&& forall|y: HalfEdgeID| self.he_live(y) && self.vertex_of(Some(y)) == Some(v) ==> x.index() <= #[trigger] y.index()
    }

    /// The twin of the half-edge with the smallest index that points to `v`, or `None` if no half-edge does.
    pub open spec fn first_incoming_twin(&self, v: VertexID) -> Option<HalfEdgeID> {
        if exists|x: HalfEdgeID| #[trigger] self.is_first_pointing_to(x, v) {
            self.twin_of(Some(choose|x: HalfEdgeID| #[trigger] self.is_first_pointing_to(x, v)))
        } else {
            None
        }
    }

    /// Finds the half-edge that a vertex can name after its own was removed: the twin of the half-edge with the
    /// smallest index that points to the vertex.
    fn find_new_edge_connectivity(&self, vertex_id: VertexID) -> (r: Option<HalfEdgeID>)
        requires
            self.wf(),
            forall|x: HalfEdgeID| self.he_live(x) ==> (#[trigger] self.vertex_of(Some(x))) is Some,
        ensures
            r == self.first_incoming_twin(vertex_id),
            r is None && self.all_twinned() ==> forall|y: HalfEdgeID| self.he_live(y) ==> #[trigger] self.vertex_of(Some(y)) != Some(vertex_id),
    {
        proof { self.lemma_wf(); }
        let ids = self.halfedge_iter();
        let mut i: usize = 0;
        while i < ids.len()
            invariant
                self.wf(),
                forall|x: HalfEdgeID| self.he_live(x) ==> (#[trigger] self.vertex_of(Some(x))) is Some,
                super::iterators::lists_in_order(ids@, self.halfedges().dom()),
                i <= ids.len(),
                forall|j: int| 0 <= j < i ==> self.vertex_of(Some(#[trigger] ids@[j])) != Some(vertex_id),
            decreases ids.len() - i,
        {
            let x = ids[i];
            let walker = self.walker_from_halfedge(x);
            proof {
                walker.lemma_reads(self);
                self.lemma_wf();
                assert(self.he_live(x));
            }
            if walker.vertex_id().unwrap() == vertex_id {
                proof {
                    assert forall|y: HalfEdgeID| self.he_live(y) && self.vertex_of(Some(y)) == Some(vertex_id)
                        implies x.index() <= #[trigger] y.index() by {
                        let j = choose|j: int| 0 <= j < ids.len() && #[trigger] ids@[j].index() == y.index();
                        HalfEdgeID::lemma_index_injective(ids@[j], y);
                        if j < i {
                            assert(false);
                        }
                    }
                    assert(self.is_first_pointing_to(x, vertex_id));
                    let c = choose|c: HalfEdgeID| #[trigger] self.is_first_pointing_to(c, vertex_id);
                    HalfEdgeID::lemma_index_injective(c, x);
                }
                return walker.twin_id();
            }
            i += 1;
        }
        proof {
            assert forall|y: HalfEdgeID| self.he_live(y) implies #[trigger] self.vertex_of(Some(y)) != Some(vertex_id) by {
                let j = choose|j: int| 0 <= j < ids.len() && #[trigger] ids@[j].index() == y.index();
                HalfEdgeID::lemma_index_injective(ids@[j], y);
            }
        }
        None
    }

    /// Removes the vertex if it names no half-edge.
    pub(crate) fn remove_vertex_if_lonely(&mut self, vertex_id: VertexID)
        requires
            old(self).wf(),
            old(self).vx_live(vertex_id),
        ensures
            final(self).wf(),
            final(self).halfedges() == old(self).halfedges(),
            final(self).faces() == old(self).faces(),
            final(self).vertices() == if old(self).vertex_halfedge_of(vertex_id) is None {
                old(self).vertices().remove(vertex_id.index())
            } else {
                old(self).vertices()
            },
    {
        proof { self.lemma_wf(); }
        if self.connectivity_info.vertex_halfedge(vertex_id).is_none() {
            self.drop_vertex(vertex_id);
        }
    }

    /// `self` is `m` where the vertex `v`, if it named the half-edge `gone`, names the twin of the first
    /// half-edge that points to it, or, where there is none, is removed.
    pub open spec fn is_vertex_rehomed_of(&self, m: Mesh<T>, v: VertexID, gone: HalfEdgeID) -> bool {
        &&& self.halfedges() == m.halfedges()
        &&& self.faces() == m.faces()
        &&& self.vertices() == if m.vertex_halfedge_of(v) == Some(gone) {
            match m.first_incoming_twin(v) {
                Some(x) => m.vertices().insert(v.index(), Vertex { halfedge: Some(x), ..m.vertices()[v.index()] }),
                None => m.vertices().remove(v.index()),
            }
        } else {
            m.vertices()
        }
    }

    /// `self` is `m` after `remove_edge_if_lonely` of `h`: if neither half-edge of the edge has a face, both
    /// are removed and their vertices are given other half-edges or removed.
    pub open spec fn is_lonely_edge_removed_of(&self, m: Mesh<T>, h: HalfEdgeID) -> bool {
        let t = m.twin_of(Some(h))->0;
        if m.face_of(Some(h)) is None && m.face_of(Some(t)) is None {
            exists|m1: Mesh<T>, m2: Mesh<T>| {
                &&& m1.wf() && m2.wf()
                &&& m1.halfedges() == m.halfedges().remove(t.index()).remove(h.index())
                &&& m1.vertices() == m.vertices() && m1.faces() == m.faces()
                &&& #[trigger] m2.is_vertex_rehomed_of(m1, m.vertex_of(Some(t))->0, h)
                &&& #[trigger] self.is_vertex_rehomed_of(m2, m.vertex_of(Some(h))->0, t)
            }
        } else {
            self.same_maps(m)
        }
    }

    /// Removes the edge of the half-edge if neither of its half-edges has a face.
    pub fn remove_edge_if_lonely(&mut self, halfedge_id: HalfEdgeID)
        requires
            old(self).valid(),
            old(self).he_live(halfedge_id),
        ensures
            final(self).valid(),
            final(self).is_lonely_edge_removed_of(*old(self), halfedge_id),
    {
        let ghost m = *self;
        proof {
            self.lemma_valid_wf();
            self.lemma_wf();
            self.lemma_halfedge_ok(halfedge_id);
            self.lemma_halfedge_ok(self.twin_of(Some(halfedge_id))->0);
        }
        let walker = self.walker_from_halfedge(halfedge_id);
        proof { walker.lemma_reads(self); }
        if walker.face_id().is_none() {
            let walker = walker.into_twin();
            proof { walker.lemma_reads(self); }
            if walker.face_id().is_none() {
                let vertex_id1 = walker.vertex_id().unwrap();
                let halfedge_id1 = walker.halfedge_id().unwrap();
                let walker = walker.into_twin();
                proof { walker.lemma_reads(self); }
                let vertex_id2 = walker.vertex_id().unwrap();
                let halfedge_id2 = walker.halfedge_id().unwrap();
                proof {
                    m.lemma_vertex_ok(vertex_id1);
                    m.lemma_vertex_ok(vertex_id2);
                    HalfEdgeID::lemma_index_injective(halfedge_id1, halfedge_id2);
                    VertexID::lemma_index_injective(vertex_id1, vertex_id2);
                }

                self.drop_halfedge(halfedge_id1);
                proof { self.lemma_wf(); }
                self.drop_halfedge(halfedge_id2);
                let ghost m1 = *self;
                proof {
                    self.lemma_wf();
                    assert(self.halfedges() =~= m.halfedges().remove(halfedge_id1.index()).remove(halfedge_id2.index()));
                    reveal(Mesh::valid);
                    assert forall|x: HalfEdgeID| self.he_live(x) implies (#[trigger] self.vertex_of(Some(x))) is Some by {
                        assert(m.halfedge_ok(x));
                    }
                }

                let walker = self.walker_from_vertex(vertex_id1);
                proof { walker.lemma_reads(self); }
                if walker.halfedge_id().unwrap() == halfedge_id2 {
                    let ghost before = *self;
                    let new_edge = self.find_new_edge_connectivity(vertex_id1);
                    self.set_vertex_halfedge(vertex_id1, new_edge);
                    proof { self.lemma_wf(); }
                    self.remove_vertex_if_lonely(vertex_id1);
                    proof {
                        let vs = before.vertices();
                        match new_edge {
                            Some(x) => assert(self.vertices() =~= vs.insert(vertex_id1.index(), Vertex { halfedge: Some(x), ..vs[vertex_id1.index()] })),
                            None => assert(self.vertices() =~= vs.remove(vertex_id1.index())),
                        }
                    }
                }
                let ghost m2 = *self;
                proof {
                    self.lemma_wf();
                    assert(self.vx_live(vertex_id2));
                    assert(self.halfedges() == m1.halfedges());
                    assert forall|x: HalfEdgeID| self.he_live(x) implies (#[trigger] self.vertex_of(Some(x))) is Some by {
                        assert(m1.he_live(x));
                    }
                    assert(m2.is_vertex_rehomed_of(m1, vertex_id1, halfedge_id2));
                }
                let walker = self.walker_from_vertex(vertex_id2);
                proof { walker.lemma_reads(self); }
                if walker.halfedge_id().unwrap() == halfedge_id1 {
                    let ghost before = *self;
                    let new_edge = self.find_new_edge_connectivity(vertex_id2);
                    self.set_vertex_halfedge(vertex_id2, new_edge);
                    proof { self.lemma_wf(); }
                    self.remove_vertex_if_lonely(vertex_id2);
                    proof {
                        let vs = before.vertices();
                        match new_edge {
                            Some(x) => assert(self.vertices() =~= vs.insert(vertex_id2.index(), Vertex { halfedge: Some(x), ..vs[vertex_id2.index()] })),
                            None => assert(self.vertices() =~= vs.remove(vertex_id2.index())),
                        }
                    }
                }
                proof {
                    assert(self.is_vertex_rehomed_of(m2, vertex_id2, halfedge_id1));
                    assert(m1.wf() && m2.wf());
                    Self::lemma_lonely_removal_keeps_valid(m, m1, m2, *self, halfedge_id);
                }
            }
        }
    }

    /// Where a half-edge of the mesh points to `v`, one with the smallest index does.
    pub proof fn lemma_first_exists(&self, x: HalfEdgeID, v: VertexID)
        requires
            self.he_live(x),
            self.vertex_of(Some(x)) == Some(v),
        ensures
            exists|y: HalfEdgeID| #[trigger] self.is_first_pointing_to(y, v),
        decreases x.index(),
    {
        if !self.is_first_pointing_to(x, v) {
            let y = choose|y: HalfEdgeID| self.he_live(y) && self.vertex_of(Some(y)) == Some(v) && !(x.index() <= #[trigger] y.index());
            self.lemma_first_exists(y, v);
        }
    }

    /// Removing an edge without faces from a valid mesh, and giving its vertices other half-edges or removing
    /// them, leaves the mesh valid.
    pub proof fn lemma_lonely_removal_keeps_valid(m: Mesh<T>, m1: Mesh<T>, m2: Mesh<T>, m3: Mesh<T>, h: HalfEdgeID)
        requires
            m.valid(),
            m.he_live(h),
            m.face_of(Some(h)) is None,
            m.face_of(m.twin_of(Some(h))) is None,
            m1.wf() && m2.wf() && m3.wf(),
            m1.halfedges() == m.halfedges().remove(m.twin_of(Some(h))->0.index()).remove(h.index()),
            m1.vertices() == m.vertices() && m1.faces() == m.faces(),
            m2.is_vertex_rehomed_of(m1, m.vertex_of(m.twin_of(Some(h)))->0, h),
            m3.is_vertex_rehomed_of(m2, m.vertex_of(Some(h))->0, m.twin_of(Some(h))->0),
        ensures
            m3.valid(),
    {
        m.lemma_valid_wf();
        m.lemma_wf();
        m1.lemma_wf();
        m2.lemma_wf();
        m3.lemma_wf();
        m.lemma_halfedge_ok(h);
        let t = m.twin_of(Some(h))->0;
        m.lemma_halfedge_ok(t);
        let v1 = m.vertex_of(Some(t))->0;
        let v2 = m.vertex_of(Some(h))->0;
        HalfEdgeID::lemma_index_injective(h, t);
        VertexID::lemma_index_injective(v1, v2);
        // The remaining half-edges keep their entries.
        assert forall|x: HalfEdgeID| m3.he_live(x) implies
            m.he_live(x) && x != h && x != t && #[trigger] m3.he(x) == m.he(x) && m2.he(x) == m.he(x) && m1.he(x) == m.he(x) by {
            HalfEdgeID::lemma_index_injective(x, h);
            HalfEdgeID::lemma_index_injective(x, t);
        }
        assert forall|x: HalfEdgeID| m1.he_live(x) <==> #[trigger] m3.he_live(x) by {}
        reveal(Mesh::valid);
        assert forall|x: HalfEdgeID, y: HalfEdgeID| #[trigger] m3.same_face_pair_ok(x, y) by {
            if m3.he_live(x) && m3.he_live(y) {
                assert(m.same_face_pair_ok(x, y));
                assert(m.halfedge_ok(x));
                if let Some(nx) = m.next_of(Some(x)) {
                    assert(m.halfedge_ok(nx));
                    HalfEdgeID::lemma_index_injective(nx, h);
                    HalfEdgeID::lemma_index_injective(nx, t);
                    assert(m3.he_live(nx));
                }
            }
        }
        // A vertex that some remaining half-edge points to is not removed.
        assert forall|x: HalfEdgeID| m3.he_live(x) implies m3.vx_live(#[trigger] m3.vertex_of(Some(x))->0) by {
            assert(m.halfedge_ok(x));
            let u = m.vertex_of(Some(x))->0;
            assert(m1.he_live(x) && m2.he_live(x));
            if u == v1 {
                if m1.vertex_halfedge_of(v1) == Some(h) {
                    m1.lemma_first_exists(x, v1);
                    let c = choose|c: HalfEdgeID| #[trigger] m1.is_first_pointing_to(c, v1);
                    assert(m.halfedge_ok(c));
                    assert(m1.first_incoming_twin(v1) is Some);
                }
                assert(m2.vx_live(v1));
                assert(m3.vx_live(v1));
            } else if u == v2 {
                if m2.vertex_halfedge_of(v2) == Some(t) {
                    m2.lemma_first_exists(x, v2);
                    let c = choose|c: HalfEdgeID| #[trigger] m2.is_first_pointing_to(c, v2);
                    assert(m.halfedge_ok(c));
                    assert(m2.first_incoming_twin(v2) is Some);
                }
                assert(m3.vx_live(v2));
            } else {
                VertexID::lemma_index_injective(u, v1);
                VertexID::lemma_index_injective(u, v2);
                assert(m3.vx_live(u));
            }
        }
        assert forall|x: HalfEdgeID| m3.he_live(x) implies #[trigger] m3.halfedge_ok(x) by {
            assert(m.halfedge_ok(x));
            let tx = m.twin_of(Some(x))->0;
            assert(m.halfedge_ok(tx));
            HalfEdgeID::lemma_index_injective(tx, h);
            HalfEdgeID::lemma_index_injective(tx, t);
            assert(m3.he_live(tx));
            if let Some(nx) = m.next_of(Some(x)) {
                assert(m.halfedge_ok(nx));
                HalfEdgeID::lemma_index_injective(nx, h);
                HalfEdgeID::lemma_index_injective(nx, t);
                assert(m3.he_live(nx));
                let tnx = m.twin_of(Some(nx))->0;
                assert(m3.he_live(tnx) || true);
                let nnx = m.next_of(Some(nx))->0;
                assert(m.halfedge_ok(nnx));
                HalfEdgeID::lemma_index_injective(nnx, h);
                HalfEdgeID::lemma_index_injective(nnx, t);
                assert(m3.he_live(nnx));
                HalfEdgeID::lemma_index_injective(tnx, h);
                HalfEdgeID::lemma_index_injective(tnx, t);
                assert(m.halfedge_ok(tnx));
                assert(m3.he_live(tnx));
            }
            assert(m3.vx_live(m3.vertex_of(Some(x))->0));
        }
        assert forall|u: VertexID| m3.vx_live(u) implies #[trigger] m3.vertex_ok(u) by {
            assert(m.vertex_ok(u));
            VertexID::lemma_index_injective(u, v1);
            VertexID::lemma_index_injective(u, v2);
            let hu = m.vertex_halfedge_of(u)->0;
            assert(m.halfedge_ok(hu));
            HalfEdgeID::lemma_index_injective(hu, h);
            HalfEdgeID::lemma_index_injective(hu, t);
            if u == v1 && m1.vertex_halfedge_of(v1) == Some(h) {
                let x = choose|x: HalfEdgeID| #[trigger] m1.is_first_pointing_to(x, v1);
                assert(m.halfedge_ok(x));
                let tx = m.twin_of(Some(x))->0;
                assert(m.halfedge_ok(tx));
                HalfEdgeID::lemma_index_injective(tx, h);
                HalfEdgeID::lemma_index_injective(tx, t);
                assert(m3.he_live(tx));
            } else if u == v2 && m2.vertex_halfedge_of(v2) == Some(t) {
                let x = choose|x: HalfEdgeID| #[trigger] m2.is_first_pointing_to(x, v2);
                assert(m.halfedge_ok(x));
                let tx = m.twin_of(Some(x))->0;
                assert(m.halfedge_ok(tx));
                HalfEdgeID::lemma_index_injective(tx, h);
                HalfEdgeID::lemma_index_injective(tx, t);
                assert(m3.he_live(tx));
            } else {
                assert(m3.vertex_halfedge_of(u) == m.vertex_halfedge_of(u));
                assert(m3.he_live(hu));
            }
        }
        assert forall|g: FaceID| m3.fc_live(g) implies #[trigger] m3.face_ok(g) by {
            assert(m.face_ok(g));
            let hg = m.face_halfedge_of(g)->0;
            HalfEdgeID::lemma_index_injective(hg, h);
            HalfEdgeID::lemma_index_injective(hg, t);
            assert(m3.he_live(hg));
        }
    }

    /// `self` is `m` after `remove_face` of `f`: the face is detached, then each of its edges, in the order of
    /// the face, is removed if it no longer has a face.
    pub open spec fn is_face_removed_of(&self, m: Mesh<T>, f: FaceID) -> bool {
        let e = m.face_ring(f);
        exists|m1: Mesh<T>, m2: Mesh<T>, m3: Mesh<T>| {
            &&& m1.wf() && m2.wf() && m3.wf()
            &&& #[trigger] m1.is_face_detached_of(m, f)
            &&& #[trigger] m2.is_lonely_edge_removed_of(m1, e[0])
            &&& #[trigger] m3.is_lonely_edge_removed_of(m2, e[1])
            &&& self.is_lonely_edge_removed_of(m3, e[2])
        }
    }

    /// Removes the given face and the adjacent edges if they are then not connected to any face.
    pub fn remove_face(&mut self, face_id: FaceID)
        requires
            old(self).valid(),
            old(self).fc_live(face_id),
        ensures
            final(self).valid(),
            final(self).is_face_removed_of(*old(self), face_id),
    {
        let ghost m = *self;
        proof {
            self.lemma_valid_wf();
            self.lemma_wf();
            self.lemma_face_ok(face_id);
            let h0 = self.face_halfedge_of(face_id)->0;
            self.lemma_triangle(h0);
            let h1 = self.next_of(Some(h0))->0;
            let h2 = self.next_of(Some(h1))->0;
            self.lemma_triangle(h1);
            self.lemma_triangle(h2);
            self.lemma_halfedge_ok(h0);
            self.lemma_halfedge_ok(h1);
            self.lemma_halfedge_ok(h2);
        }
        let edges = self.face_halfedge_iter(face_id);
        self.remove_face_unsafe(face_id);
        let ghost m1 = *self;
        proof {
            self.lemma_valid_wf();
            self.lemma_wf();
            let e = edges@;
            HalfEdgeID::lemma_index_injective(e[0], e[1]);
            HalfEdgeID::lemma_index_injective(e[0], e[2]);
            HalfEdgeID::lemma_index_injective(e[1], e[2]);
            HalfEdgeID::lemma_index_injective(e[1], m.twin_of(Some(e[0]))->0);
            HalfEdgeID::lemma_index_injective(e[2], m.twin_of(Some(e[0]))->0);
            HalfEdgeID::lemma_index_injective(e[2], m.twin_of(Some(e[1]))->0);
            assert(self.he_live(e[0]) && self.he_live(e[1]) && self.he_live(e[2]));
            assert(self.twin_of(Some(e[0])) == m.twin_of(Some(e[0])));
            assert(self.twin_of(Some(e[1])) == m.twin_of(Some(e[1])));
        }
        self.remove_edge_if_lonely(edges[0]);
        let ghost m2 = *self;
        proof {
            self.lemma_valid_wf();
            self.lemma_wf();
            m1.lemma_wf();
            let e = edges@;
            assert(self.he_live(e[1]) && self.he_live(e[2]));
            assert(self.twin_of(Some(e[1])) == m.twin_of(Some(e[1])));
        }
        self.remove_edge_if_lonely(edges[1]);
        let ghost m3 = *self;
        proof {
            self.lemma_valid_wf();
            assert(self.he_live(edges@[2]));
        }
        self.remove_edge_if_lonely(edges[2]);
        proof {
            assert(m1.wf() && m2.wf() && m3.wf());
            assert(m1.is_face_detached_of(m, face_id));
            assert(m2.is_lonely_edge_removed_of(m1, edges@[0]));
            assert(m3.is_lonely_edge_removed_of(m2, edges@[1]));
        }
    }

    /// `self` is `m` after the lonely edges of the list, which names each edge of `m` once by its representative
    /// half-edge in increasing order, are removed one after the other, through the meshes of `s`, and then
    /// the vertices that name no half-edge.
    pub open spec fn is_lonely_cleanup_of(&self, m: Mesh<T>, edges: Seq<HalfEdgeID>, s: Seq<Mesh<T>>) -> bool {
        &&& forall|a: int| 0 <= a < edges.len() ==> m.he_live(#[trigger] edges[a]) && m.is_edge_representative(edges[a])
        &&& forall|a: int, b: int| 0 <= a < b < edges.len() ==> edges[a].index() < edges[b].index()
        &&& forall|h: HalfEdgeID| m.he_live(h) && m.is_edge_representative(h) ==> #[trigger] edges.contains(h)
        &&& s.len() == edges.len() + 1
        &&& s[0] == m
        &&& forall|i: int| 0 <= i < edges.len() ==> #[trigger] s[i + 1].is_lonely_edge_removed_of(s[i], edges[i]) && s[i + 1].wf()
        &&& self.same_maps(s.last())
    }

    /// Removes edges and vertices that are not connected to a face: each edge, in the order of its
    /// representative half-edge, is removed if neither half-edge has a face, then each vertex that names no
    /// half-edge is removed.
    pub fn remove_lonely_primitives(&mut self)
        requires
            old(self).valid(),
        ensures
            final(self).valid(),
            exists|edges: Seq<HalfEdgeID>, s: Seq<Mesh<T>>| #[trigger] final(self).is_lonely_cleanup_of(*old(self), edges, s),
    {
        let ghost m = *self;
        proof {
            self.lemma_valid_wf();
            self.lemma_wf();
            reveal(Mesh::valid);
            assert forall|h: HalfEdgeID| self.he_live(h) implies (#[trigger] self.twin_of(Some(h))) is Some by {
                assert(self.halfedge_ok(h));
            }
        }
        let edges = self.edge_iter();
        let ghost mut s: Seq<Mesh<T>> = seq![*self];
        let mut i: usize = 0;
        while i < edges.len()
            invariant
                m.valid(),
                m.wf(),
                self.valid(),
                i <= edges.len(),
                forall|a: int| 0 <= a < edges.len() ==> m.he_live(#[trigger] edges@[a]) && m.is_edge_representative(edges@[a]),
                forall|a: int, b: int| 0 <= a < b < edges.len() ==> edges@[a].index() < edges@[b].index(),
                forall|a: int| i <= a < edges.len() ==> self.he_live(#[trigger] edges@[a]),
                forall|x: HalfEdgeID| #[trigger] self.he_live(x) ==> m.he_live(x) && self.twin_of(Some(x)) == m.twin_of(Some(x)),
                s.len() == i + 1,
                s[0] == m,
                s.last() == *self,
                forall|a: int| 0 <= a < i ==> #[trigger] s[a + 1].is_lonely_edge_removed_of(s[a], edges@[a]) && s[a + 1].wf(),
            decreases edges.len() - i,
        {
            let ghost before = *self;
            let h = edges[i];
            proof {
                self.lemma_valid_wf();
                self.lemma_wf();
                m.lemma_wf();
            }
            self.remove_edge_if_lonely(h);
            proof {
                self.lemma_valid_wf();
                self.lemma_wf();
                before.lemma_wf();
                let t = m.twin_of(Some(h))->0;
                m.lemma_halfedge_ok(h);
                // The removal takes only `h` and its twin, if anything; the other edges stay, with their twins.
                assert(self.halfedges().dom().subset_of(before.halfedges().dom()));
                assert forall|x: HalfEdgeID| #[trigger] self.he_live(x) implies m.he_live(x) && self.twin_of(Some(x)) == m.twin_of(Some(x)) by {
                    assert(before.he_live(x));
                    if before.face_of(Some(h)) is None && before.face_of(Some(t)) is None {
                        HalfEdgeID::lemma_index_injective(x, h);
                        HalfEdgeID::lemma_index_injective(x, t);
                        assert(self.halfedges()[x.index()] == before.halfedges()[x.index()]);
                    }
                }
                assert forall|a: int| i + 1 <= a < edges.len() implies self.he_live(#[trigger] edges@[a]) by {
                    let e = edges@[a];
                    assert(before.he_live(e));
                    HalfEdgeID::lemma_index_injective(e, h);
                    HalfEdgeID::lemma_index_injective(e, t);
                    m.lemma_halfedge_ok(e);
                    if e == t {
                        assert(m.twin_of(Some(t)) == Some(h));
                    }
                }
                let s0 = s;
                s = s.push(*self);
                assert forall|a: int| 0 <= a < i + 1 implies #[trigger] s[a + 1].is_lonely_edge_removed_of(s[a], edges@[a]) && s[a + 1].wf() by {
                    if a < i {
                        assert(s[a + 1] == s0[a + 1] && s[a] == s0[a]);
                    }
                }
            }
            i += 1;
        }
        let ghost me = *self;
        proof {
            self.lemma_valid_wf();
            self.lemma_wf();
        }
        let vertices = self.vertex_iter();
        let mut j: usize = 0;
        while j < vertices.len()
            invariant
                me.valid(),
                me.wf(),
                self.valid(),
                self.same_maps(me),
                super::iterators::lists_in_order(vertices@, me.vertices().dom()),
                j <= vertices.len(),
            decreases vertices.len() - j,
        {
            proof {
                self.lemma_valid_wf();
                self.lemma_wf();
                me.lemma_wf();
                assert(self.vx_live(vertices@[j as int]));
                self.lemma_vertex_ok(vertices@[j as int]);
            }
            self.remove_vertex_if_lonely(vertices[j]);
            proof {
                assert(self.vertices() =~= me.vertices());
                Self::lemma_valid_same_maps(me, *self);
            }
            j += 1;
        }
        proof {
            assert(self.is_lonely_cleanup_of(m, edges@, s));
        }
    }
}

} // verus!
