//! Orientation of the faces: flipping one face, all faces, or those that disagree with their neighbours.
use vstd::prelude::*;
use crate::ids::{FaceID, HalfEdgeID, VertexID, ID};
use super::Mesh;
use super::connectivity_info::{HalfEdge, Vertex};
use super::iterators::lists_in_order;

verus! {

/// How many entries of the list are unset.
pub open spec fn count_unset(s: Seq<Option<bool>>) -> nat
    decreases s.len(),
{
    if s.len() == 0 {
        0
    } else {
        count_unset(s.drop_last()) + if s.last() is None { 1nat } else { 0nat }
    }
}

/// Setting an unset entry leaves one fewer unset.
pub proof fn lemma_count_unset_update(s: Seq<Option<bool>>, i: int, b: bool)
    requires
        0 <= i < s.len(),
        s[i] is None,
    ensures
        count_unset(s.update(i, Some(b))) + 1 == count_unset(s),
    decreases s.len(),
{
    let u = s.update(i, Some(b));
    if i < s.len() - 1 {
        assert(u.drop_last() =~= s.drop_last().update(i, Some(b)));
        lemma_count_unset_update(s.drop_last(), i, b);
    } else {
        assert(u.drop_last() =~= s.drop_last());
    }
}

impl<T: Copy> Mesh<T> {
    /// The face is a triangle of three distinct half-edges of the mesh, in the face, that point to three distinct
    /// vertices of the mesh; their twins are distinct half-edges of the mesh outside the face, and a twin
    /// without face points to the vertex where its half-edge starts.
    pub open spec fn face_flippable(&self, f: FaceID) -> bool {
        let r = self.face_ring(f);
        &&& self.fc_live(f)
        &&& self.face_halfedge_of(f) is Some
        &&& self.next_of(self.face_halfedge_of(f)) is Some
        &&& self.face_halfedge_of(f) == Some(r[2])
        &&& self.next_of(Some(r[0])) == Some(r[1])
        &&& self.next_of(Some(r[1])) == Some(r[2])
        &&& self.next_of(Some(r[2])) == Some(r[0])
        &&& r[0] != r[1] && r[1] != r[2] && r[0] != r[2]
        &&& forall|i: int| 0 <= i < 3 ==> {
            &&& self.he_live(#[trigger] r[i])
            &&& self.face_of(Some(r[i])) == Some(f)
            &&& self.vertex_of(Some(r[i])) matches Some(v) && self.vx_live(v)
            &&& self.twin_of(Some(r[i])) matches Some(t) && self.he_live(t) && self.face_of(Some(t)) != Some(f)
            &&& (self.face_of(self.twin_of(Some(r[i]))) matches Some(g) ==> self.fc_live(g))
            &&& (self.face_of(self.twin_of(Some(r[i]))) is None ==> self.vertex_of(self.twin_of(Some(r[i]))) == self.vertex_of(Some(r[(i + 2) % 3])))
        }
        &&& self.vertex_of(Some(r[0])) != self.vertex_of(Some(r[1]))
        &&& self.vertex_of(Some(r[1])) != self.vertex_of(Some(r[2]))
        &&& self.vertex_of(Some(r[0])) != self.vertex_of(Some(r[2]))
        &&& self.twin_of(Some(r[0])) != self.twin_of(Some(r[1]))
        &&& self.twin_of(Some(r[1])) != self.twin_of(Some(r[2]))
        &&& self.twin_of(Some(r[0])) != self.twin_of(Some(r[2]))
    }

    /// `self` is `m` with the face `f` turned around: each of its half-edges points to where it started and is
    /// followed by the half-edge that came before it; a twin without face is turned around too, and each vertex
    /// of the face names the half-edge that now starts in it there, the twin where it has no face.
    pub open spec fn is_face_flipped_of(&self, m: Mesh<T>, f: FaceID) -> bool {
        let r = m.face_ring(f);
        let (x1, x2, x3) = (r[0], r[1], r[2]);
        let (t1, t2, t3) = (m.twin_of(Some(x1))->0, m.twin_of(Some(x2))->0, m.twin_of(Some(x3))->0);
        let (w1, w2, w3) = (m.vertex_of(Some(x1))->0, m.vertex_of(Some(x2))->0, m.vertex_of(Some(x3))->0);
        let he = m.halfedges();
        let vs = m.vertices();
        let he1 = he
            .insert(x1.index(), HalfEdge { vertex: Some(w3), next: Some(x3), ..he[x1.index()] })
            .insert(x2.index(), HalfEdge { vertex: Some(w1), next: Some(x1), ..he[x2.index()] })
            .insert(x3.index(), HalfEdge { vertex: Some(w2), next: Some(x2), ..he[x3.index()] });
        let he2 = if m.face_of(Some(t1)) is None { he1.insert(t1.index(), HalfEdge { vertex: Some(w1), ..he[t1.index()] }) } else { he1 };
        let he3 = if m.face_of(Some(t2)) is None { he2.insert(t2.index(), HalfEdge { vertex: Some(w2), ..he[t2.index()] }) } else { he2 };
        let he4 = if m.face_of(Some(t3)) is None { he3.insert(t3.index(), HalfEdge { vertex: Some(w3), ..he[t3.index()] }) } else { he3 };
        &&& self.halfedges() == he4
        &&& self.faces() == m.faces()
        &&& self.vertices() == vs
            .insert(w3.index(), Vertex { halfedge: Some(if m.face_of(Some(t1)) is None { t1 } else { x3 }), ..vs[w3.index()] })
            .insert(w1.index(), Vertex { halfedge: Some(if m.face_of(Some(t2)) is None { t2 } else { x1 }), ..vs[w1.index()] })
            .insert(w2.index(), Vertex { halfedge: Some(if m.face_of(Some(t3)) is None { t3 } else { x2 }), ..vs[w2.index()] })
    }

    /// One step of turning a face around, at its half-edge `x`: the vertex where `x` starts names the half-edge
    /// before `x`; a twin of `x` without face is turned around and named by that vertex instead. Returns `x`,
    /// and the vertex and id of the half-edge before it.
    fn flip_step(&mut self, x: HalfEdgeID) -> (r: (HalfEdgeID, VertexID, HalfEdgeID))
        requires
            old(self).wf(),
            old(self).he_live(x),
            old(self).next_of(Some(x)) matches Some(n) && old(self).he_live(n),
            old(self).previous_of(Some(x)) matches Some(p) && old(self).he_live(p),
            old(self).vertex_of(Some(x)) is Some,
            old(self).vertex_of(old(self).previous_of(Some(x))) matches Some(v) && old(self).vx_live(v),
            old(self).twin_of(Some(x)) matches Some(t) && old(self).he_live(t),
            old(self).face_of(old(self).twin_of(Some(x))) is None
                ==> old(self).vertex_of(old(self).twin_of(Some(x))) == old(self).vertex_of(old(self).previous_of(Some(x))),
        ensures
            ({
                let m = *old(self);
                let p = m.previous_of(Some(x))->0;
                let v = m.vertex_of(Some(p))->0;
                let t = m.twin_of(Some(x))->0;
                let vs1 = m.vertices().insert(v.index(), Vertex { halfedge: Some(p), ..m.vertices()[v.index()] });
                &&& r == (x, v, p)
                &&& final(self).wf()
                &&& final(self).faces() == m.faces()
                &&& if m.face_of(Some(t)) is None {
                    &&& final(self).halfedges() == m.halfedges().insert(t.index(), HalfEdge { vertex: m.vertex_of(Some(x)), ..m.halfedges()[t.index()] })
                    &&& final(self).vertices() == vs1.insert(v.index(), Vertex { halfedge: Some(t), ..vs1[v.index()] })
                } else {
                    &&& final(self).halfedges() == m.halfedges()
                    &&& final(self).vertices() == vs1
                }
            }),
    {
        proof { self.lemma_wf(); }
        let walker = self.walker_from_halfedge(x);
        proof { walker.lemma_reads(self); }
        let vertex_id = walker.vertex_id();
        let walker = walker.into_previous();
        proof { walker.lemma_reads(self); }
        let previous_vertex = walker.vertex_id().unwrap();
        let previous_id = walker.halfedge_id().unwrap();
        self.set_vertex_halfedge(previous_vertex, Some(previous_id));
        let walker = self.walker_from_halfedge(x).into_twin();
        proof { walker.lemma_reads(self); self.lemma_wf(); }
        if walker.face_id().is_none() {
            let twin_vertex = walker.vertex_id().unwrap();
            let twin_id = walker.halfedge_id().unwrap();
            self.set_vertex_halfedge(twin_vertex, Some(twin_id));
            self.set_vertex(twin_id, vertex_id.unwrap());
        }
        (x, previous_vertex, previous_id)
    }

    /// Flip the orientation of the given face.
    pub fn flip_orientation_of_face(&mut self, face_id: FaceID)
        requires
            old(self).wf(),
            old(self).face_flippable(face_id),
        ensures
            final(self).wf(),
            final(self).is_face_flipped_of(*old(self), face_id),
    {
        let ghost m = *self;
        proof { self.lemma_wf(); }
        let ring = self.face_halfedge_iter(face_id);
        let ghost r = ring@;
        proof {
            assert((0int + 2) % 3 == 2 && (1int + 2) % 3 == 0 && (2int + 2) % 3 == 1);
            assert(self.he_live(r[0]) && self.face_of(Some(r[0])) == Some(face_id));
            assert(self.he_live(r[1]) && self.face_of(Some(r[1])) == Some(face_id));
            assert(self.he_live(r[2]) && self.face_of(Some(r[2])) == Some(face_id));
            assert(self.vertex_of(Some(r[0])) is Some && self.vertex_of(Some(r[1])) is Some && self.vertex_of(Some(r[2])) is Some);
            assert(self.twin_of(Some(r[0])) is Some && self.twin_of(Some(r[1])) is Some && self.twin_of(Some(r[2])) is Some);
            assert(self.face_of(self.twin_of(Some(r[0]))) is None ==> self.vertex_of(self.twin_of(Some(r[0]))) == self.vertex_of(Some(r[2])));
            assert(self.face_of(self.twin_of(Some(r[1]))) is None ==> self.vertex_of(self.twin_of(Some(r[1]))) == self.vertex_of(Some(r[0])));
            assert(self.face_of(self.twin_of(Some(r[2]))) is None ==> self.vertex_of(self.twin_of(Some(r[2]))) == self.vertex_of(Some(r[1])));
            let (t1, t2, t3) = (m.twin_of(Some(r[0]))->0, m.twin_of(Some(r[1]))->0, m.twin_of(Some(r[2]))->0);
            assert(self.he_live(t1) && self.he_live(t2) && self.he_live(t3));
            HalfEdgeID::lemma_index_injective(t1, t2);
            HalfEdgeID::lemma_index_injective(t1, t3);
            HalfEdgeID::lemma_index_injective(t2, t3);
            HalfEdgeID::lemma_index_injective(r[0], r[1]);
            HalfEdgeID::lemma_index_injective(r[0], r[2]);
            HalfEdgeID::lemma_index_injective(r[1], r[2]);
            assert(t1 != r[0] && t1 != r[1] && t1 != r[2]);
            assert(t2 != r[0] && t2 != r[1] && t2 != r[2]);
            assert(t3 != r[0] && t3 != r[1] && t3 != r[2]);
            assert forall|a: HalfEdgeID, b: HalfEdgeID| (a == r[0] || a == r[1] || a == r[2]) && (b == t1 || b == t2 || b == t3)
                implies #[trigger] a.index() != #[trigger] b.index() by {
                HalfEdgeID::lemma_index_injective(a, b);
            }
            VertexID::lemma_index_injective(m.vertex_of(Some(r[0]))->0, m.vertex_of(Some(r[1]))->0);
            VertexID::lemma_index_injective(m.vertex_of(Some(r[0]))->0, m.vertex_of(Some(r[2]))->0);
            VertexID::lemma_index_injective(m.vertex_of(Some(r[1]))->0, m.vertex_of(Some(r[2]))->0);
        }
        let u1 = self.flip_step(ring[0]);
        proof { self.lemma_wf(); }
        let u2 = self.flip_step(ring[1]);
        proof { self.lemma_wf(); }
        let u3 = self.flip_step(ring[2]);
        proof { self.lemma_wf(); }
        self.set_vertex(u1.0, u1.1);
        self.set_next(u1.0, Some(u1.2));
        self.set_vertex(u2.0, u2.1);
        self.set_next(u2.0, Some(u2.2));
        self.set_vertex(u3.0, u3.1);
        self.set_next(u3.0, Some(u3.2));
        proof {
            let (x1, x2, x3) = (r[0], r[1], r[2]);
            let (t1, t2, t3) = (m.twin_of(Some(x1))->0, m.twin_of(Some(x2))->0, m.twin_of(Some(x3))->0);
            let (w1, w2, w3) = (m.vertex_of(Some(x1))->0, m.vertex_of(Some(x2))->0, m.vertex_of(Some(x3))->0);
            let he = m.halfedges();
            let vs = m.vertices();
            let he1 = he
                .insert(x1.index(), HalfEdge { vertex: Some(w3), next: Some(x3), ..he[x1.index()] })
                .insert(x2.index(), HalfEdge { vertex: Some(w1), next: Some(x1), ..he[x2.index()] })
                .insert(x3.index(), HalfEdge { vertex: Some(w2), next: Some(x2), ..he[x3.index()] });
            let he2 = if m.face_of(Some(t1)) is None { he1.insert(t1.index(), HalfEdge { vertex: Some(w1), ..he[t1.index()] }) } else { he1 };
            let he3 = if m.face_of(Some(t2)) is None { he2.insert(t2.index(), HalfEdge { vertex: Some(w2), ..he[t2.index()] }) } else { he2 };
            let he4 = if m.face_of(Some(t3)) is None { he3.insert(t3.index(), HalfEdge { vertex: Some(w3), ..he[t3.index()] }) } else { he3 };
            assert(self.halfedges() =~= he4);
            assert(self.vertices() =~= vs
                .insert(w3.index(), Vertex { halfedge: Some(if m.face_of(Some(t1)) is None { t1 } else { x3 }), ..vs[w3.index()] })
                .insert(w1.index(), Vertex { halfedge: Some(if m.face_of(Some(t2)) is None { t2 } else { x1 }), ..vs[w1.index()] })
                .insert(w2.index(), Vertex { halfedge: Some(if m.face_of(Some(t3)) is None { t3 } else { x2 }), ..vs[w2.index()] }));
        }
    }

    /// Every half-edge of the mesh that names a twin is named back by it.
    pub open spec fn twins_paired(&self) -> bool {
        forall|x: HalfEdgeID| #[trigger] self.he_live(x) ==> (self.twin_of(Some(x)) matches Some(t) ==> self.he_live(t) && self.twin_of(Some(t)) == Some(x))
    }

    /// Twins are paired and every face can be flipped: the structure that the orientation operations need,
    /// which a valid mesh has and which does not ask neighbouring faces to agree in orientation.
    pub open spec fn faces_flippable(&self) -> bool {
        &&& self.twins_paired()
        &&& forall|f: FaceID| self.fc_live(f) ==> #[trigger] self.face_flippable(f)
    }

    /// In a valid mesh twins are paired and every face can be flipped.
    pub proof fn lemma_valid_flippable(&self)
        requires
            self.valid(),
        ensures
            self.twins_paired(),
            forall|f: FaceID| self.fc_live(f) ==> #[trigger] self.face_flippable(f),
            self.faces_flippable(),
    {
        self.lemma_valid_wf();
        self.lemma_wf();
        assert forall|x: HalfEdgeID| #[trigger] self.he_live(x) implies (self.twin_of(Some(x)) matches Some(t) ==> self.he_live(t) && self.twin_of(Some(t)) == Some(x)) by {
            self.lemma_halfedge_ok(x);
        }
        assert forall|f: FaceID| self.fc_live(f) implies #[trigger] self.face_flippable(f) by {
            self.lemma_face_ok(f);
            let h0 = self.face_halfedge_of(f)->0;
            self.lemma_triangle(h0);
            let n = self.next_of(Some(h0))->0;
            let p = self.next_of(Some(n))->0;
            self.lemma_triangle(n);
            self.lemma_triangle(p);
            self.lemma_halfedge_ok(h0);
            self.lemma_halfedge_ok(n);
            self.lemma_halfedge_ok(p);
            let r = self.face_ring(f);
            assert(r[0] == n && r[1] == p && r[2] == h0);
            assert((0int + 2) % 3 == 2 && (1int + 2) % 3 == 0 && (2int + 2) % 3 == 1);
            self.lemma_halfedge_ok(self.twin_of(Some(n))->0);
            self.lemma_halfedge_ok(self.twin_of(Some(p))->0);
            self.lemma_halfedge_ok(self.twin_of(Some(h0))->0);
        }
    }

    /// Flipping a face keeps twins paired and leaves every other face flippable.
    proof fn lemma_flip_keeps_flippable(m: Mesh<T>, m2: Mesh<T>, f: FaceID, g: FaceID)
        requires
            m.wf(),
            m2.wf(),
            m.twins_paired(),
            m.face_flippable(f),
            m.face_flippable(g),
            g != f,
            m2.is_face_flipped_of(m, f),
        ensures
            m2.face_flippable(g),
    {
        Self::lemma_flip_entries(m, m2, f);
        m.lemma_wf();
        m2.lemma_wf();
        let r = m.face_ring(f);
        let q = m.face_ring(g);
        assert((0int + 2) % 3 == 2 && (1int + 2) % 3 == 0 && (2int + 2) % 3 == 1);
        assert(m.face_of(Some(r[0])) == Some(f) && m.face_of(Some(r[1])) == Some(f) && m.face_of(Some(r[2])) == Some(f));
        let (t1, t2, t3) = (m.twin_of(Some(r[0]))->0, m.twin_of(Some(r[1]))->0, m.twin_of(Some(r[2]))->0);
        // The half-edges of `g` and their twins keep their entries, but for twins with a face.
        assert(m.he_live(q[0]) && m.he_live(q[1]) && m.he_live(q[2]));
        assert(m.face_of(Some(q[0])) == Some(g) && m.face_of(Some(q[1])) == Some(g) && m.face_of(Some(q[2])) == Some(g));
        assert(m2.he(q[0]) == m.he(q[0]) && m2.he(q[1]) == m.he(q[1]) && m2.he(q[2]) == m.he(q[2]));
        assert(m2.face_ring(g) == q);
        assert forall|i: int| 0 <= i < 3 implies {
            &&& m2.he_live(#[trigger] q[i])
            &&& m2.face_of(Some(q[i])) == Some(g)
            &&& m2.vertex_of(Some(q[i])) matches Some(v) && m2.vx_live(v)
            &&& m2.twin_of(Some(q[i])) matches Some(t) && m2.he_live(t) && m2.face_of(Some(t)) != Some(g)
            &&& (m2.face_of(m2.twin_of(Some(q[i]))) matches Some(g3) ==> m2.fc_live(g3))
            &&& (m2.face_of(m2.twin_of(Some(q[i]))) is None ==> m2.vertex_of(m2.twin_of(Some(q[i]))) == m2.vertex_of(Some(q[(i + 2) % 3])))
        } by {
            assert(m.he_live(q[i]));
            let ty = m.twin_of(Some(q[i]))->0;
            assert(m.he_live(ty));
            if m.face_of(Some(ty)) is None && (ty == t1 || ty == t2 || ty == t3) {
                assert(m.twin_of(Some(ty)) == Some(q[i]));
                assert(false);
            }
            assert(m2.he_live(q[(i + 2) % 3]));
        }
    }

    /// Flipping a face keeps twins paired.
    proof fn lemma_flip_keeps_paired(m: Mesh<T>, m2: Mesh<T>, f: FaceID)
        requires
            m.wf(),
            m2.wf(),
            m.twins_paired(),
            m.face_flippable(f),
            m2.is_face_flipped_of(m, f),
        ensures
            m2.twins_paired(),
    {
        Self::lemma_flip_entries(m, m2, f);
        m.lemma_wf();
        m2.lemma_wf();
        assert forall|x: HalfEdgeID| #[trigger] m2.he_live(x) implies (m2.twin_of(Some(x)) matches Some(t) ==> m2.he_live(t) && m2.twin_of(Some(t)) == Some(x)) by {
            assert(m.he_live(x));
            if let Some(t) = m.twin_of(Some(x)) {
                assert(m.he_live(t) ==> m2.he(t)->0.twin == m.he(t)->0.twin);
            }
        }
    }

    /// Flipping a face changes only the vertex and next of its half-edges and of its twins without face.
    proof fn lemma_flip_entries(m: Mesh<T>, m2: Mesh<T>, f: FaceID)
        requires
            m.wf(),
            m2.wf(),
            m.face_flippable(f),
            m2.is_face_flipped_of(m, f),
        ensures
            forall|x: HalfEdgeID| m.he_live(x) <==> #[trigger] m2.he_live(x),
            ({
                let r = m.face_ring(f);
                let (t1, t2, t3) = (m.twin_of(Some(r[0]))->0, m.twin_of(Some(r[1]))->0, m.twin_of(Some(r[2]))->0);
                forall|x: HalfEdgeID| m.he_live(x) ==> #[trigger] m2.he(x) == (
                    if x == r[0] || x == r[1] || x == r[2] || ((x == t1 || x == t2 || x == t3) && m.face_of(Some(x)) is None) {
                        Some(HalfEdge { vertex: m2.he(x)->0.vertex, next: m2.he(x)->0.next, ..m.he(x)->0 })
                    } else {
                        m.he(x)
                    })
            }),
    {
        m.lemma_wf();
        m2.lemma_wf();
        let r = m.face_ring(f);
        assert(m.face_of(Some(r[0])) == Some(f) && m.face_of(Some(r[1])) == Some(f) && m.face_of(Some(r[2])) == Some(f));
        assert(m.he_live(r[0]) && m.he_live(r[1]) && m.he_live(r[2]));
        let (t1, t2, t3) = (m.twin_of(Some(r[0]))->0, m.twin_of(Some(r[1]))->0, m.twin_of(Some(r[2]))->0);
        assert(m.he_live(t1) && m.he_live(t2) && m.he_live(t3));
        assert forall|x: HalfEdgeID| m.he_live(x) implies #[trigger] m2.he(x) == (
            if x == r[0] || x == r[1] || x == r[2] || ((x == t1 || x == t2 || x == t3) && m.face_of(Some(x)) is None) {
                Some(HalfEdge { vertex: m2.he(x)->0.vertex, next: m2.he(x)->0.next, ..m.he(x)->0 })
            } else {
                m.he(x)
            }) by {
            HalfEdgeID::lemma_index_injective(x, r[0]);
            HalfEdgeID::lemma_index_injective(x, r[1]);
            HalfEdgeID::lemma_index_injective(x, r[2]);
            HalfEdgeID::lemma_index_injective(x, t1);
            HalfEdgeID::lemma_index_injective(x, t2);
            HalfEdgeID::lemma_index_injective(x, t3);
            HalfEdgeID::lemma_index_injective(t1, r[0]);
            HalfEdgeID::lemma_index_injective(t1, r[1]);
            HalfEdgeID::lemma_index_injective(t1, r[2]);
            HalfEdgeID::lemma_index_injective(t2, r[0]);
            HalfEdgeID::lemma_index_injective(t2, r[1]);
            HalfEdgeID::lemma_index_injective(t2, r[2]);
            HalfEdgeID::lemma_index_injective(t3, r[0]);
            HalfEdgeID::lemma_index_injective(t3, r[1]);
            HalfEdgeID::lemma_index_injective(t3, r[2]);
            HalfEdgeID::lemma_index_injective(t1, t2);
            HalfEdgeID::lemma_index_injective(t1, t3);
            HalfEdgeID::lemma_index_injective(t2, t3);
            HalfEdgeID::lemma_index_injective(r[0], r[1]);
            HalfEdgeID::lemma_index_injective(r[0], r[2]);
            HalfEdgeID::lemma_index_injective(r[1], r[2]);
            assert(m2.he_live(x));
        }
    }

    /// `self` is `m` with its faces, listed by `faces` in increasing order, turned around one after the other,
    /// through the meshes of `s`.
    pub open spec fn is_turned_around_of(&self, m: Mesh<T>, faces: Seq<FaceID>, s: Seq<Mesh<T>>) -> bool {
        &&& lists_in_order(faces, m.faces().dom())
        &&& s.len() == faces.len() + 1
        &&& s[0] == m
        &&& s.last() == *self
        &&& forall|i: int| 0 <= i < faces.len() ==> #[trigger] s[i + 1].is_face_flipped_of(s[i], faces[i]) && s[i + 1].wf()
    }

    /// Flip the orientation of all faces in the mesh, in the order of their ids.
    pub fn flip_orientation(&mut self)
        requires
            old(self).wf(),
            old(self).faces_flippable(),
        ensures
            final(self).wf(),
            final(self).faces() == old(self).faces(),
            old(self).valid() ==> final(self).valid(),
            exists|faces: Seq<FaceID>, s: Seq<Mesh<T>>| #[trigger] final(self).is_turned_around_of(*old(self), faces, s),
    {
        let ghost m = *self;
        proof {
            self.lemma_wf();
        }
        let faces = self.face_iter();
        let ghost mut s: Seq<Mesh<T>> = seq![*self];
        proof {
            if m.valid() {
                Self::lemma_turn_none(m);
                assert(Set::new(|g: FaceID| exists|j: int| 0 <= j < 0 && faces@[j] == g) =~= Set::empty());
            }
        }
        let mut i: usize = 0;
        while i < faces.len()
            invariant
                self.wf(),
                m.valid() ==> self.is_partly_turned_of(m, Set::new(|g: FaceID| exists|j: int| 0 <= j < i && faces@[j] == g)),
                lists_in_order(faces@, m.faces().dom()),
                i <= faces.len(),
                self.twins_paired(),
                self.faces() == m.faces(),
                forall|j: int| i <= j < faces.len() ==> #[trigger] self.face_flippable(faces@[j]),
                s.len() == i + 1,
                s[0] == m,
                s.last() == *self,
                forall|j: int| 0 <= j < i ==> #[trigger] s[j + 1].is_face_flipped_of(s[j], faces@[j]) && s[j + 1].wf(),
            decreases faces.len() - i,
        {
            let ghost before = *self;
            let f = faces[i];
            self.flip_orientation_of_face(f);
            proof {
                if m.valid() {
                    let done = Set::new(|g: FaceID| exists|j: int| 0 <= j < i && faces@[j] == g);
                    if done.contains(f) {
                        let j = choose|j: int| 0 <= j < i && faces@[j] == f;
                        assert(faces@[j].index() < faces@[i as int].index());
                    }
                    m.lemma_valid_wf();
                    m.lemma_wf();
                    assert(m.fc_live(f));
                    Self::lemma_turn_step(m, before, *self, done, f);
                    assert(Set::new(|g: FaceID| exists|j: int| 0 <= j < i + 1 && faces@[j] == g) =~= done.insert(f));
                }
                assert forall|j: int| i + 1 <= j < faces.len() implies #[trigger] self.face_flippable(faces@[j]) by {
                    FaceID::lemma_index_injective(faces@[j], f);
                    Self::lemma_flip_keeps_flippable(before, *self, f, faces@[j]);
                }
                Self::lemma_flip_keeps_paired(before, *self, f);
                let s0 = s;
                s = s.push(*self);
                assert forall|j: int| 0 <= j < i + 1 implies #[trigger] s[j + 1].is_face_flipped_of(s[j], faces@[j]) && s[j + 1].wf() by {
                    if j < i {
                        assert(s[j + 1] == s0[j + 1] && s[j] == s0[j]);
                    }
                }
            }
            i += 1;
        }
        proof {
            if m.valid() {
                let done = Set::new(|g: FaceID| exists|j: int| 0 <= j < faces@.len() && faces@[j] == g);
                assert forall|g: FaceID| #[trigger] done.contains(g) <==> m.fc_live(g) by {
                    if m.fc_live(g) {
                        let j = choose|j: int| 0 <= j < faces@.len() && #[trigger] faces@[j].index() == g.index();
                        FaceID::lemma_index_injective(faces@[j], g);
                    }
                }
                Self::lemma_turned_valid(m, *self, done);
            }
            assert(self.is_turned_around_of(m, faces@, s));
        }
    }

    /// The face across the `j`-th edge of `g`, if there is one, is marked.
    pub open spec fn neighbour_marked(&self, g: FaceID, j: int, marks: Seq<Option<bool>>) -> bool {
        match self.face_of(self.twin_of(Some(self.face_ring(g)[j]))) {
            Some(g2) => marks[g2.index() as int] is Some,
            None => true,
        }
    }

    /// In a valid mesh, the face across an edge of a face is a face of the mesh.
    pub proof fn lemma_neighbour_live(&self, g: FaceID, j: int)
        requires
            self.valid(),
            self.fc_live(g),
            0 <= j < 3,
        ensures
            self.he_live(self.face_ring(g)[j]),
            self.face_of(self.twin_of(Some(self.face_ring(g)[j]))) matches Some(g2) ==> self.fc_live(g2) && g2.index() < self.fc_slot_count(),
    {
        self.lemma_valid_wf();
        self.lemma_wf();
        self.lemma_fc_slots();
        self.lemma_face_ok(g);
        let h0 = self.face_halfedge_of(g)->0;
        self.lemma_triangle(h0);
        let n = self.next_of(Some(h0))->0;
        self.lemma_triangle(n);
        let h = self.face_ring(g)[j];
        self.lemma_halfedge_ok(h);
        let t = self.twin_of(Some(h))->0;
        self.lemma_halfedge_ok(t);
    }

    /// Where every face can be flipped, the face across an edge of a face is a face of the mesh.
    pub proof fn lemma_neighbour_flippable(&self, g: FaceID, j: int)
        requires
            self.wf(),
            self.faces_flippable(),
            self.fc_live(g),
            0 <= j < 3,
        ensures
            self.he_live(self.face_ring(g)[j]),
            self.twin_of(Some(self.face_ring(g)[j])) is Some,
            self.face_of(self.twin_of(Some(self.face_ring(g)[j]))) matches Some(g2) ==> self.fc_live(g2) && g2.index() < self.fc_slot_count(),
    {
        self.lemma_wf();
        self.lemma_fc_slots();
        assert(self.face_flippable(g));
        let r = self.face_ring(g);
        assert(self.he_live(r[j]));
        if let Some(g2) = self.face_of(self.twin_of(Some(r[j]))) {
            assert(self.fc_live(g2));
        }
    }

    /// Across the `j`-th edge of face `f`, the mark of the face on the other side differs from that of `f`
    /// exactly when the two faces are oriented the other way.
    pub open spec fn mark_agrees(&self, f: FaceID, j: int, marks: Seq<Option<bool>>) -> bool {
        match self.face_of(self.twin_of(Some(self.face_ring(f)[j]))) {
            Some(g) => marks[g.index() as int] == Some(marks[f.index() as int]->0 != self.is_opposite(self.face_ring(f)[j])),
            None => true,
        }
    }

    /// The marks agree across every edge between two faces of the mesh.
    pub open spec fn marks_agree(&self, marks: Seq<Option<bool>>) -> bool {
        forall|f: FaceID, j: int| self.fc_live(f) && 0 <= j < 3 ==> #[trigger] self.mark_agrees(f, j, marks)
    }

    /// The half-edge is one of the three of its face.
    pub open spec fn in_own_ring(&self, h: HalfEdgeID) -> bool {
        exists|i: int| 0 <= i < 3 && #[trigger] self.face_ring(self.face_of(Some(h))->0)[i] == h
    }

    /// The faces can be oriented alike: every half-edge with a face is one of the three of its face, and the
    /// faces can be marked so that the marks agree across every edge.
    pub open spec fn orientable(&self) -> bool {
        &&& forall|h: HalfEdgeID| self.he_live(h) && self.face_of(Some(h)) is Some ==> #[trigger] self.in_own_ring(h)
        &&& exists|s: Seq<Option<bool>>| #[trigger] self.marks_all_faces(s) && self.marks_agree(s)
    }

    /// Whether the half-edge and its twin point to the same vertex, that is, whether the face across the edge
    /// is oriented the other way.
    pub open spec fn is_opposite(&self, h: HalfEdgeID) -> bool {
        self.vertex_of(Some(h)) == self.vertex_of(self.twin_of(Some(h)))
    }

    /// Marks the faces reached from the given face across edges, each with whether it is to be flipped: a face
    /// oriented the other way than the face it is reached from gets the opposite mark. Faces that are already
    /// marked are left as they are.
    fn find_faces_to_flip_orientation(&self, face_id: FaceID, visited: &mut Vec<Option<bool>>, should_flip: bool,
        Ghost(s): Ghost<Seq<Option<bool>>>, Ghost(k): Ghost<bool>)
        requires
            self.wf(),
            self.faces_flippable(),
            self.fc_live(face_id),
            old(visited)@.len() == self.fc_slot_count(),
        ensures
            final(visited)@.len() == old(visited)@.len(),
            forall|k: int| 0 <= k < old(visited)@.len() && (#[trigger] old(visited)@[k]) is Some ==> final(visited)@[k] == old(visited)@[k],
            old(visited)@[face_id.index() as int] is None ==> final(visited)@[face_id.index() as int] == Some(should_flip),
            forall|g: FaceID| g.index() < old(visited)@.len() && (#[trigger] final(visited)@[g.index() as int]) is Some
                && old(visited)@[g.index() as int] is None ==> {
                &&& self.fc_live(g)
                &&& forall|i: int| 0 <= i < 3 ==> #[trigger] self.neighbour_marked(g, i, final(visited)@)
            },
            count_unset(final(visited)@) <= count_unset(old(visited)@),
            self.valid() && !should_flip && (forall|k: int| 0 <= k < old(visited)@.len() ==> #[trigger] old(visited)@[k] != Some(true))
                ==> forall|k: int| 0 <= k < final(visited)@.len() ==> #[trigger] final(visited)@[k] != Some(true),
            self.marks_all_faces(s) && self.marks_agree(s) && should_flip == (s[face_id.index() as int]->0 != k)
                ==> forall|g: FaceID| g.index() < old(visited)@.len() && (#[trigger] final(visited)@[g.index() as int]) is Some
                    && old(visited)@[g.index() as int] is None ==> final(visited)@[g.index() as int] == Some(s[g.index() as int]->0 != k),
        decreases count_unset(old(visited)@),
    {
        proof {
            self.lemma_wf();
            self.lemma_fc_slots();
        }
        let ghost start = visited@;
        if visited[face_id.get() as usize].is_none() {
            visited.set(face_id.get() as usize, Some(should_flip));
            proof {
                lemma_count_unset_update(start, face_id.index() as int, should_flip);
                assert forall|g: FaceID| g.index() < start.len() && (#[trigger] visited@[g.index() as int]) is Some
                    && start[g.index() as int] is None implies g == face_id by {
                    FaceID::lemma_index_injective(g, face_id);
                }
                assert(self.face_flippable(face_id));
                self.lemma_wf();
            }
            let ring = self.face_halfedge_iter(face_id);
            let mut i: usize = 0;
            while i < 3
                invariant
                    self.faces_flippable(),
                    self.wf(),
                    self.fc_live(face_id),
                    ring@ == self.face_ring(face_id),
                    0 <= i <= 3,
                    visited@.len() == start.len(),
                    start.len() == self.fc_slot_count(),
                    start[face_id.index() as int] is None,
                    start == old(visited)@,
                    visited@[face_id.index() as int] == Some(should_flip),
                    forall|k: int| 0 <= k < start.len() && (#[trigger] start[k]) is Some ==> visited@[k] == start[k],
                    forall|g: FaceID| g.index() < start.len() && (#[trigger] visited@[g.index() as int]) is Some
                        && start[g.index() as int] is None && g != face_id ==> {
                        &&& self.fc_live(g)
                        &&& forall|j: int| 0 <= j < 3 ==> #[trigger] self.neighbour_marked(g, j, visited@)
                    },
                    forall|j: int| 0 <= j < i ==> #[trigger] self.neighbour_marked(face_id, j, visited@),
                    count_unset(visited@) < count_unset(start),
                    self.valid() && !should_flip && (forall|k: int| 0 <= k < start.len() ==> #[trigger] start[k] != Some(true))
                        ==> forall|k: int| 0 <= k < visited@.len() ==> #[trigger] visited@[k] != Some(true),
                    self.marks_all_faces(s) && self.marks_agree(s) && should_flip == (s[face_id.index() as int]->0 != k)
                        ==> forall|g: FaceID| g.index() < start.len() && (#[trigger] visited@[g.index() as int]) is Some
                            && start[g.index() as int] is None ==> visited@[g.index() as int] == Some(s[g.index() as int]->0 != k),
                decreases 3 - i,
            {
                let halfedge_id = ring[i];
                proof {
                    self.lemma_neighbour_flippable(face_id, i as int);
                }
                let walker = self.walker_from_halfedge(halfedge_id);
                proof { walker.lemma_reads(self); }
                let vertex_id = walker.vertex_id();
                let walker = walker.into_twin();
                proof {
                    walker.lemma_reads(self);
                    self.lemma_wf();
                }
                if let Some(face_id_to_test) = walker.face_id() {
                    let is_opposite = vertex_id == walker.vertex_id();
                    proof {
                        if self.valid() {
                            self.lemma_halfedge_ok(halfedge_id);
                        }
                    }
                    let ghost before = visited@;
                    proof { assert(count_unset(visited@) < count_unset(old(visited)@)); }
                    proof {
                        if self.marks_all_faces(s) && self.marks_agree(s) {
                            assert(self.mark_agrees(face_id, i as int, s));
                            assert(s[face_id.index() as int] is Some);
                        }
                    }
                    self.find_faces_to_flip_orientation(face_id_to_test, visited, is_opposite && !should_flip || !is_opposite && should_flip,
                        Ghost(s), Ghost(k));
                    proof {
                        assert forall|k: int| 0 <= k < start.len() && (#[trigger] start[k]) is Some implies visited@[k] == start[k] by {
                            assert(before[k] == start[k]);
                        }
                        assert forall|j: int| 0 <= j < i + 1 implies #[trigger] self.neighbour_marked(face_id, j, visited@) by {
                            if j < i {
                                assert(self.neighbour_marked(face_id, j, before));
                                self.lemma_neighbour_flippable(face_id, j);
                            }
                        }
                        assert forall|g: FaceID| g.index() < start.len() && (#[trigger] visited@[g.index() as int]) is Some
                            && start[g.index() as int] is None && g != face_id implies {
                            &&& self.fc_live(g)
                            &&& forall|j: int| 0 <= j < 3 ==> #[trigger] self.neighbour_marked(g, j, visited@)
                        } by {
                            if before[g.index() as int] is Some {
                                assert forall|j: int| 0 <= j < 3 implies #[trigger] self.neighbour_marked(g, j, visited@) by {
                                    assert(self.neighbour_marked(g, j, before));
                                    self.lemma_neighbour_flippable(g, j);
                                }
                            }
                        }
                    }
                }
                i += 1;
            }
            proof {
                assert forall|g: FaceID| g.index() < start.len() && (#[trigger] visited@[g.index() as int]) is Some
                    && start[g.index() as int] is None implies {
                    &&& self.fc_live(g)
                    &&& forall|j: int| 0 <= j < 3 ==> #[trigger] self.neighbour_marked(g, j, visited@)
                } by {
                    if g == face_id {
                    }
                }
            }
        }
    }

    /// The faces across the edges of a marked face are marked.
    pub open spec fn marks_closed(&self, marks: Seq<Option<bool>>) -> bool {
        forall|g: FaceID, j: int| g.index() < marks.len() && marks[g.index() as int] is Some && 0 <= j < 3
            ==> #[trigger] self.neighbour_marked(g, j, marks)
    }

    /// Each marked face is marked as the witness `s` marks it, turned over where `kk` says; `kk` is the same for
    /// two faces across an edge.
    pub open spec fn marks_follow(&self, marks: Seq<Option<bool>>, s: Seq<Option<bool>>, kk: Seq<bool>) -> bool {
        &&& kk.len() == marks.len()
        &&& forall|g: FaceID| g.index() < marks.len() && (#[trigger] marks[g.index() as int]) is Some
            ==> marks[g.index() as int] == Some(s[g.index() as int]->0 != kk[g.index() as int])
        &&& self.turns_agree(marks, kk)
    }

    /// Two marked faces across an edge share their turn in `kk`.
    pub open spec fn turns_agree(&self, marks: Seq<Option<bool>>, kk: Seq<bool>) -> bool {
        forall|g: FaceID, j: int| #![trigger self.neighbour_marked(g, j, marks)]
            g.index() < marks.len() && marks[g.index() as int] is Some && 0 <= j < 3
            && self.face_of(self.twin_of(Some(self.face_ring(g)[j]))) is Some && self.neighbour_marked(g, j, marks)
            ==> kk[self.face_of(self.twin_of(Some(self.face_ring(g)[j])))->0.index() as int] == kk[g.index() as int]
    }

    /// One run of [Mesh::find_faces_to_flip_orientation] from the top keeps the marks closed.
    proof fn lemma_marks_closed_step(m: Mesh<T>, before: Seq<Option<bool>>, after: Seq<Option<bool>>)
        requires
            m.wf(),
            m.faces_flippable(),
            before.len() == m.fc_slot_count(),
            after.len() == before.len(),
            m.marks_closed(before),
            forall|g: FaceID| g.index() < before.len() && (#[trigger] before[g.index() as int]) is Some ==> m.fc_live(g),
            forall|k: int| 0 <= k < before.len() && (#[trigger] before[k]) is Some ==> after[k] == before[k],
            forall|g: FaceID| g.index() < before.len() && (#[trigger] after[g.index() as int]) is Some
                && before[g.index() as int] is None ==> {
                &&& m.fc_live(g)
                &&& forall|i: int| 0 <= i < 3 ==> #[trigger] m.neighbour_marked(g, i, after)
            },
        ensures
            m.marks_closed(after),
    {
        m.lemma_wf();
        m.lemma_fc_slots();
        assert forall|g: FaceID, j: int| g.index() < before.len() && after[g.index() as int] is Some && 0 <= j < 3
            implies #[trigger] m.neighbour_marked(g, j, after) by {
            if before[g.index() as int] is Some {
                m.lemma_neighbour_flippable(g, j);
                assert(m.neighbour_marked(g, j, before));
            }
        }
    }

    /// After one run from the top, two marked faces across an edge were marked in the same run, and so share
    /// the turn in `kk`.
    proof fn lemma_turns_step(m: Mesh<T>, before: Seq<Option<bool>>, after: Seq<Option<bool>>, kk0: Seq<bool>,
        kk: Seq<bool>, kc: bool)
        requires
            m.wf(),
            m.faces_flippable(),
            before.len() == m.fc_slot_count(),
            after.len() == before.len(),
            m.marks_closed(before),
            forall|k: int| 0 <= k < before.len() && (#[trigger] before[k]) is Some ==> after[k] == before[k],
            forall|g: FaceID| g.index() < before.len() && (#[trigger] after[g.index() as int]) is Some
                && before[g.index() as int] is None ==> {
                &&& m.fc_live(g)
                &&& forall|i: int| 0 <= i < 3 ==> #[trigger] m.neighbour_marked(g, i, after)
            },
            forall|g: FaceID| g.index() < before.len() && (#[trigger] before[g.index() as int]) is Some ==> m.fc_live(g),
            m.orientable(),
            kk0.len() == before.len(),
            m.turns_agree(before, kk0),
            kk == Seq::new(before.len(), |x: int| if before[x] is None && after[x] is Some { kc } else { kk0[x] }),
        ensures
            m.turns_agree(after, kk),
    {
        assert forall|g: FaceID, j: int| #![trigger m.neighbour_marked(g, j, after)]
            g.index() < after.len() && after[g.index() as int] is Some && 0 <= j < 3
            && m.face_of(m.twin_of(Some(m.face_ring(g)[j]))) is Some && m.neighbour_marked(g, j, after)
            implies kk[m.face_of(m.twin_of(Some(m.face_ring(g)[j])))->0.index() as int] == kk[g.index() as int] by {
            Self::lemma_turn_pair(m, before, after, kk0, kk, kc, g, j);
        }
    }

    /// The faces on the two sides of the `j`-th edge of the marked face `g` share their turn.
    proof fn lemma_turn_pair(m: Mesh<T>, before: Seq<Option<bool>>, after: Seq<Option<bool>>, kk0: Seq<bool>,
        kk: Seq<bool>, kc: bool, g: FaceID, j: int)
        requires
            m.wf(),
            m.faces_flippable(),
            before.len() == m.fc_slot_count(),
            after.len() == before.len(),
            m.marks_closed(before),
            forall|k: int| 0 <= k < before.len() && (#[trigger] before[k]) is Some ==> after[k] == before[k],
            forall|g: FaceID| g.index() < before.len() && (#[trigger] after[g.index() as int]) is Some
                && before[g.index() as int] is None ==> {
                &&& m.fc_live(g)
                &&& forall|i: int| 0 <= i < 3 ==> #[trigger] m.neighbour_marked(g, i, after)
            },
            forall|g: FaceID| g.index() < before.len() && (#[trigger] before[g.index() as int]) is Some ==> m.fc_live(g),
            m.orientable(),
            kk0.len() == before.len(),
            m.turns_agree(before, kk0),
            kk == Seq::new(before.len(), |x: int| if before[x] is None && after[x] is Some { kc } else { kk0[x] }),
            g.index() < after.len(),
            after[g.index() as int] is Some,
            0 <= j < 3,
            m.face_of(m.twin_of(Some(m.face_ring(g)[j]))) is Some,
        ensures
            kk[m.face_of(m.twin_of(Some(m.face_ring(g)[j])))->0.index() as int] == kk[g.index() as int],
    {
        m.lemma_wf();
        m.lemma_fc_slots();
        let g2 = m.face_of(m.twin_of(Some(m.face_ring(g)[j])))->0;
        assert(m.fc_live(g));
        m.lemma_neighbour_flippable(g, j);
        assert(g2.index() < before.len());
        if before[g.index() as int] is Some {
            assert(m.neighbour_marked(g, j, before));
            assert(before[g2.index() as int] is Some);
            assert(kk[g.index() as int] == kk0[g.index() as int]);
            assert(kk[g2.index() as int] == kk0[g2.index() as int]);
        } else {
            assert(m.neighbour_marked(g, j, after));
            assert(kk[g.index() as int] == kc);
            if before[g2.index() as int] is Some {
                assert(m.face_flippable(g));
                let h = m.face_ring(g)[j];
                let t = m.twin_of(Some(h))->0;
                assert(m.he_live(h));
                assert(m.he_live(t));
                assert(m.in_own_ring(t));
                let i2 = choose|i2: int| 0 <= i2 < 3 && #[trigger] m.face_ring(m.face_of(Some(t))->0)[i2] == t;
                assert(m.twin_of(Some(t)) == Some(h));
                assert(m.neighbour_marked(g2, i2, before));
                assert(false);
            }
            assert(after[g2.index() as int] is Some);
            assert(kk[g2.index() as int] == kc);
        }
    }

    /// Marks that follow a witness turned over alike across every edge agree across every edge.
    proof fn lemma_marks_agree(m: Mesh<T>, marks: Seq<Option<bool>>, wit: Seq<Option<bool>>, kk: Seq<bool>)
        requires
            m.wf(),
            m.faces_flippable(),
            m.marks_all_faces(marks),
            m.marks_closed(marks),
            m.marks_all_faces(wit),
            m.marks_agree(wit),
            m.marks_follow(marks, wit, kk),
        ensures
            m.marks_agree(marks),
    {
        m.lemma_wf();
        m.lemma_fc_slots();
        assert forall|f: FaceID, j: int| m.fc_live(f) && 0 <= j < 3 implies #[trigger] m.mark_agrees(f, j, marks) by {
            m.lemma_neighbour_flippable(f, j);
            assert(marks[f.index() as int] is Some);
            assert(m.neighbour_marked(f, j, marks));
            assert(m.mark_agrees(f, j, wit));
            if let Some(g) = m.face_of(m.twin_of(Some(m.face_ring(f)[j]))) {
                assert(marks[g.index() as int] is Some);
                assert(wit[f.index() as int] is Some);
            }
        }
    }

    /// The marks are one per face slot, set exactly for the faces of the mesh.
    pub open spec fn marks_all_faces(&self, marks: Seq<Option<bool>>) -> bool {
        &&& marks.len() == self.fc_slot_count()
        &&& forall|g: FaceID| g.index() < marks.len() ==> ((#[trigger] marks[g.index() as int]) is Some <==> self.fc_live(g))
    }

    /// `self` is `m` with the faces that [Mesh::fix_orientation] marks to be flipped flipped, one after the other,
    /// in the order of their ids; the marks agree across every edge where the faces can be oriented alike.
    pub open spec fn is_orientation_fixed_of(&self, m: Mesh<T>) -> bool {
        exists|marks: Seq<Option<bool>>, flips: Seq<FaceID>, s: Seq<Mesh<T>>| {
            &&& m.marks_all_faces(marks)
            &&& m.orientable() ==> m.marks_agree(marks)
            &&& lists_in_order(flips, Set::new(|i: u32| i < marks.len() && marks[i as int] == Some(true)))
            &&& s.len() == flips.len() + 1
            &&& s[0] == m
            &&& s.last() == *self
            &&& forall|i: int| 0 <= i < flips.len() ==> #[trigger] s[i + 1].is_face_flipped_of(s[i], flips[i]) && s[i + 1].wf()
        }
    }

    /// Flip the orientation of faces so that the faces agree with their neighbours: the faces are visited from
    /// each face in the order of the ids, across edges, and a face reached from a face oriented the other way is
    /// marked to be flipped when that face is not, and the other way round; then the marked faces are flipped,
    /// in the order of their ids. The faces of a valid mesh already agree, and such a mesh is left as it is.
    /// Where the faces can be oriented alike ([Mesh::orientable]), the marks agree across every edge between
    /// two faces ([Mesh::marks_agree]).
    pub fn fix_orientation(&mut self)
        requires
            old(self).wf(),
            old(self).faces_flippable(),
        ensures
            final(self).wf(),
            final(self).faces() == old(self).faces(),
            final(self).is_orientation_fixed_of(*old(self)),
            old(self).valid() ==> *final(self) == *old(self),
    {
        let ghost m = *self;
        proof {
            self.lemma_wf();
            self.lemma_fc_slots();
        }
        let n = self.face_slot_count();
        let mut visited: Vec<Option<bool>> = Vec::new();
        let mut k: usize = 0;
        while k < n
            invariant
                k <= n,
                visited@.len() == k,
                forall|j: int| 0 <= j < k ==> (#[trigger] visited@[j]) is None,
            decreases n - k,
        {
            visited.push(None);
            k += 1;
        }
        let faces = self.face_iter();
        let ghost ok = m.orientable();
        let ghost wit = choose|w: Seq<Option<bool>>| #[trigger] m.marks_all_faces(w) && m.marks_agree(w);
        let ghost mut kk: Seq<bool> = Seq::new(n as nat, |x: int| false);
        let mut i: usize = 0;
        while i < faces.len()
            invariant
                self.faces_flippable(),
                self.wf(),
                *self == m,
                n == self.fc_slot_count(),
                lists_in_order(faces@, self.faces().dom()),
                i <= faces.len(),
                visited@.len() == n,
                kk.len() == n,
                forall|g: FaceID| g.index() < n && (#[trigger] visited@[g.index() as int]) is Some ==> self.fc_live(g),
                forall|j: int| 0 <= j < i ==> (#[trigger] visited@[faces@[j].index() as int]) is Some,
                self.valid() ==> forall|j: int| 0 <= j < n ==> #[trigger] visited@[j] != Some(true),
                m.marks_closed(visited@),
                ok == m.orientable(),
                ok ==> m.marks_all_faces(wit) && m.marks_agree(wit) && m.marks_follow(visited@, wit, kk),
            decreases faces.len() - i,
        {
            let ghost before = visited@;
            let ghost kk0 = kk;
            let ghost kc = wit[faces@[i as int].index() as int]->0;
            proof { self.lemma_wf(); assert(self.fc_live(faces@[i as int])); }
            self.find_faces_to_flip_orientation(faces[i], &mut visited, false, Ghost(wit), Ghost(kc));
            proof {
                self.lemma_fc_slots();
                self.lemma_wf();
                kk = Seq::new(n as nat, |x: int| if before[x] is None && visited@[x] is Some { kc } else { kk0[x] });
                assert(self.fc_live(faces@[i as int]));
                Self::lemma_marks_closed_step(m, before, visited@);
                if ok {
                    assert(m.marks_follow(before, wit, kk0));
                    Self::lemma_turns_step(m, before, visited@, kk0, kk, kc);
                    assert forall|g: FaceID| g.index() < n && (#[trigger] visited@[g.index() as int]) is Some
                        implies visited@[g.index() as int] == Some(wit[g.index() as int]->0 != kk[g.index() as int]) by {
                        if before[g.index() as int] is Some {
                            assert(before[g.index() as int] == Some(wit[g.index() as int]->0 != kk0[g.index() as int]));
                        }
                    }
                    assert(m.marks_follow(visited@, wit, kk));
                }

                assert forall|j: int| 0 <= j < i + 1 implies (#[trigger] visited@[faces@[j].index() as int]) is Some by {
                    assert(self.fc_live(faces@[j]));
                    if j < i {
                        assert(before[faces@[j].index() as int] is Some);
                    }
                }
                assert forall|g: FaceID| g.index() < n && (#[trigger] visited@[g.index() as int]) is Some implies self.fc_live(g) by {
                    if before[g.index() as int] is Some {
                        assert(self.fc_live(g));
                    }
                }
            }
            i += 1;
        }
        let ghost marks = visited@;
        proof {
            assert forall|g: FaceID| g.index() < marks.len() implies ((#[trigger] marks[g.index() as int]) is Some <==> self.fc_live(g)) by {
                if self.fc_live(g) {
                    let j = choose|j: int| 0 <= j < faces.len() && #[trigger] faces@[j].index() == g.index();
                    FaceID::lemma_index_injective(faces@[j], g);
                    assert(visited@[faces@[j].index() as int] is Some);
                }
            }
            assert(m.marks_all_faces(marks));
            if ok {
                Self::lemma_marks_agree(m, marks, wit, kk);
            }
        }
        let ghost mut s: Seq<Mesh<T>> = seq![*self];
        let ghost mut flips: Seq<FaceID> = Seq::empty();
        let mut k: usize = 0;
        while k < n
            invariant
                self.wf(),
                m.wf(),
                m.marks_all_faces(marks),
                m.orientable() ==> m.marks_agree(marks),
                visited@ == marks,
                n == marks.len(),
                k <= n,
                self.twins_paired(),
                self.faces() == m.faces(),
                forall|g: FaceID| k <= g.index() < n && m.fc_live(g) ==> #[trigger] self.face_flippable(g),
                lists_in_order(flips, Set::new(|i: u32| i < k && marks[i as int] == Some(true))),
                s.len() == flips.len() + 1,
                s[0] == m,
                s.last() == *self,
                forall|j: int| 0 <= j < flips.len() ==> #[trigger] s[j + 1].is_face_flipped_of(s[j], flips[j]) && s[j + 1].wf(),
                m.valid() ==> forall|j: int| 0 <= j < n ==> #[trigger] marks[j] != Some(true),
                m.valid() ==> *self == m,
            decreases n - k,
        {
            let ghost before = *self;
            let ghost flips0 = flips;
            let flip = match visited[k] {
                Some(b) => b,
                None => false,
            };
            if flip {
                proof { m.lemma_fc_slots_bound(); }
                let f = FaceID::new(k as u32);
                proof { assert(marks[f.index() as int] is Some); }
                self.flip_orientation_of_face(f);
                proof {
                    assert forall|g: FaceID| k + 1 <= g.index() < n && m.fc_live(g) implies #[trigger] self.face_flippable(g) by {
                        FaceID::lemma_index_injective(g, f);
                        Self::lemma_flip_keeps_flippable(before, *self, f, g);
                    }
                    Self::lemma_flip_keeps_paired(before, *self, f);
                    let s0 = s;
                    s = s.push(*self);
                    flips = flips.push(f);
                    assert forall|j: int| 0 <= j < flips.len() implies #[trigger] s[j + 1].is_face_flipped_of(s[j], flips[j]) && s[j + 1].wf() by {
                        if j < flips0.len() {
                            assert(s[j + 1] == s0[j + 1] && s[j] == s0[j] && flips[j] == flips0[j]);
                        }
                    }
                }
            }
            proof {
                let live = Set::new(|i: u32| i < k + 1 && marks[i as int] == Some(true));
                assert forall|j: int| 0 <= j < flips.len() implies live.contains(#[trigger] flips[j].index()) by {
                    if j < flips0.len() {
                        assert(flips[j] == flips0[j]);
                    }
                }
                assert forall|i: u32| live.contains(i) implies exists|j: int| 0 <= j < flips.len() && #[trigger] flips[j].index() == i by {
                    if i < k {
                        assert(Set::new(|i: u32| i < k && marks[i as int] == Some(true)).contains(i));
                        let j = choose|j: int| 0 <= j < flips0.len() && #[trigger] flips0[j].index() == i;
                        assert(flips[j] == flips0[j]);
                    } else {
                        assert(flips[flips.len() - 1].index() == i);
                    }
                }
                assert forall|a: int, b: int| 0 <= a < b < flips.len() implies flips[a].index() < flips[b].index() by {
                    if b < flips0.len() {
                        assert(flips[a] == flips0[a] && flips[b] == flips0[b]);
                    } else {
                        assert(flips[a] == flips0[a]);
                    }
                }
                assert forall|g: FaceID| k + 1 <= g.index() < n && m.fc_live(g) implies #[trigger] self.face_flippable(g) by {
                    if !flip {
                        assert(before.face_flippable(g));
                    }
                }
            }
            k += 1;
        }
        proof {
            assert(Set::new(|i: u32| i < n && marks[i as int] == Some(true)) =~= Set::new(|i: u32| i < marks.len() && marks[i as int] == Some(true)));
            assert(m.marks_all_faces(marks));
            assert(lists_in_order(flips, Set::new(|i: u32| i < marks.len() && marks[i as int] == Some(true))));
            assert(s.len() == flips.len() + 1 && s[0] == m && s.last() == *self);
            assert(forall|j: int| 0 <= j < flips.len() ==> #[trigger] s[j + 1].is_face_flipped_of(s[j], flips[j]) && s[j + 1].wf());
            assert(exists|mk: Seq<Option<bool>>, fl: Seq<FaceID>, ss: Seq<Mesh<T>>| {
                &&& m.marks_all_faces(mk)
                &&& m.orientable() ==> m.marks_agree(mk)
                &&& lists_in_order(fl, Set::new(|i: u32| i < mk.len() && mk[i as int] == Some(true)))
                &&& ss.len() == fl.len() + 1
                &&& ss[0] == m
                &&& ss.last() == *self
                &&& forall|j: int| 0 <= j < fl.len() ==> #[trigger] ss[j + 1].is_face_flipped_of(ss[j], fl[j]) && ss[j + 1].wf()
            }) by {
                assert(s[0] == m);
            }
            assert(self.is_orientation_fixed_of(m));
        }
    }
}

} // verus!
