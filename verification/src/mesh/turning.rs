//! Turning every face of a valid mesh around keeps it valid.
use vstd::prelude::*;
use crate::ids::{FaceID, HalfEdgeID, VertexID, ID};
use super::Mesh;
use super::connectivity_info::{HalfEdge, Vertex};

verus! {

impl<T: Copy> Mesh<T> {
    /// Where the half-edge points once every face is turned around: a half-edge of a face points where it
    /// started, a half-edge without face across from a face points the other way, and any other keeps its vertex.
    pub open spec fn turned_vertex(&self, h: HalfEdgeID) -> Option<VertexID> {
        if self.face_of(Some(h)) is Some {
            self.vertex_of(self.previous_of(Some(h)))
        } else if self.face_of(self.twin_of(Some(h))) is Some {
            self.vertex_of(self.twin_of(Some(h)))
        } else {
            self.vertex_of(Some(h))
        }
    }

    /// Whether the half-edge is turned once the faces of `done` are: it lies in one of them, or it has no face and
    /// its twin lies in one of them.
    pub open spec fn turned_by(&self, done: Set<FaceID>, h: HalfEdgeID) -> bool {
        ||| (self.face_of(Some(h)) matches Some(f) && done.contains(f))
        ||| (self.face_of(Some(h)) is None && (self.face_of(self.twin_of(Some(h))) matches Some(g) && done.contains(g)))
    }

    /// Whether the vertex is one of the three of a face of `done`.
    pub open spec fn touched_by(&self, done: Set<FaceID>, v: VertexID) -> bool {
        exists|f: FaceID, i: int| #![trigger done.contains(f), self.face_ring(f)[i]]
            done.contains(f) && self.fc_live(f) && 0 <= i < 3 && self.vertex_of(Some(self.face_ring(f)[i])) == Some(v)
    }

    /// `self` is `m` with the faces of `done` turned around: their half-edges point where they started and are
    /// followed by the half-edge before them, the half-edges without face across from them are turned too, and
    /// each vertex of them names a half-edge that starts in it once every face is turned; all else is as in `m`.
    pub open spec fn is_partly_turned_of(&self, m: Mesh<T>, done: Set<FaceID>) -> bool {
        &&& self.wf()
        &&& self.faces() == m.faces()
        &&& forall|h: HalfEdgeID| #[trigger] self.he_live(h) == m.he_live(h)
        &&& forall|h: HalfEdgeID| m.he_live(h) ==> #[trigger] self.he(h) == Some(HalfEdge {
            vertex: if m.turned_by(done, h) { m.turned_vertex(h) } else { m.vertex_of(Some(h)) },
            next: if m.face_of(Some(h)) matches Some(f) && done.contains(f) { m.previous_of(Some(h)) } else { m.next_of(Some(h)) },
            ..m.he(h)->0
        })
        &&& forall|v: VertexID| #[trigger] self.vx_live(v) == m.vx_live(v)
        &&& forall|v: VertexID| m.vx_live(v) ==> {
            &&& (#[trigger] self.vx(v)) is Some
            &&& self.vx(v)->0.position == m.vx(v)->0.position
            &&& if m.touched_by(done, v) {
                self.vertex_halfedge_of(v) matches Some(g) && m.he_live(g)
                    && m.turned_vertex(m.twin_of(Some(g))->0) == Some(v)
            } else {
                self.vertex_halfedge_of(v) == m.vertex_halfedge_of(v)
            }
        }
    }
    /// Turning one more face of a valid mesh around, on top of the faces of `done`, gives the mesh with the
    /// faces of `done` and that face turned.
    #[verifier::rlimit(80)]
    pub proof fn lemma_turn_step(m: Mesh<T>, s: Mesh<T>, s2: Mesh<T>, done: Set<FaceID>, f: FaceID)
        requires
            m.valid(),
            s.is_partly_turned_of(m, done),
            m.fc_live(f),
            !done.contains(f),
            s2.wf(),
            s2.is_face_flipped_of(s, f),
        ensures
            s2.is_partly_turned_of(m, done.insert(f)),
    {
        let done2 = done.insert(f);
        m.lemma_valid_wf();
        m.lemma_wf();
        s.lemma_wf();
        s2.lemma_wf();
        m.lemma_valid_flippable();
        assert(m.face_flippable(f));
        m.lemma_face_ok(f);
        let r = m.face_ring(f);
        let (x1, x2, x3) = (r[0], r[1], r[2]);
        let (t1, t2, t3) = (m.twin_of(Some(x1))->0, m.twin_of(Some(x2))->0, m.twin_of(Some(x3))->0);
        let (w1, w2, w3) = (m.vertex_of(Some(x1))->0, m.vertex_of(Some(x2))->0, m.vertex_of(Some(x3))->0);
        assert(m.he_live(x1) && m.he_live(x2) && m.he_live(x3));
        m.lemma_triangle(x1);
        m.lemma_triangle(x2);
        m.lemma_triangle(x3);
        m.lemma_halfedge_ok(t1);
        m.lemma_halfedge_ok(t2);
        m.lemma_halfedge_ok(t3);
        if m.face_of(Some(t1)) is Some { m.lemma_triangle(t1); }
        if m.face_of(Some(t2)) is Some { m.lemma_triangle(t2); }
        if m.face_of(Some(t3)) is Some { m.lemma_triangle(t3); }
        // The face is untouched in `s`.
        assert(s.fc(f) == m.fc(f));
        assert(s.he(x1) == m.he(x1) && s.he(x2) == m.he(x2) && s.he(x3) == m.he(x3));
        assert(s.face_ring(f) == r);
        assert forall|h: HalfEdgeID| m.he_live(h) && m.face_of(Some(h)) == Some(f) implies (h == x1 || h == x2 || h == x3) by {
            m.lemma_face_members(x1, h);
        }
        // Half-edges.
        assert(s.he_live(x1) && s.he_live(x2) && s.he_live(x3) && s.he_live(t1) && s.he_live(t2) && s.he_live(t3));
        assert(s.vx_live(w1) && s.vx_live(w2) && s.vx_live(w3));
        assert forall|h: HalfEdgeID| #[trigger] s2.he_live(h) == m.he_live(h) by {
            assert(s.he_live(h) == m.he_live(h));
        }
        assert forall|h: HalfEdgeID| m.he_live(h) implies #[trigger] s2.he(h) == Some(HalfEdge {
            vertex: if m.turned_by(done2, h) { m.turned_vertex(h) } else { m.vertex_of(Some(h)) },
            next: if m.face_of(Some(h)) matches Some(g) && done2.contains(g) { m.previous_of(Some(h)) } else { m.next_of(Some(h)) },
            ..m.he(h)->0
        }) by {
            HalfEdgeID::lemma_index_injective(h, x1);
            HalfEdgeID::lemma_index_injective(h, x2);
            HalfEdgeID::lemma_index_injective(h, x3);
            HalfEdgeID::lemma_index_injective(h, t1);
            HalfEdgeID::lemma_index_injective(h, t2);
            HalfEdgeID::lemma_index_injective(h, t3);
            m.lemma_halfedge_ok(h);
            let th = m.twin_of(Some(h))->0;
            if m.face_of(Some(th)) == Some(f) {
                assert(th == x1 || th == x2 || th == x3);
            }
            assert(s.he_live(h) && s2.he_live(h));
            assert(s2.halfedges()[h.index()] == s2.he(h)->0);
            assert(s.halfedges()[h.index()] == s.he(h)->0);
        }
        // Vertices.
        assert forall|v: VertexID| #[trigger] s2.vx_live(v) == m.vx_live(v) by {
            assert(s.vx_live(v) == m.vx_live(v));
        }
        assert(m.touched_by(done2, w1)) by { assert(done2.contains(f) && r[0] == x1); }
        assert(m.touched_by(done2, w2)) by { assert(done2.contains(f) && r[1] == x2); }
        assert(m.touched_by(done2, w3)) by { assert(done2.contains(f) && r[2] == x3); }
        assert forall|v: VertexID| m.vx_live(v) implies {
            &&& (#[trigger] s2.vx(v)) is Some
            &&& s2.vx(v)->0.position == m.vx(v)->0.position
            &&& if m.touched_by(done2, v) {
                s2.vertex_halfedge_of(v) matches Some(g) && m.he_live(g)
                    && m.turned_vertex(m.twin_of(Some(g))->0) == Some(v)
            } else {
                s2.vertex_halfedge_of(v) == m.vertex_halfedge_of(v)
            }
        } by {
            VertexID::lemma_index_injective(v, w1);
            VertexID::lemma_index_injective(v, w2);
            VertexID::lemma_index_injective(v, w3);
            assert(s.vx_live(v) && s2.vx_live(v));
            assert(s2.vertices()[v.index()] == s2.vx(v)->0);
            assert(s.vertices()[v.index()] == s.vx(v)->0);
            if v != w1 && v != w2 && v != w3 && m.touched_by(done2, v) {
                let (g, i) = choose|g: FaceID, i: int| #![trigger done2.contains(g), m.face_ring(g)[i]]
                    done2.contains(g) && m.fc_live(g) && 0 <= i < 3 && m.vertex_of(Some(m.face_ring(g)[i])) == Some(v);
                if g == f {
                    assert(i == 0 || i == 1 || i == 2);
                }
                assert(done.contains(g) && m.face_ring(g)[i] == m.face_ring(g)[i]);
                assert(m.touched_by(done, v));
            }
            if !m.touched_by(done2, v) && m.touched_by(done, v) {
                let (g, i) = choose|g: FaceID, i: int| #![trigger done.contains(g), m.face_ring(g)[i]]
                    done.contains(g) && m.fc_live(g) && 0 <= i < 3 && m.vertex_of(Some(m.face_ring(g)[i])) == Some(v);
                assert(done2.contains(g) && m.face_ring(g)[i] == m.face_ring(g)[i]);
            }
        }
    }
    /// A mesh is itself with no face turned.
    pub proof fn lemma_turn_none(m: Mesh<T>)
        requires
            m.valid(),
        ensures
            m.is_partly_turned_of(m, Set::empty()),
    {
        m.lemma_valid_wf();
        m.lemma_wf();
        assert forall|v: VertexID| m.vx_live(v) implies !m.touched_by(Set::empty(), v) by {}
    }

    /// A half-edge of a face of a valid mesh is one of the three that the face's ring lists.
    proof fn lemma_in_ring(m: Mesh<T>, y: HalfEdgeID)
        requires
            m.valid(),
            m.he_live(y),
            m.face_of(Some(y)) is Some,
        ensures
            exists|i: int| 0 <= i < 3 && #[trigger] m.face_ring(m.face_of(Some(y))->0)[i] == y,
    {
        m.lemma_valid_flippable();
        let g = m.face_of(Some(y))->0;
        m.lemma_halfedge_ok(y);
        assert(m.face_flippable(g));
        let r = m.face_ring(g);
        m.lemma_face_members(r[0], y);
        if y == r[0] {
            assert(m.face_ring(g)[0] == y);
        } else if Some(y) == m.next_of(Some(r[0])) {
            assert(m.face_ring(g)[1] == y);
        } else {
            assert(m.face_ring(g)[2] == y);
        }
    }

    /// Once every face of a valid mesh is turned around, the mesh is valid.
    pub proof fn lemma_turned_valid(m: Mesh<T>, s: Mesh<T>, done: Set<FaceID>)
        requires
            m.valid(),
            s.is_partly_turned_of(m, done),
            forall|g: FaceID| #[trigger] done.contains(g) <==> m.fc_live(g),
        ensures
            s.valid(),
    {
        m.lemma_valid_wf();
        m.lemma_wf();
        s.lemma_wf();
        m.lemma_valid_flippable();
        // Where each half-edge of `s` points.
        assert forall|h: HalfEdgeID| m.he_live(h) implies #[trigger] s.vertex_of(Some(h)) == (if m.face_of(Some(h)) is Some {
            m.vertex_of(m.twin_of(Some(h)))
        } else if m.face_of(m.twin_of(Some(h))) is Some {
            m.vertex_of(m.twin_of(Some(h)))
        } else {
            m.vertex_of(Some(h))
        }) by {
            m.lemma_halfedge_ok(h);
            let t = m.twin_of(Some(h))->0;
            m.lemma_halfedge_ok(t);
            assert(s.he(h) == Some(HalfEdge {
                vertex: if m.turned_by(done, h) { m.turned_vertex(h) } else { m.vertex_of(Some(h)) },
                next: if m.face_of(Some(h)) matches Some(f) && done.contains(f) { m.previous_of(Some(h)) } else { m.next_of(Some(h)) },
                ..m.he(h)->0
            }));
            if m.face_of(Some(h)) is Some {
                m.lemma_triangle(h);
                assert(done.contains(m.face_of(Some(h))->0));
            } else if m.face_of(Some(t)) is Some {
                assert(done.contains(m.face_of(Some(t))->0));
            }
        }
        assert forall|h: HalfEdgeID| #[trigger] s.he_live(h) implies s.halfedge_ok(h) by {
            m.lemma_halfedge_ok(h);
            let t = m.twin_of(Some(h))->0;
            m.lemma_halfedge_ok(t);
            if m.face_of(Some(h)) is Some {
                m.lemma_triangle(h);
                let n = m.next_of(Some(h))->0;
                let p = m.next_of(Some(n))->0;
                m.lemma_halfedge_ok(p);
                m.lemma_halfedge_ok(n);
                let tp = m.twin_of(Some(p))->0;
                m.lemma_halfedge_ok(tp);
                assert(s.vertex_of(Some(tp)) == m.vertex_of(Some(p)));
                assert(s.vertex_of(Some(t)) == m.vertex_of(Some(h)));
            }
            if m.face_of(Some(t)) is Some {
                m.lemma_triangle(t);
            }
        }
        assert forall|a: HalfEdgeID, b: HalfEdgeID| #[trigger] s.same_face_pair_ok(a, b) by {
            if s.he_live(a) && s.he_live(b) && s.face_of(Some(a)) is Some && s.face_of(Some(a)) == s.face_of(Some(b)) {
                m.lemma_face_members(a, b);
                m.lemma_triangle(a);
                let na = m.next_of(Some(a))->0;
                let pa = m.next_of(Some(na))->0;
                assert(s.he(pa) == Some(HalfEdge { vertex: m.turned_vertex(pa), next: m.previous_of(Some(pa)), ..m.he(pa)->0 }));
            }
        }
        assert forall|v: VertexID| s.vx_live(v) implies #[trigger] s.vertex_ok(v) by {
            m.lemma_vertex_ok(v);
            if m.touched_by(done, v) {
                let g = s.vertex_halfedge_of(v)->0;
                m.lemma_halfedge_ok(g);
                let tg = m.twin_of(Some(g))->0;
                m.lemma_halfedge_ok(tg);
            } else {
                let g = m.vertex_halfedge_of(v)->0;
                m.lemma_halfedge_ok(g);
                let tg = m.twin_of(Some(g))->0;
                m.lemma_halfedge_ok(tg);
                if m.face_of(Some(g)) is Some {
                    m.lemma_triangle(g);
                    let pg = m.previous_of(Some(g))->0;
                    m.lemma_halfedge_ok(pg);
                    Self::lemma_in_ring(m, pg);
                    let f = m.face_of(Some(pg))->0;
                    let i = choose|i: int| 0 <= i < 3 && #[trigger] m.face_ring(f)[i] == pg;
                    assert(done.contains(f) && m.face_ring(f)[i] == pg);
                    assert(false);
                }
                if m.face_of(Some(tg)) is Some {
                    Self::lemma_in_ring(m, tg);
                    let f = m.face_of(Some(tg))->0;
                    let i = choose|i: int| 0 <= i < 3 && #[trigger] m.face_ring(f)[i] == tg;
                    assert(done.contains(f) && m.face_ring(f)[i] == tg);
                    assert(false);
                }
            }
        }
        assert forall|g: FaceID| s.fc_live(g) implies #[trigger] s.face_ok(g) by {
            m.lemma_face_ok(g);
            assert(s.fc(g) == m.fc(g));
        }
        reveal(Mesh::valid);
    }
}

} // verus!
