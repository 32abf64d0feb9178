//! Splitting a vertex of a valid mesh along two of its edges gives a valid mesh, where the walk around the
//! vertex from the first edge reaches the second one.
use vstd::prelude::*;
use crate::ids::{HalfEdgeID, VertexID, ID};
use super::Mesh;
use super::connectivity_info::HalfEdge;

verus! {

impl<T: Copy> Mesh<T> {
    /// Whether `h` is one of the four half-edges of the edges of `start` and `end`, which a vertex split cuts open.
    pub open spec fn split_cut(&self, h: HalfEdgeID, start: HalfEdgeID, end: HalfEdgeID) -> bool {
        h == start || h == end || self.twin_of(Some(start)) == Some(h) || self.twin_of(Some(end)) == Some(h)
    }

    /// One step around the vertex that `x` points to: the twin of the next half-edge, unless that edge is cut open.
    pub open spec fn split_step(&self, x: HalfEdgeID, start: HalfEdgeID, end: HalfEdgeID) -> Option<HalfEdgeID> {
        match self.next_of(Some(x)) {
            Some(n) => if self.split_cut(n, start, end) { None } else { self.twin_of(Some(n)) },
            None => None,
        }
    }

    /// The half-edges that a split of the vertex along `start` and `end` moves to the new vertex, walking from
    /// `x`, at most `fuel` of them.
    pub open spec fn split_walk(&self, x: HalfEdgeID, start: HalfEdgeID, end: HalfEdgeID, fuel: nat) -> Seq<HalfEdgeID>
        decreases fuel,
    {
        if fuel == 0 {
            Seq::empty()
        } else {
            seq![x] + match self.split_step(x, start, end) {
                Some(y) => self.split_walk(y, start, end, (fuel - 1) as nat),
                None => Seq::empty(),
            }
        }
    }

    /// The walk from `start` around its vertex ends in front of the twin of `end`, and the half-edge that the
    /// vertex names is none of those that follow a moved half-edge around its face.
    pub open spec fn split_keeps_shape(&self, start: HalfEdgeID, end: HalfEdgeID) -> bool {
        let w = self.split_walk(start, start, end, self.walk_bound());
        let v = self.vertex_of(Some(start))->0;
        &&& self.next_of(Some(w.last())) == self.twin_of(Some(end))
        &&& forall|j: int| 0 <= j < w.len() ==> self.next_of(Some(#[trigger] w[j])) != self.vertex_halfedge_of(v)
    }

    /// Whether the half-edge is one of those of the walk.
    pub open spec fn in_walk(w: Seq<HalfEdgeID>, h: HalfEdgeID) -> bool {
        exists|j: int| 0 <= j < w.len() && w[j] == h
    }

    /// The twin of `h` once the vertex is split along `start` and `end`: the four half-edges of the two cut
    /// edges get the four new half-edges as twins.
    pub open spec fn split_new_twin(&self, h: HalfEdgeID, start: HalfEdgeID, end: HalfEdgeID) -> Option<HalfEdgeID> {
        if h == start {
            Some(self.nth_halfedge_id(0))
        } else if Some(h) == self.twin_of(Some(start)) {
            Some(self.nth_halfedge_id(1))
        } else if h == end {
            Some(self.nth_halfedge_id(2))
        } else if Some(h) == self.twin_of(Some(end)) {
            Some(self.nth_halfedge_id(3))
        } else {
            self.twin_of(Some(h))
        }
    }

    /// What a split of a vertex of a valid mesh does, half-edge by half-edge.
    proof fn lemma_vertex_split_shape(m: Mesh<T>, s: Mesh<T>, start: HalfEdgeID, end: HalfEdgeID)
        requires
            m.valid(),
            m.he_live(start),
            m.he_live(end),
            start != end,
            m.vertex_of(Some(start)) == m.vertex_of(Some(end)),
            m.room().0 >= 1,
            m.room().1 >= 4,
            s.wf(),
            s.is_vertex_split_of(m, start, end),
        ensures
            ({
                let rs = m.twin_of(Some(start))->0;
                let re = m.twin_of(Some(end))->0;
                let v = m.vertex_of(Some(start))->0;
                let nv = m.nth_vertex_id(0);
                let w = m.split_walk(start, start, end, m.walk_bound());
                &&& forall|h: HalfEdgeID| #[trigger] s.he_live(h) == (m.he_live(h) || h == m.nth_halfedge_id(0)
                    || h == m.nth_halfedge_id(1) || h == m.nth_halfedge_id(2) || h == m.nth_halfedge_id(3))
                &&& forall|h: HalfEdgeID| m.he_live(h) ==> #[trigger] s.he(h) == Some(HalfEdge {
                        vertex: if Self::in_walk(w, h) { Some(nv) } else { m.vertex_of(Some(h)) },
                        twin: m.split_new_twin(h, start, end),
                        ..m.he(h)->0
                    })
                &&& s.he(m.nth_halfedge_id(0)) == Some(HalfEdge { vertex: m.vertex_of(Some(rs)), twin: Some(start), next: None, face: None })
                &&& s.he(m.nth_halfedge_id(1)) == Some(HalfEdge { vertex: Some(v), twin: Some(rs), next: None, face: None })
                &&& s.he(m.nth_halfedge_id(2)) == Some(HalfEdge { vertex: m.vertex_of(Some(re)), twin: Some(end), next: None, face: None })
                &&& s.he(m.nth_halfedge_id(3)) == Some(HalfEdge { vertex: Some(nv), twin: Some(re), next: None, face: None })
                &&& forall|u: VertexID| #[trigger] s.vx_live(u) == (m.vx_live(u) || u == nv)
                &&& s.vertex_halfedge_of(nv) == Some(re)
                &&& forall|u: VertexID| m.vx_live(u) ==> #[trigger] s.vertex_halfedge_of(u) == m.vertex_halfedge_of(u)
                &&& forall|f: crate::ids::FaceID| #[trigger] s.fc_live(f) == m.fc_live(f)
                &&& forall|f: crate::ids::FaceID| m.fc_live(f) ==> #[trigger] s.fc(f) == m.fc(f)
            }),
    {
        m.lemma_valid_wf();
        m.lemma_wf();
        s.lemma_wf();
        m.lemma_nth_ids();
        m.lemma_halfedge_ok(start);
        m.lemma_halfedge_ok(end);
        let rs = m.twin_of(Some(start))->0;
        let re = m.twin_of(Some(end))->0;
        m.lemma_halfedge_ok(rs);
        m.lemma_halfedge_ok(re);
        let v = m.vertex_of(Some(start))->0;
        let nv = m.nth_vertex_id(0);
        let (z1, z2, z3, z4) = (m.nth_halfedge_id(0), m.nth_halfedge_id(1), m.nth_halfedge_id(2), m.nth_halfedge_id(3));
        let vs = m.vertex_of(Some(rs))->0;
        let ve = m.vertex_of(Some(re))->0;
        let w = m.split_walk(start, start, end, m.walk_bound());
        let mc = choose|mc: Mesh<T>| {
            &&& mc.wf()
            &&& mc.vertices() == m.vertices().insert(nv.index(), super::connectivity_info::Vertex { halfedge: Some(re), position: m.vertices()[v.index()].position })
            &&& #[trigger] mc.halfedges() == m.split_cut_halfedges(start, end)
            &&& s.halfedges() == Self::with_new_twin(Self::with_new_twin(Self::with_new_twin(Self::with_new_twin(
                    mc.moved_to(mc.incoming_walk(start, m.walk_bound()), nv),
                    start, z1, vs), rs, z2, v), end, z3, ve), re, z4, nv)
            &&& s.vertices() == mc.vertices()
            &&& s.faces() == m.faces()
        };
        Self::lemma_cut_walk(m, mc, start, end, start, m.walk_bound());
        Self::lemma_split_walk(m, start, start, end, m.walk_bound());
        // The indices involved are distinct.
        HalfEdgeID::lemma_index_injective(start, end);
        HalfEdgeID::lemma_index_injective(start, rs);
        HalfEdgeID::lemma_index_injective(start, re);
        HalfEdgeID::lemma_index_injective(end, rs);
        HalfEdgeID::lemma_index_injective(end, re);
        HalfEdgeID::lemma_index_injective(rs, re);
        assert(start != re && end != rs && rs != re);
        let m0 = mc.moved_to(w, nv);
        let m1 = Self::with_new_twin(m0, start, z1, vs);
        let m2 = Self::with_new_twin(m1, rs, z2, v);
        let m3 = Self::with_new_twin(m2, end, z3, ve);
        let m4 = Self::with_new_twin(m3, re, z4, nv);
        assert(s.halfedges() == m4);
        assert forall|h: HalfEdgeID| #[trigger] s.he_live(h) == (m.he_live(h) || h == z1 || h == z2 || h == z3 || h == z4) by {
            HalfEdgeID::lemma_index_injective(h, z1);
            HalfEdgeID::lemma_index_injective(h, z2);
            HalfEdgeID::lemma_index_injective(h, z3);
            HalfEdgeID::lemma_index_injective(h, z4);
            HalfEdgeID::lemma_index_injective(h, start);
            HalfEdgeID::lemma_index_injective(h, end);
            HalfEdgeID::lemma_index_injective(h, rs);
            HalfEdgeID::lemma_index_injective(h, re);
        }
        assert forall|h: HalfEdgeID| m.he_live(h) implies #[trigger] s.he(h) == Some(HalfEdge {
            vertex: if Self::in_walk(w, h) { Some(nv) } else { m.vertex_of(Some(h)) },
            twin: m.split_new_twin(h, start, end),
            ..m.he(h)->0
        }) by {
            HalfEdgeID::lemma_index_injective(h, z1);
            HalfEdgeID::lemma_index_injective(h, z2);
            HalfEdgeID::lemma_index_injective(h, z3);
            HalfEdgeID::lemma_index_injective(h, z4);
            HalfEdgeID::lemma_index_injective(h, start);
            HalfEdgeID::lemma_index_injective(h, end);
            HalfEdgeID::lemma_index_injective(h, rs);
            HalfEdgeID::lemma_index_injective(h, re);
            assert(s.he_live(h));
            assert forall|j: int| 0 <= j < w.len() implies ((#[trigger] w[j]).index() == h.index()) == (w[j] == h) by {
                HalfEdgeID::lemma_index_injective(w[j], h);
            }
            let mh = mc.halfedges()[h.index()];
            assert(mh == HalfEdge { twin: if m.split_cut(h, start, end) { None } else { m.twin_of(Some(h)) }, ..m.he(h)->0 });
            assert(m0[h.index()] == HalfEdge { vertex: if Self::in_walk(w, h) { Some(nv) } else { m.vertex_of(Some(h)) }, ..mh });
        }
        assert(s.he(z1) == Some(m4[z1.index()]));
        assert(s.he(z2) == Some(m4[z2.index()]));
        assert(s.he(z3) == Some(m4[z3.index()]));
        assert(s.he(z4) == Some(m4[z4.index()]));
        assert forall|u: VertexID| #[trigger] s.vx_live(u) == (m.vx_live(u) || u == nv) by {
            VertexID::lemma_index_injective(u, nv);
        }
        assert(s.vx_live(nv));
        assert forall|u: VertexID| m.vx_live(u) implies #[trigger] s.vertex_halfedge_of(u) == m.vertex_halfedge_of(u) by {
            VertexID::lemma_index_injective(u, nv);
            assert(s.vx_live(u));
        }
        assert forall|f: crate::ids::FaceID| m.fc_live(f) implies #[trigger] s.fc(f) == m.fc(f) by {
            assert(s.fc_live(f));
        }
    }

    /// In a valid mesh, where the walk from `start` reaches the twin of `end`: a half-edge of the walk other than
    /// `start` is the twin of the next half-edge of the one before it; and `end` is not on the walk.
    proof fn lemma_walk_back(m: Mesh<T>, start: HalfEdgeID, end: HalfEdgeID, t: HalfEdgeID)
        requires
            m.valid(),
            m.he_live(start),
            m.he_live(end),
            start != end,
            m.split_keeps_shape(start, end),
            Self::in_walk(m.split_walk(start, start, end, m.walk_bound()), t),
        ensures
            ({
                let w = m.split_walk(start, start, end, m.walk_bound());
                &&& m.he_live(t) && m.vertex_of(Some(t)) == m.vertex_of(Some(start))
                &&& t != end
                &&& t != start ==> exists|j: int| 0 <= j < w.len() - 1 && #[trigger] m.next_of(Some(w[j])) == m.twin_of(Some(t))
                    && m.twin_of(Some(t)) is Some && !m.split_cut(m.twin_of(Some(t))->0, start, end)
            }),
    {
        let w = m.split_walk(start, start, end, m.walk_bound());
        Self::lemma_split_walk(m, start, start, end, m.walk_bound());
        let i = choose|i: int| 0 <= i < w.len() && w[i] == t;
        if i > 0 {
            let j = i - 1;
            assert(m.split_step(w[j], start, end) == Some(w[j + 1]));
            let n = m.next_of(Some(w[j]))->0;
            m.lemma_halfedge_ok(w[j]);
            m.lemma_halfedge_ok(n);
            assert(m.twin_of(Some(t)) == Some(n));
            if t == end {
                assert(m.twin_of(Some(end)) == Some(n));
                assert(m.split_cut(n, start, end));
                assert(false);
            }
        }
    }

    /// Splitting a vertex of a valid mesh gives a valid mesh, where the walk from `start` around the vertex reaches
    /// the twin of `end` and the half-edge that the vertex names stays with it.
    pub proof fn lemma_vertex_split_keeps_valid(m: Mesh<T>, s: Mesh<T>, start: HalfEdgeID, end: HalfEdgeID)
        requires
            m.valid(),
            m.he_live(start),
            m.he_live(end),
            start != end,
            m.vertex_of(Some(start)) == m.vertex_of(Some(end)),
            m.room().0 >= 1,
            m.room().1 >= 4,
            m.split_keeps_shape(start, end),
            s.wf(),
            s.is_vertex_split_of(m, start, end),
        ensures
            s.valid(),
    {
        m.lemma_valid_wf();
        m.lemma_wf();
        s.lemma_wf();
        m.lemma_nth_ids();
        Self::lemma_vertex_split_shape(m, s, start, end);
        let w = m.split_walk(start, start, end, m.walk_bound());
        Self::lemma_split_walk(m, start, start, end, m.walk_bound());
        m.lemma_halfedge_ok(start);
        m.lemma_halfedge_ok(end);
        let rs = m.twin_of(Some(start))->0;
        let re = m.twin_of(Some(end))->0;
        m.lemma_halfedge_ok(rs);
        m.lemma_halfedge_ok(re);
        let v = m.vertex_of(Some(start))->0;
        let nv = m.nth_vertex_id(0);
        let (z1, z2, z3, z4) = (m.nth_halfedge_id(0), m.nth_halfedge_id(1), m.nth_halfedge_id(2), m.nth_halfedge_id(3));
        let vs = m.vertex_of(Some(rs))->0;
        let ve = m.vertex_of(Some(re))->0;
        let k = w.len() - 1;
        assert(w[0] == start);
        assert(Self::in_walk(w, start));
        assert(Self::in_walk(w, w[k]));
        assert(m.next_of(Some(w[k])) == Some(re));
        assert(start != re && end != rs && rs != re);
        // Where each half-edge of `s` points.
        assert forall|h: HalfEdgeID| m.he_live(h) implies #[trigger] s.vertex_of(Some(h))
            == (if Self::in_walk(w, h) { Some(nv) } else { m.vertex_of(Some(h)) }) by {
            assert(s.he(h) == Some(HalfEdge {
                vertex: if Self::in_walk(w, h) { Some(nv) } else { m.vertex_of(Some(h)) },
                twin: m.split_new_twin(h, start, end),
                ..m.he(h)->0
            }));
        }
        assert forall|h: HalfEdgeID| m.he_live(h) implies #[trigger] s.twin_of(Some(h)) == m.split_new_twin(h, start, end)
            && s.next_of(Some(h)) == m.next_of(Some(h)) && s.face_of(Some(h)) == m.face_of(Some(h)) by {
            assert(s.he(h) == Some(HalfEdge {
                vertex: if Self::in_walk(w, h) { Some(nv) } else { m.vertex_of(Some(h)) },
                twin: m.split_new_twin(h, start, end),
                ..m.he(h)->0
            }));
        }
        assert(!Self::in_walk(w, rs));
        assert(!Self::in_walk(w, re));
        if Self::in_walk(w, end) {
            Self::lemma_walk_back(m, start, end, end);
        }
        assert forall|h: HalfEdgeID| #[trigger] s.he_live(h) implies s.halfedge_ok(h) by {
            if m.he_live(h) {
                m.lemma_halfedge_ok(h);
                let t = m.twin_of(Some(h))->0;
                m.lemma_halfedge_ok(t);
                if Self::in_walk(w, h) {
                    Self::lemma_walk_back(m, start, end, h);
                }
                if Self::in_walk(w, t) {
                    Self::lemma_walk_back(m, start, end, t);
                }
                if let Some(n) = m.next_of(Some(h)) {
                    m.lemma_halfedge_ok(n);
                    let tn = m.twin_of(Some(n))->0;
                    m.lemma_halfedge_ok(tn);
                    if Self::in_walk(w, h) {
                        let j = choose|j: int| 0 <= j < w.len() && w[j] == h;
                        if j < k {
                            assert(m.split_step(w[j], start, end) == Some(w[j + 1]));
                            assert(Self::in_walk(w, w[j + 1]));
                        }
                    } else {
                        if n == re {
                            m.lemma_halfedge_ok(w[k]);
                            assert(h == w[k]);
                        }
                        if Self::in_walk(w, tn) && !m.split_cut(n, start, end) {
                            Self::lemma_walk_back(m, start, end, tn);
                            let j = choose|j: int| 0 <= j < w.len() - 1 && #[trigger] m.next_of(Some(w[j])) == m.twin_of(Some(tn))
                                && m.twin_of(Some(tn)) is Some && !m.split_cut(m.twin_of(Some(tn))->0, start, end);
                            m.lemma_halfedge_ok(w[j]);
                            assert(h == w[j]);
                        }
                    }
                }
            }
        }
        assert forall|a: HalfEdgeID, b: HalfEdgeID| #[trigger] s.same_face_pair_ok(a, b) by {
            if s.he_live(a) && s.he_live(b) && s.face_of(Some(a)) is Some && s.face_of(Some(a)) == s.face_of(Some(b)) {
                assert(m.he_live(a) && m.he_live(b));
                m.lemma_face_members(a, b);
                m.lemma_triangle(a);
            }
        }
        assert forall|u: VertexID| s.vx_live(u) implies #[trigger] s.vertex_ok(u) by {
            if u != nv {
                m.lemma_vertex_ok(u);
                let h0 = m.vertex_halfedge_of(u)->0;
                m.lemma_halfedge_ok(h0);
                let t = m.twin_of(Some(h0))->0;
                m.lemma_halfedge_ok(t);
                if Self::in_walk(w, t) {
                    Self::lemma_walk_back(m, start, end, t);
                    if t != start {
                        let j = choose|j: int| 0 <= j < w.len() - 1 && #[trigger] m.next_of(Some(w[j])) == m.twin_of(Some(t))
                            && m.twin_of(Some(t)) is Some && !m.split_cut(m.twin_of(Some(t))->0, start, end);
                        assert(m.next_of(Some(w[j])) == m.vertex_halfedge_of(v));
                    }
                }
                if h0 == re {
                    assert(m.next_of(Some(w[k])) == m.vertex_halfedge_of(v));
                }
            }
        }
        assert forall|f: crate::ids::FaceID| s.fc_live(f) implies #[trigger] s.face_ok(f) by {
            m.lemma_face_ok(f);
        }
        reveal(Mesh::valid);
    }

    /// The walk from a half-edge of a valid mesh goes through half-edges of the mesh that point to the same
    /// vertex, each a step from the one before.
    proof fn lemma_split_walk(m: Mesh<T>, x: HalfEdgeID, start: HalfEdgeID, end: HalfEdgeID, fuel: nat)
        requires
            m.valid(),
            m.he_live(x),
        ensures
            ({
                let w = m.split_walk(x, start, end, fuel);
                &&& w.len() <= fuel
                &&& fuel > 0 ==> w.len() > 0 && w[0] == x
                &&& forall|j: int| 0 <= j < w.len() ==> m.he_live(#[trigger] w[j])
                    && m.vertex_of(Some(w[j])) == m.vertex_of(Some(x))
                &&& forall|j: int| 0 <= j < w.len() - 1 ==> #[trigger] m.split_step(w[j], start, end) == Some(w[j + 1])
            }),
        decreases fuel,
    {
        m.lemma_halfedge_ok(x);
        if fuel > 0 {
            let w = m.split_walk(x, start, end, fuel);
            match m.split_step(x, start, end) {
                Some(y) => {
                    let n = m.next_of(Some(x))->0;
                    m.lemma_halfedge_ok(n);
                    Self::lemma_split_walk(m, y, start, end, (fuel - 1) as nat);
                    let r = m.split_walk(y, start, end, (fuel - 1) as nat);
                    assert(w == seq![x] + r);
                    assert forall|j: int| 0 <= j < w.len() implies m.he_live(#[trigger] w[j])
                        && m.vertex_of(Some(w[j])) == m.vertex_of(Some(x)) by {
                        if j > 0 {
                            assert(w[j] == r[j - 1]);
                        }
                    }
                    assert forall|j: int| 0 <= j < w.len() - 1 implies #[trigger] m.split_step(w[j], start, end) == Some(w[j + 1]) by {
                        assert(w[j + 1] == r[j]);
                        if j > 0 {
                            assert(w[j] == r[j - 1]);
                        }
                    }
                },
                None => {
                    assert(w == seq![x]);
                },
            }
        }
    }

    /// With the edges of `start` and `end` cut open, the walk that moves half-edges to the new vertex is the
    /// split walk of the uncut mesh.
    proof fn lemma_cut_walk(m: Mesh<T>, mc: Mesh<T>, start: HalfEdgeID, end: HalfEdgeID, x: HalfEdgeID, fuel: nat)
        requires
            m.valid(),
            mc.wf(),
            m.he_live(start),
            m.he_live(end),
            mc.halfedges() == m.split_cut_halfedges(start, end),
            m.he_live(x),
        ensures
            mc.incoming_walk(x, fuel) == m.split_walk(x, start, end, fuel),
        decreases fuel,
    {
        m.lemma_valid_wf();
        m.lemma_wf();
        mc.lemma_wf();
        m.lemma_halfedge_ok(x);
        m.lemma_halfedge_ok(start);
        m.lemma_halfedge_ok(end);
        let rs = m.twin_of(Some(start))->0;
        let re = m.twin_of(Some(end))->0;
        assert(mc.he_live(x));
        assert(mc.next_of(Some(x)) == m.next_of(Some(x)));
        if let Some(n) = m.next_of(Some(x)) {
            m.lemma_halfedge_ok(n);
            assert(mc.he_live(n));
            HalfEdgeID::lemma_index_injective(n, start);
            HalfEdgeID::lemma_index_injective(n, end);
            HalfEdgeID::lemma_index_injective(n, rs);
            HalfEdgeID::lemma_index_injective(n, re);
            assert(mc.twin_of(Some(n)) == if m.split_cut(n, start, end) { None } else { m.twin_of(Some(n)) });
        }
        assert(mc.twin_of(mc.next_of(Some(x))) == m.split_step(x, start, end));
        if fuel > 0 {
            if let Some(y) = m.split_step(x, start, end) {
                m.lemma_halfedge_ok(m.next_of(Some(x))->0);
                Self::lemma_cut_walk(m, mc, start, end, y, (fuel - 1) as nat);
            }
        }
    }
}

} // verus!
