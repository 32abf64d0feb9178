//! Splitting an edge of a valid mesh at a new vertex gives a valid mesh.
use vstd::prelude::*;
use crate::ids::{FaceID, HalfEdgeID, VertexID, ID};
use super::Mesh;
use super::connectivity_info::HalfEdge;

verus! {

/// The names of the half-edges, faces and vertices that `split_edge` reads and creates. The edge runs from `a`
/// to `b` along `s`; `s`, `n`, `p` make the face `f`, and `t`, `tn`, `tp` the face `tf` where there is one.
pub struct EdgeSplitNames {
    pub s: HalfEdgeID,
    pub n: HalfEdgeID,
    pub p: HalfEdgeID,
    pub t: HalfEdgeID,
    pub tn: HalfEdgeID,
    pub tp: HalfEdgeID,
    pub x3: HalfEdgeID,
    pub x2: HalfEdgeID,
    pub y: HalfEdgeID,
    pub u3: HalfEdgeID,
    pub u2: HalfEdgeID,
    pub w: HalfEdgeID,
    pub f: FaceID,
    pub tf: FaceID,
    pub nf: FaceID,
    pub tnf: FaceID,
    pub a: VertexID,
    pub b: VertexID,
    pub c: VertexID,
    pub d: VertexID,
    pub nv: VertexID,
}

impl<T: Copy> Mesh<T> {
    /// The names around the edge of `h` and the fresh ids that a split of it takes.
    pub open spec fn edge_split_names(&self, h: HalfEdgeID) -> EdgeSplitNames {
        let s = self.split_side(h);
        let t = self.twin_of(Some(s))->0;
        let n = self.next_of(Some(s))->0;
        let tn = self.next_of(Some(t))->0;
        EdgeSplitNames {
            s,
            n,
            p: self.next_of(Some(n))->0,
            t,
            tn,
            tp: self.next_of(Some(tn))->0,
            x3: self.nth_halfedge_id(0),
            x2: self.nth_halfedge_id(1),
            y: self.nth_halfedge_id(2),
            u3: self.nth_halfedge_id(3),
            u2: self.nth_halfedge_id(4),
            w: self.nth_halfedge_id(5),
            f: self.face_of(Some(s))->0,
            tf: self.face_of(Some(t))->0,
            nf: self.nth_face_id(0),
            tnf: self.nth_face_id(1),
            a: self.vertex_of(Some(t))->0,
            b: self.vertex_of(Some(s))->0,
            c: self.vertex_of(Some(n))->0,
            d: self.vertex_of(Some(tn))->0,
            nv: self.nth_vertex_id(0),
        }
    }

    /// The other side of the split edge has a face.
    pub open spec fn edge_split_interior(&self, h: HalfEdgeID) -> bool {
        self.face_of(Some(self.edge_split_names(h).t)) is Some
    }

    /// Whether the half-edge is one of those that an edge split creates.
    pub open spec fn edge_split_new(x: EdgeSplitNames, interior: bool, q: HalfEdgeID) -> bool {
        q == x.x3 || q == x.x2 || q == x.y || q == x.u3 || (interior && (q == x.u2 || q == x.w))
    }

    /// Whether the half-edge is one of those of the mesh that an edge split reads or changes.
    pub open spec fn edge_split_touched(x: EdgeSplitNames, interior: bool, q: HalfEdgeID) -> bool {
        q == x.s || q == x.n || q == x.p || q == x.t || (interior && (q == x.tn || q == x.tp))
    }

    /// `self` is `m` with the edge of `h` split, told half-edge by half-edge.
    pub open spec fn is_edge_split_shape(&self, m: Mesh<T>, h: HalfEdgeID) -> bool {
        let x = m.edge_split_names(h);
        let interior = m.edge_split_interior(h);
        &&& self.he(x.s) == Some(HalfEdge { vertex: Some(x.nv), twin: Some(x.u3), next: Some(x.y), face: Some(x.f) })
        &&& self.he(x.y) == Some(HalfEdge { vertex: Some(x.c), twin: Some(x.x2), next: Some(x.p), face: Some(x.f) })
        &&& self.he(x.p) == m.he(x.p)
        &&& self.he(x.n) == Some(HalfEdge { next: Some(x.x2), face: Some(x.nf), ..m.he(x.n)->0 })
        &&& self.he(x.x2) == Some(HalfEdge { vertex: Some(x.nv), twin: Some(x.y), next: Some(x.x3), face: Some(x.nf) })
        &&& self.he(x.x3) == Some(HalfEdge { vertex: Some(x.b), twin: Some(x.t), next: Some(x.n), face: Some(x.nf) })
        &&& if interior {
            &&& self.he(x.t) == Some(HalfEdge { vertex: Some(x.nv), twin: Some(x.x3), next: Some(x.w), face: Some(x.tf) })
            &&& self.he(x.w) == Some(HalfEdge { vertex: Some(x.d), twin: Some(x.u2), next: Some(x.tp), face: Some(x.tf) })
            &&& self.he(x.tp) == m.he(x.tp)
            &&& self.he(x.tn) == Some(HalfEdge { next: Some(x.u2), face: Some(x.tnf), ..m.he(x.tn)->0 })
            &&& self.he(x.u2) == Some(HalfEdge { vertex: Some(x.nv), twin: Some(x.w), next: Some(x.u3), face: Some(x.tnf) })
            &&& self.he(x.u3) == Some(HalfEdge { vertex: Some(x.a), twin: Some(x.s), next: Some(x.tn), face: Some(x.tnf) })
        } else {
            &&& self.he(x.t) == Some(HalfEdge { vertex: Some(x.nv), twin: Some(x.x3), next: None, face: None })
            &&& self.he(x.u3) == Some(HalfEdge { vertex: Some(x.a), twin: Some(x.s), next: None, face: None })
        }
        &&& forall|q: HalfEdgeID| #[trigger] self.he_live(q) == (m.he_live(q) || Self::edge_split_new(x, interior, q))
        &&& forall|q: HalfEdgeID| m.he_live(q) && !Self::edge_split_touched(x, interior, q) ==> #[trigger] self.he(q) == m.he(q)
        &&& forall|v: VertexID| #[trigger] self.vx_live(v) == (m.vx_live(v) || v == x.nv)
        &&& forall|g: FaceID| #[trigger] self.fc_live(g) == (m.fc_live(g) || g == x.nf || (interior && g == x.tnf))
        &&& self.vertex_halfedge_of(x.b) == Some(x.n)
        &&& self.vertex_halfedge_of(x.c) == Some(if interior && x.c == x.d { x.u2 } else { x.x2 })
        &&& self.vertex_halfedge_of(x.nv) == Some(if interior { x.u3 } else { x.x3 })
        &&& interior ==> self.vertex_halfedge_of(x.a) == Some(x.tn) && self.vertex_halfedge_of(x.d) == Some(x.u2)
        &&& forall|v: VertexID| m.vx_live(v) && v != x.b && v != x.c && (interior ==> v != x.a && v != x.d)
            ==> #[trigger] self.vx(v) == m.vx(v)
        &&& self.face_halfedge_of(x.f) == Some(x.s) && self.face_halfedge_of(x.nf) == Some(x.n)
        &&& interior ==> self.face_halfedge_of(x.tf) == Some(x.t) && self.face_halfedge_of(x.tnf) == Some(x.tn)
        &&& forall|g: FaceID| m.fc_live(g) && g != x.f && (interior ==> g != x.tf) ==> #[trigger] self.fc(g) == m.fc(g)
    }

    /// What a valid mesh says of the names around an edge that has a face on one side.
    proof fn lemma_edge_split_names(m: Mesh<T>, h: HalfEdgeID)
        requires
            m.valid(),
            m.he_live(h),
            m.face_of(Some(h)) is Some || m.face_of(m.twin_of(Some(h))) is Some,
            m.room().0 >= 1,
            m.room().1 >= 6,
            m.room().2 >= 2,
        ensures
            ({
                let x = m.edge_split_names(h);
                let interior = m.edge_split_interior(h);
                let twn = m.twin_of(Some(x.n))->0;
                let twp = m.twin_of(Some(x.p))->0;
                let twtn = m.twin_of(Some(x.tn))->0;
                let twtp = m.twin_of(Some(x.tp))->0;
                &&& m.wf()
                &&& m.he_live(x.s) && m.he_live(x.n) && m.he_live(x.p) && m.he_live(x.t)
                &&& x.s != x.n && x.n != x.p && x.p != x.s && x.t != x.s && x.t != x.n && x.t != x.p
                &&& m.next_of(Some(x.s)) == Some(x.n) && m.next_of(Some(x.n)) == Some(x.p) && m.next_of(Some(x.p)) == Some(x.s)
                &&& m.face_of(Some(x.s)) == Some(x.f) && m.face_of(Some(x.n)) == Some(x.f) && m.face_of(Some(x.p)) == Some(x.f)
                &&& m.fc_live(x.f)
                &&& m.twin_of(Some(x.s)) == Some(x.t) && m.twin_of(Some(x.t)) == Some(x.s)
                &&& m.vertex_of(Some(x.s)) == Some(x.b) && m.vertex_of(Some(x.n)) == Some(x.c)
                &&& m.vertex_of(Some(x.p)) == Some(x.a) && m.vertex_of(Some(x.t)) == Some(x.a)
                &&& x.a != x.b && x.b != x.c && x.c != x.a
                &&& m.vx_live(x.a) && m.vx_live(x.b) && m.vx_live(x.c)
                &&& m.face_of(Some(x.t)) != Some(x.f)
                &&& m.twin_of(Some(x.n)) == Some(twn) && m.twin_of(Some(x.p)) == Some(twp)
                &&& m.he_live(twn) && m.he_live(twp)
                &&& twn != x.s && twn != x.t && twp != x.s && twp != x.t
                &&& m.twin_of(Some(twn)) == Some(x.n) && m.twin_of(Some(twp)) == Some(x.p)
                &&& m.vertex_of(Some(twn)) == Some(x.b) && m.vertex_of(Some(twp)) == Some(x.c)
                &&& interior ==> {
                    &&& m.he_live(x.tn) && m.he_live(x.tp)
                    &&& x.t != x.tn && x.tn != x.tp && x.tp != x.t
                    &&& x.tn != x.s && x.tn != x.n && x.tn != x.p && x.tp != x.s && x.tp != x.n && x.tp != x.p
                    &&& m.next_of(Some(x.t)) == Some(x.tn) && m.next_of(Some(x.tn)) == Some(x.tp) && m.next_of(Some(x.tp)) == Some(x.t)
                    &&& m.face_of(Some(x.t)) == Some(x.tf) && m.face_of(Some(x.tn)) == Some(x.tf) && m.face_of(Some(x.tp)) == Some(x.tf)
                    &&& m.fc_live(x.tf) && x.tf != x.f
                    &&& m.vertex_of(Some(x.tn)) == Some(x.d) && m.vertex_of(Some(x.tp)) == Some(x.b)
                    &&& x.d != x.a && x.d != x.b && m.vx_live(x.d)
                    &&& m.twin_of(Some(x.tn)) == Some(twtn) && m.twin_of(Some(x.tp)) == Some(twtp)
                    &&& m.he_live(twtn) && m.he_live(twtp)
                    &&& twtn != x.s && twtn != x.t && twtp != x.s && twtp != x.t
                    &&& m.twin_of(Some(twtn)) == Some(x.tn) && m.twin_of(Some(twtp)) == Some(x.tp)
                    &&& m.vertex_of(Some(twtn)) == Some(x.a) && m.vertex_of(Some(twtp)) == Some(x.d)
                }
                &&& !interior ==> m.next_of(Some(x.t)) is None
                &&& !m.he_live(x.x3) && !m.he_live(x.x2) && !m.he_live(x.y)
                &&& !m.he_live(x.u3) && !m.he_live(x.u2) && !m.he_live(x.w)
                &&& x.x3 != x.x2 && x.x3 != x.y && x.x3 != x.u3 && x.x3 != x.u2 && x.x3 != x.w
                &&& x.x2 != x.y && x.x2 != x.u3 && x.x2 != x.u2 && x.x2 != x.w
                &&& x.y != x.u3 && x.y != x.u2 && x.y != x.w
                &&& x.u3 != x.u2 && x.u3 != x.w && x.u2 != x.w
                &&& !m.fc_live(x.nf) && !m.fc_live(x.tnf) && x.nf != x.tnf
                &&& !m.vx_live(x.nv)
            }),
    {
        m.lemma_valid_wf();
        m.lemma_wf();
        m.lemma_nth_ids();
        m.lemma_halfedge_ok(h);
        let x = m.edge_split_names(h);
        if m.face_of(Some(h)) is None {
            let th = m.twin_of(Some(h))->0;
            m.lemma_halfedge_ok(th);
        }
        m.lemma_triangle(x.s);
        m.lemma_halfedge_ok(x.s);
        m.lemma_halfedge_ok(x.n);
        m.lemma_halfedge_ok(x.p);
        m.lemma_halfedge_ok(x.t);
        let twn = m.twin_of(Some(x.n))->0;
        let twp = m.twin_of(Some(x.p))->0;
        m.lemma_halfedge_ok(twn);
        m.lemma_halfedge_ok(twp);
        if m.face_of(Some(x.t)) is Some {
            m.lemma_triangle(x.t);
            m.lemma_halfedge_ok(x.tn);
            m.lemma_halfedge_ok(x.tp);
            let twtn = m.twin_of(Some(x.tn))->0;
            let twtp = m.twin_of(Some(x.tp))->0;
            m.lemma_halfedge_ok(twtn);
            m.lemma_halfedge_ok(twtp);
            if x.tn == x.n || x.tn == x.p || x.tn == x.s {
                assert(m.face_of(Some(x.tn)) == Some(x.f));
            }
            if x.tp == x.n || x.tp == x.p || x.tp == x.s {
                assert(m.face_of(Some(x.tp)) == Some(x.f));
            }
        }
        assert(m.nth_halfedge_id(0) != m.nth_halfedge_id(1));
        assert(m.nth_halfedge_id(0) != m.nth_halfedge_id(2));
        assert(m.nth_halfedge_id(0) != m.nth_halfedge_id(3));
        assert(m.nth_halfedge_id(0) != m.nth_halfedge_id(4));
        assert(m.nth_halfedge_id(0) != m.nth_halfedge_id(5));
        assert(m.nth_halfedge_id(1) != m.nth_halfedge_id(2));
        assert(m.nth_halfedge_id(1) != m.nth_halfedge_id(3));
        assert(m.nth_halfedge_id(1) != m.nth_halfedge_id(4));
        assert(m.nth_halfedge_id(1) != m.nth_halfedge_id(5));
        assert(m.nth_halfedge_id(2) != m.nth_halfedge_id(3));
        assert(m.nth_halfedge_id(2) != m.nth_halfedge_id(4));
        assert(m.nth_halfedge_id(2) != m.nth_halfedge_id(5));
        assert(m.nth_halfedge_id(3) != m.nth_halfedge_id(4));
        assert(m.nth_halfedge_id(3) != m.nth_halfedge_id(5));
        assert(m.nth_halfedge_id(4) != m.nth_halfedge_id(5));
        assert(m.nth_face_id(0) != m.nth_face_id(1));
        assert(!m.he_live(m.nth_halfedge_id(0)) && !m.he_live(m.nth_halfedge_id(1)) && !m.he_live(m.nth_halfedge_id(2)));
        assert(!m.he_live(m.nth_halfedge_id(3)) && !m.he_live(m.nth_halfedge_id(4)) && !m.he_live(m.nth_halfedge_id(5)));
        assert(!m.fc_live(m.nth_face_id(0)) && !m.fc_live(m.nth_face_id(1)));
        assert(!m.vx_live(m.nth_vertex_id(0)));
    }
    /// The three steps of `split_edge` (a vertex added, the face of the split side split, then the other face
    /// split or the boundary closed) give the edge split that [Mesh::is_edge_split_shape] tells.
    #[verifier::rlimit(60)]
    pub proof fn lemma_edge_split_shape(m: Mesh<T>, m1: Mesh<T>, m2: Mesh<T>, m3: Mesh<T>, h: HalfEdgeID, position: [T; 3])
        requires
            m.valid(),
            m.he_live(h),
            m.face_of(Some(h)) is Some || m.face_of(m.twin_of(Some(h))) is Some,
            m.room().0 >= 1,
            m.room().1 >= 6,
            m.room().2 >= 2,
            m1.wf(),
            m2.wf(),
            m3.wf(),
            m1.is_vertex_added_to(m, position),
            m2.is_one_face_split_of(m1, m.edge_split_names(h).s, m.edge_split_names(h).t, m.edge_split_names(h).nv),
            if m.edge_split_interior(h) {
                m3.is_one_face_split_of(m2, m.edge_split_names(h).t, m.edge_split_names(h).s, m.edge_split_names(h).nv)
            } else {
                m3.is_boundary_close_of(m2, m.edge_split_names(h).s, m.edge_split_names(h).t, m.edge_split_names(h).nv)
            },
        ensures
            m3.is_edge_split_shape(m, h),
    {
        Self::lemma_edge_split_names(m, h);
        let x = m.edge_split_names(h);
        let interior = m.edge_split_interior(h);
        m.lemma_wf();
        m1.lemma_wf();
        m2.lemma_wf();
        m3.lemma_wf();
        assert forall|q: HalfEdgeID| m.he_live(q) implies #[trigger] m1.he(q) == m.he(q) by {}
        let names = seq![x.s, x.n, x.p, x.t, x.x3, x.x2, x.y, x.u3, x.u2, x.w];
        assert(names[0] == x.s && names[1] == x.n && names[2] == x.p && names[3] == x.t && names[4] == x.x3);
        assert(names[5] == x.x2 && names[6] == x.y && names[7] == x.u3 && names[8] == x.u2 && names[9] == x.w);
        assert forall|i: int, j: int| 0 <= i < 10 && 0 <= j < 10 && i != j implies names[i].index() != names[j].index() by {
            HalfEdgeID::lemma_index_injective(names[i], names[j]);
        }
        if interior {
            assert forall|i: int| 0 <= i < 10 implies names[i].index() != x.tn.index() && names[i].index() != x.tp.index() by {
                HalfEdgeID::lemma_index_injective(names[i], x.tn);
                HalfEdgeID::lemma_index_injective(names[i], x.tp);
            }
            HalfEdgeID::lemma_index_injective(x.tn, x.tp);
        }
        VertexID::lemma_index_injective(x.a, x.b);
        VertexID::lemma_index_injective(x.b, x.c);
        VertexID::lemma_index_injective(x.a, x.c);
        VertexID::lemma_index_injective(x.nv, x.a);
        VertexID::lemma_index_injective(x.nv, x.b);
        VertexID::lemma_index_injective(x.nv, x.c);
        VertexID::lemma_index_injective(x.nv, x.d);
        VertexID::lemma_index_injective(x.a, x.d);
        VertexID::lemma_index_injective(x.b, x.d);
        VertexID::lemma_index_injective(x.c, x.d);
        FaceID::lemma_index_injective(x.f, x.tf);
        FaceID::lemma_index_injective(x.f, x.nf);
        FaceID::lemma_index_injective(x.f, x.tnf);
        FaceID::lemma_index_injective(x.tf, x.nf);
        FaceID::lemma_index_injective(x.tf, x.tnf);
        FaceID::lemma_index_injective(x.nf, x.tnf);
        // The second step names what the first left.
        assert(m2.he(x.t) == Some(HalfEdge { twin: Some(x.x3), ..m.he(x.t)->0 }));
        if interior {
            assert(m2.he(x.tn) == m.he(x.tn));
            assert(m2.next_of(Some(x.t)) == Some(x.tn));
            assert(m2.next_of(Some(x.tn)) == Some(x.tp));
        }
        assert(m2.nth_halfedge_id(0) == x.u3 && m2.nth_halfedge_id(1) == x.u2 && m2.nth_halfedge_id(2) == x.w);
        assert(m2.nth_face_id(0) == x.tnf);
        assert forall|q: HalfEdgeID| #[trigger] m3.he_live(q) == (m.he_live(q) || Self::edge_split_new(x, interior, q)) by {
            if m3.he_live(q) && !m.he_live(q) {
                HalfEdgeID::lemma_index_injective(q, x.x3);
                HalfEdgeID::lemma_index_injective(q, x.x2);
                HalfEdgeID::lemma_index_injective(q, x.y);
                HalfEdgeID::lemma_index_injective(q, x.u3);
                HalfEdgeID::lemma_index_injective(q, x.u2);
                HalfEdgeID::lemma_index_injective(q, x.w);
            }
        }
        assert forall|q: HalfEdgeID| m.he_live(q) && !Self::edge_split_touched(x, interior, q) implies #[trigger] m3.he(q) == m.he(q) by {
            HalfEdgeID::lemma_index_injective(q, x.s);
            HalfEdgeID::lemma_index_injective(q, x.n);
            HalfEdgeID::lemma_index_injective(q, x.p);
            HalfEdgeID::lemma_index_injective(q, x.t);
            HalfEdgeID::lemma_index_injective(q, x.tn);
            HalfEdgeID::lemma_index_injective(q, x.tp);
            HalfEdgeID::lemma_index_injective(q, x.x3);
            HalfEdgeID::lemma_index_injective(q, x.x2);
            HalfEdgeID::lemma_index_injective(q, x.y);
            HalfEdgeID::lemma_index_injective(q, x.u3);
            HalfEdgeID::lemma_index_injective(q, x.u2);
            HalfEdgeID::lemma_index_injective(q, x.w);
        }
        assert forall|v: VertexID| #[trigger] m3.vx_live(v) == (m.vx_live(v) || v == x.nv) by {
            VertexID::lemma_index_injective(v, x.nv);
        }
        assert forall|g: FaceID| #[trigger] m3.fc_live(g) == (m.fc_live(g) || g == x.nf || (interior && g == x.tnf)) by {
            FaceID::lemma_index_injective(g, x.nf);
            FaceID::lemma_index_injective(g, x.tnf);
        }
        assert forall|v: VertexID| m.vx_live(v) && v != x.b && v != x.c && (interior ==> v != x.a && v != x.d)
            implies #[trigger] m3.vx(v) == m.vx(v) by {
            VertexID::lemma_index_injective(v, x.a);
            VertexID::lemma_index_injective(v, x.b);
            VertexID::lemma_index_injective(v, x.c);
            VertexID::lemma_index_injective(v, x.d);
            VertexID::lemma_index_injective(v, x.nv);
        }
        assert forall|g: FaceID| m.fc_live(g) && g != x.f && (interior ==> g != x.tf) implies #[trigger] m3.fc(g) == m.fc(g) by {
            FaceID::lemma_index_injective(g, x.f);
            FaceID::lemma_index_injective(g, x.tf);
            FaceID::lemma_index_injective(g, x.nf);
            FaceID::lemma_index_injective(g, x.tnf);
        }
        assert(m3.he_live(x.s) && m3.he_live(x.n) && m3.he_live(x.p) && m3.he_live(x.t));
        assert(m3.he_live(x.x3) && m3.he_live(x.x2) && m3.he_live(x.y) && m3.he_live(x.u3));
        assert(m3.vx_live(x.a) && m3.vx_live(x.b) && m3.vx_live(x.c) && m3.vx_live(x.nv));
        assert(m3.fc_live(x.f) && m3.fc_live(x.nf));
        if interior {
            assert(m3.he_live(x.tn) && m3.he_live(x.tp) && m3.he_live(x.u2) && m3.he_live(x.w));
            assert(m3.vx_live(x.d));
            assert(m3.fc_live(x.tf) && m3.fc_live(x.tnf));
        }
    }
    /// After the split, a half-edge of the mesh other than the two of the split edge keeps its twin and vertex.
    proof fn lemma_edge_split_frame(m: Mesh<T>, m3: Mesh<T>, h: HalfEdgeID)
        requires
            m.valid(),
            m.he_live(h),
            m.face_of(Some(h)) is Some || m.face_of(m.twin_of(Some(h))) is Some,
            m.room().0 >= 1,
            m.room().1 >= 6,
            m.room().2 >= 2,
            m3.wf(),
            m3.is_edge_split_shape(m, h),
        ensures
            ({
                let x = m.edge_split_names(h);
                forall|z: HalfEdgeID| m.he_live(z) && z != x.s && z != x.t ==> {
                    &&& #[trigger] m3.twin_of(Some(z)) == m.twin_of(Some(z))
                    &&& m3.vertex_of(Some(z)) == m.vertex_of(Some(z))
                }
            }),
    {
        Self::lemma_edge_split_names(m, h);
        m.lemma_wf();
        let x = m.edge_split_names(h);
        let interior = m.edge_split_interior(h);
        assert forall|z: HalfEdgeID| m.he_live(z) && z != x.s && z != x.t implies {
            &&& #[trigger] m3.twin_of(Some(z)) == m.twin_of(Some(z))
            &&& m3.vertex_of(Some(z)) == m.vertex_of(Some(z))
        } by {
            if !Self::edge_split_touched(x, interior, z) {
                assert(m3.he(z) == m.he(z));
            }
        }
    }

    /// After the split, a half-edge of the mesh that the split does not touch is as `halfedge_ok` says.
    proof fn lemma_edge_split_other_ok(m: Mesh<T>, m3: Mesh<T>, h: HalfEdgeID, q: HalfEdgeID)
        requires
            m.valid(),
            m.he_live(h),
            m.face_of(Some(h)) is Some || m.face_of(m.twin_of(Some(h))) is Some,
            m.room().0 >= 1,
            m.room().1 >= 6,
            m.room().2 >= 2,
            m3.wf(),
            m3.is_edge_split_shape(m, h),
            m.he_live(q),
            !Self::edge_split_touched(m.edge_split_names(h), m.edge_split_interior(h), q),
        ensures
            m3.halfedge_ok(q),
    {
        Self::lemma_edge_split_names(m, h);
        Self::lemma_edge_split_frame(m, m3, h);
        let x = m.edge_split_names(h);
        let interior = m.edge_split_interior(h);
        m.lemma_halfedge_ok(q);
        let e = m.he(q)->0;
        let tq = e.twin->0;
        m.lemma_halfedge_ok(tq);
        if e.next is Some {
            m.lemma_triangle(q);
            if e.face == Some(x.f) {
                m.lemma_face_members(x.s, q);
            }
            if interior && e.face == Some(x.tf) {
                m.lemma_face_members(x.t, q);
            }
            let nq = e.next->0;
            let nnq = m.next_of(Some(nq))->0;
            m.lemma_halfedge_ok(nq);
            let tnq = m.twin_of(Some(nq))->0;
            m.lemma_halfedge_ok(tnq);
            assert(!Self::edge_split_touched(x, interior, nq));
            assert(!Self::edge_split_touched(x, interior, nnq));
            assert(m3.he(nq) == m.he(nq));
            assert(m3.he(nnq) == m.he(nnq));
            assert(nq != x.s && nq != x.t);
            assert(tnq != x.s && tnq != x.t);
        }
        assert(tq != x.s && tq != x.t);
        assert(m3.he(q) == m.he(q));
    }

    /// After the split, the half-edges that the split touches or creates are as `halfedge_ok` says.
    proof fn lemma_edge_split_touched_ok(m: Mesh<T>, m3: Mesh<T>, h: HalfEdgeID, q: HalfEdgeID)
        requires
            m.valid(),
            m.he_live(h),
            m.face_of(Some(h)) is Some || m.face_of(m.twin_of(Some(h))) is Some,
            m.room().0 >= 1,
            m.room().1 >= 6,
            m.room().2 >= 2,
            m3.wf(),
            m3.is_edge_split_shape(m, h),
            m3.he_live(q),
            Self::edge_split_touched(m.edge_split_names(h), m.edge_split_interior(h), q)
                || Self::edge_split_new(m.edge_split_names(h), m.edge_split_interior(h), q),
        ensures
            m3.halfedge_ok(q),
    {
        Self::lemma_edge_split_names(m, h);
        Self::lemma_edge_split_frame(m, m3, h);
        m.lemma_wf();
        let x = m.edge_split_names(h);
        let twn = m.twin_of(Some(x.n))->0;
        let twp = m.twin_of(Some(x.p))->0;
        let twtn = m.twin_of(Some(x.tn))->0;
        let twtp = m.twin_of(Some(x.tp))->0;
        assert(m3.twin_of(Some(twn)) == Some(x.n) && m3.vertex_of(Some(twn)) == Some(x.b));
        assert(m3.twin_of(Some(twp)) == Some(x.p) && m3.vertex_of(Some(twp)) == Some(x.c));
        if m.edge_split_interior(h) {
            assert(m3.twin_of(Some(twtn)) == Some(x.tn) && m3.vertex_of(Some(twtn)) == Some(x.a));
            assert(m3.twin_of(Some(twtp)) == Some(x.tp) && m3.vertex_of(Some(twtp)) == Some(x.d));
        }
    }

    /// After the split, a half-edge's face says which of the triangles it belongs to.
    proof fn lemma_edge_split_members(m: Mesh<T>, m3: Mesh<T>, h: HalfEdgeID, z: HalfEdgeID)
        requires
            m.valid(),
            m.he_live(h),
            m.face_of(Some(h)) is Some || m.face_of(m.twin_of(Some(h))) is Some,
            m.room().0 >= 1,
            m.room().1 >= 6,
            m.room().2 >= 2,
            m3.wf(),
            m3.is_edge_split_shape(m, h),
            m3.he_live(z),
        ensures
            ({
                let x = m.edge_split_names(h);
                let interior = m.edge_split_interior(h);
                let fz = m3.face_of(Some(z));
                &&& fz == Some(x.f) ==> (z == x.s || z == x.y || z == x.p)
                &&& fz == Some(x.nf) ==> (z == x.n || z == x.x2 || z == x.x3)
                &&& interior && fz == Some(x.tf) ==> (z == x.t || z == x.w || z == x.tp)
                &&& interior && fz == Some(x.tnf) ==> (z == x.tn || z == x.u2 || z == x.u3)
                &&& (fz is Some && fz != Some(x.f) && fz != Some(x.nf) && (interior ==> fz != Some(x.tf) && fz != Some(x.tnf))) ==> {
                    &&& m.he_live(z)
                    &&& !Self::edge_split_touched(x, interior, z)
                    &&& m3.he(z) == m.he(z)
                }
            }),
    {
        Self::lemma_edge_split_names(m, h);
        let x = m.edge_split_names(h);
        let interior = m.edge_split_interior(h);
        if !Self::edge_split_touched(x, interior, z) && !Self::edge_split_new(x, interior, z) {
            assert(m3.he(z) == m.he(z));
            m.lemma_halfedge_ok(z);
            if m.face_of(Some(z)) == Some(x.f) {
                m.lemma_face_members(x.s, z);
            }
            if interior && m.face_of(Some(z)) == Some(x.tf) {
                m.lemma_face_members(x.t, z);
            }
        }
    }

    /// After the split, two half-edges with the same face lie on one triangle.
    proof fn lemma_edge_split_pair_ok(m: Mesh<T>, m3: Mesh<T>, h: HalfEdgeID, a: HalfEdgeID, b: HalfEdgeID)
        requires
            m.valid(),
            m.he_live(h),
            m.face_of(Some(h)) is Some || m.face_of(m.twin_of(Some(h))) is Some,
            m.room().0 >= 1,
            m.room().1 >= 6,
            m.room().2 >= 2,
            m3.wf(),
            m3.is_edge_split_shape(m, h),
        ensures
            m3.same_face_pair_ok(a, b),
    {
        Self::lemma_edge_split_names(m, h);
        let x = m.edge_split_names(h);
        let interior = m.edge_split_interior(h);
        if m3.he_live(a) && m3.he_live(b) && m3.face_of(Some(a)) is Some && m3.face_of(Some(a)) == m3.face_of(Some(b)) {
            Self::lemma_edge_split_members(m, m3, h, a);
            Self::lemma_edge_split_members(m, m3, h, b);
            let fa = m3.face_of(Some(a));
            if fa != Some(x.f) && fa != Some(x.nf) && (interior ==> fa != Some(x.tf) && fa != Some(x.tnf)) {
                m.lemma_face_members(a, b);
                m.lemma_triangle(a);
                let na = m.next_of(Some(a))->0;
                Self::lemma_edge_split_members(m, m3, h, na);
                let pa = m.next_of(Some(na))->0;
                Self::lemma_edge_split_members(m, m3, h, pa);
            }
        }
    }

    /// After the split, every vertex and face is as `vertex_ok` and `face_ok` say.
    proof fn lemma_edge_split_vertices_faces_ok(m: Mesh<T>, m3: Mesh<T>, h: HalfEdgeID)
        requires
            m.valid(),
            m.he_live(h),
            m.face_of(Some(h)) is Some || m.face_of(m.twin_of(Some(h))) is Some,
            m.room().0 >= 1,
            m.room().1 >= 6,
            m.room().2 >= 2,
            m3.wf(),
            m3.is_edge_split_shape(m, h),
        ensures
            forall|v: VertexID| m3.vx_live(v) ==> #[trigger] m3.vertex_ok(v),
            forall|g: FaceID| m3.fc_live(g) ==> #[trigger] m3.face_ok(g),
    {
        Self::lemma_edge_split_names(m, h);
        Self::lemma_edge_split_frame(m, m3, h);
        m.lemma_wf();
        let x = m.edge_split_names(h);
        let interior = m.edge_split_interior(h);
        let twn = m.twin_of(Some(x.n))->0;
        let twtn = m.twin_of(Some(x.tn))->0;
        assert forall|v: VertexID| m3.vx_live(v) implies #[trigger] m3.vertex_ok(v) by {
            if v != x.nv && v != x.b && v != x.c && (interior ==> v != x.a && v != x.d) {
                m.lemma_vertex_ok(v);
                let g = m.vertex_halfedge_of(v)->0;
                m.lemma_halfedge_ok(g);
                let tg = m.twin_of(Some(g))->0;
                m.lemma_halfedge_ok(tg);
                assert(m3.vx(v) == m.vx(v));
                if g != x.s {
                    assert(g != x.t);
                    assert(tg != x.s && tg != x.t);
                }
            }
        }
        assert forall|g: FaceID| m3.fc_live(g) implies #[trigger] m3.face_ok(g) by {
            if g != x.f && g != x.nf && (interior ==> g != x.tf && g != x.tnf) {
                m.lemma_face_ok(g);
                let k = m.face_halfedge_of(g)->0;
                assert(!Self::edge_split_touched(x, interior, k));
                assert(m3.he(k) == m.he(k));
            }
        }
    }

    /// Splitting an edge of a valid mesh that has a face on one side, at a new vertex, gives a valid mesh.
    pub proof fn lemma_edge_split_keeps_valid(m: Mesh<T>, m3: Mesh<T>, h: HalfEdgeID)
        requires
            m.valid(),
            m.he_live(h),
            m.face_of(Some(h)) is Some || m.face_of(m.twin_of(Some(h))) is Some,
            m.room().0 >= 1,
            m.room().1 >= 6,
            m.room().2 >= 2,
            m3.wf(),
            m3.is_edge_split_shape(m, h),
        ensures
            m3.valid(),
    {
        Self::lemma_edge_split_names(m, h);
        let x = m.edge_split_names(h);
        let interior = m.edge_split_interior(h);
        assert forall|q: HalfEdgeID| #[trigger] m3.he_live(q) implies m3.halfedge_ok(q) by {
            if Self::edge_split_touched(x, interior, q) || Self::edge_split_new(x, interior, q) {
                Self::lemma_edge_split_touched_ok(m, m3, h, q);
            } else {
                Self::lemma_edge_split_other_ok(m, m3, h, q);
            }
        }
        Self::lemma_edge_split_vertices_faces_ok(m, m3, h);
        assert forall|a: HalfEdgeID, b: HalfEdgeID| #[trigger] m3.same_face_pair_ok(a, b) by {
            Self::lemma_edge_split_pair_ok(m, m3, h, a, b);
        }
        reveal(Mesh::valid);
    }
}

} // verus!
