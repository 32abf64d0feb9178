//! Collapsing an edge of a valid mesh, around a vertex whose one-ring is complete and with no second edge
//! between its two vertices, gives a valid mesh.
use vstd::prelude::*;
use crate::ids::{FaceID, HalfEdgeID, VertexID, ID};
use super::Mesh;
use super::connectivity_info::{HalfEdge, Vertex};

verus! {

/// The names around an edge that `collapse_edge` reads: `h` runs from the dying vertex `dv` to the surviving
/// vertex `sv`, `t` back; `h`, `n`, `p` make the face of `h` and `t`, `tn`, `tp` that of `t`, where they have
/// one; `x1`, `x2`, `y1`, `y2` are the twins of `n`, `p`, `tn`, `tp`, and `a`, `b` the vertices that `n` and
/// `tn` point to.
pub struct CollapseNames {
    pub h: HalfEdgeID,
    pub t: HalfEdgeID,
    pub n: HalfEdgeID,
    pub p: HalfEdgeID,
    pub tn: HalfEdgeID,
    pub tp: HalfEdgeID,
    pub x1: HalfEdgeID,
    pub x2: HalfEdgeID,
    pub y1: HalfEdgeID,
    pub y2: HalfEdgeID,
    pub sv: VertexID,
    pub dv: VertexID,
    pub a: VertexID,
    pub b: VertexID,
    pub f: FaceID,
    pub tf: FaceID,
}

impl<T: Copy> Mesh<T> {
    /// The names around the edge of `h`.
    pub open spec fn collapse_names(&self, h: HalfEdgeID) -> CollapseNames {
        let t = self.twin_of(Some(h))->0;
        let n = self.next_of(Some(h))->0;
        let p = self.next_of(Some(n))->0;
        let tn = self.next_of(Some(t))->0;
        let tp = self.next_of(Some(tn))->0;
        CollapseNames {
            h,
            t,
            n,
            p,
            tn,
            tp,
            x1: self.twin_of(Some(n))->0,
            x2: self.twin_of(Some(p))->0,
            y1: self.twin_of(Some(tn))->0,
            y2: self.twin_of(Some(tp))->0,
            sv: self.vertex_of(Some(h))->0,
            dv: self.vertex_of(Some(t))->0,
            a: self.vertex_of(Some(n))->0,
            b: self.vertex_of(Some(tn))->0,
            f: self.face_of(Some(h))->0,
            tf: self.face_of(Some(t))->0,
        }
    }

    /// The conditions under which collapsing the edge of `h` keeps a valid mesh valid: a face on one side at
    /// least; the half-edges that point to the dying vertex are exactly the twins of its one-ring; and no
    /// half-edge but `h` runs from the dying vertex to the surviving one.
    pub open spec fn collapse_keeps_shape(&self, h: HalfEdgeID) -> bool {
        let x = self.collapse_names(h);
        &&& self.face_of(Some(h)) is Some || self.face_of(Some(x.t)) is Some
        &&& forall|z: HalfEdgeID| #[trigger] self.he_live(z)
            ==> (self.vertex_of(Some(z)) == Some(x.dv) <==> self.is_twin_in(self.one_ring(x.dv), z.index()))
        &&& forall|z: HalfEdgeID| self.he_live(z) && #[trigger] self.vertex_of(Some(z)) == Some(x.sv)
            && self.vertex_of(self.twin_of(Some(z))) == Some(x.dv) ==> z == h
    }

    /// Whether the half-edge is one of those that collapsing the edge of `h` removes.
    pub open spec fn collapse_removed(&self, h: HalfEdgeID, z: HalfEdgeID) -> bool {
        let x = self.collapse_names(h);
        ||| z == x.h || z == x.t
        ||| (self.face_of(Some(h)) is Some && (z == x.n || z == x.p))
        ||| (self.face_of(Some(x.t)) is Some && (z == x.tn || z == x.tp))
    }

    /// The twin of a half-edge once the edge of `h` is collapsed: the twins of the two other half-edges of each
    /// removed face become twins of each other.
    pub open spec fn collapse_twin(&self, h: HalfEdgeID, z: HalfEdgeID) -> Option<HalfEdgeID> {
        let x = self.collapse_names(h);
        let hf = self.face_of(Some(h)) is Some;
        let tfs = self.face_of(Some(x.t)) is Some;
        if hf && z == x.x1 {
            Some(x.x2)
        } else if hf && z == x.x2 {
            Some(x.x1)
        } else if tfs && z == x.y1 {
            Some(x.y2)
        } else if tfs && z == x.y2 {
            Some(x.y1)
        } else {
            self.twin_of(Some(z))
        }
    }

    /// `self` is `m` with the edge of `h` collapsed, told half-edge by half-edge, face by face and vertex by
    /// vertex.
    pub open spec fn is_collapse_shape_of(&self, m: Mesh<T>, h: HalfEdgeID, position: [T; 3]) -> bool {
        let x = m.collapse_names(h);
        let hf = m.face_of(Some(h)) is Some;
        let tfs = m.face_of(Some(x.t)) is Some;
        &&& forall|z: HalfEdgeID| #[trigger] self.he_live(z) == (m.he_live(z) && !m.collapse_removed(h, z))
        &&& forall|z: HalfEdgeID| self.he_live(z) ==> #[trigger] self.he(z) == Some(HalfEdge {
            vertex: if m.vertex_of(Some(z)) == Some(x.dv) { Some(x.sv) } else { m.vertex_of(Some(z)) },
            twin: m.collapse_twin(h, z),
            ..m.he(z)->0
        })
        &&& forall|g: FaceID| #[trigger] self.fc_live(g) == (m.fc_live(g) && !(hf && g == x.f) && !(tfs && g == x.tf))
        &&& forall|g: FaceID| self.fc_live(g) ==> #[trigger] self.fc(g) == m.fc(g)
        &&& forall|v: VertexID| #[trigger] self.vx_live(v) == (m.vx_live(v) && v != x.dv)
        &&& self.vertex_halfedge_of(x.sv) == Some(if hf { x.x2 } else { x.y2 })
        &&& tfs ==> self.vertex_halfedge_of(x.b) == Some(x.y1)
        &&& hf && !(tfs && x.a == x.b) ==> self.vertex_halfedge_of(x.a) == Some(x.x1)
        &&& forall|v: VertexID| self.vx_live(v) && v != x.sv && !(hf && v == x.a) && !(tfs && v == x.b)
            ==> #[trigger] self.vx(v) == m.vx(v)
    }
    /// What a valid mesh says of the names around an edge to collapse.
    proof fn lemma_collapse_names(m: Mesh<T>, h: HalfEdgeID)
        requires
            m.valid(),
            m.he_live(h),
            m.sides_share_only_edge(h),
        ensures
            ({
                let x = m.collapse_names(h);
                let hf = m.face_of(Some(h)) is Some;
                let tfs = m.face_of(Some(x.t)) is Some;
                &&& m.wf()
                &&& m.he_live(x.t) && x.t != h && m.twin_of(Some(h)) == Some(x.t) && m.twin_of(Some(x.t)) == Some(h)
                &&& m.vertex_of(Some(h)) == Some(x.sv) && m.vertex_of(Some(x.t)) == Some(x.dv)
                &&& x.sv != x.dv && m.vx_live(x.sv) && m.vx_live(x.dv)
                &&& hf ==> {
                    &&& m.he_live(x.n) && m.he_live(x.p)
                    &&& h != x.n && x.n != x.p && x.p != h && x.t != x.n && x.t != x.p
                    &&& m.next_of(Some(h)) == Some(x.n) && m.next_of(Some(x.n)) == Some(x.p) && m.next_of(Some(x.p)) == Some(h)
                    &&& m.face_of(Some(h)) == Some(x.f) && m.face_of(Some(x.n)) == Some(x.f) && m.face_of(Some(x.p)) == Some(x.f)
                    &&& m.fc_live(x.f)
                    &&& m.vertex_of(Some(x.n)) == Some(x.a) && m.vertex_of(Some(x.p)) == Some(x.dv)
                    &&& x.a != x.sv && x.a != x.dv && m.vx_live(x.a)
                    &&& m.he_live(x.x1) && m.he_live(x.x2) && x.x1 != x.x2
                    &&& m.twin_of(Some(x.n)) == Some(x.x1) && m.twin_of(Some(x.p)) == Some(x.x2)
                    &&& m.twin_of(Some(x.x1)) == Some(x.n) && m.twin_of(Some(x.x2)) == Some(x.p)
                    &&& m.vertex_of(Some(x.x1)) == Some(x.sv) && m.vertex_of(Some(x.x2)) == Some(x.a)
                    &&& x.x1 != h && x.x1 != x.t && x.x1 != x.n && x.x1 != x.p
                    &&& x.x2 != h && x.x2 != x.t && x.x2 != x.n && x.x2 != x.p
                }
                &&& tfs ==> {
                    &&& m.he_live(x.tn) && m.he_live(x.tp)
                    &&& x.t != x.tn && x.tn != x.tp && x.tp != x.t && h != x.tn && h != x.tp
                    &&& m.next_of(Some(x.t)) == Some(x.tn) && m.next_of(Some(x.tn)) == Some(x.tp) && m.next_of(Some(x.tp)) == Some(x.t)
                    &&& m.face_of(Some(x.t)) == Some(x.tf) && m.face_of(Some(x.tn)) == Some(x.tf) && m.face_of(Some(x.tp)) == Some(x.tf)
                    &&& m.fc_live(x.tf)
                    &&& m.vertex_of(Some(x.tn)) == Some(x.b) && m.vertex_of(Some(x.tp)) == Some(x.sv)
                    &&& x.b != x.sv && x.b != x.dv && m.vx_live(x.b)
                    &&& m.he_live(x.y1) && m.he_live(x.y2) && x.y1 != x.y2
                    &&& m.twin_of(Some(x.tn)) == Some(x.y1) && m.twin_of(Some(x.tp)) == Some(x.y2)
                    &&& m.twin_of(Some(x.y1)) == Some(x.tn) && m.twin_of(Some(x.y2)) == Some(x.tp)
                    &&& m.vertex_of(Some(x.y1)) == Some(x.dv) && m.vertex_of(Some(x.y2)) == Some(x.b)
                    &&& x.y1 != h && x.y1 != x.t && x.y1 != x.tn && x.y1 != x.tp
                    &&& x.y2 != h && x.y2 != x.t && x.y2 != x.tn && x.y2 != x.tp
                }
                &&& hf && tfs ==> {
                    &&& x.f != x.tf
                    &&& x.n != x.tn && x.n != x.tp && x.p != x.tn && x.p != x.tp
                    &&& x.x1 != x.tn && x.x1 != x.tp && x.x2 != x.tn && x.x2 != x.tp
                    &&& x.y1 != x.n && x.y1 != x.p && x.y2 != x.n && x.y2 != x.p
                    &&& x.x1 != x.y1 && x.x1 != x.y2 && x.x2 != x.y1 && x.x2 != x.y2
                }
            }),
    {
        m.lemma_valid_wf();
        m.lemma_wf();
        let x = m.collapse_names(h);
        m.lemma_halfedge_ok(h);
        m.lemma_halfedge_ok(x.t);
        if m.face_of(Some(h)) is Some {
            m.lemma_triangle(h);
            m.lemma_halfedge_ok(x.n);
            m.lemma_halfedge_ok(x.p);
            m.lemma_halfedge_ok(x.x1);
            m.lemma_halfedge_ok(x.x2);
            m.lemma_triangle(x.n);
            m.lemma_triangle(x.p);
        }
        if m.face_of(Some(x.t)) is Some {
            m.lemma_triangle(x.t);
            m.lemma_halfedge_ok(x.tn);
            m.lemma_halfedge_ok(x.tp);
            m.lemma_halfedge_ok(x.y1);
            m.lemma_halfedge_ok(x.y2);
            m.lemma_triangle(x.tn);
            m.lemma_triangle(x.tp);
        }
    }
    /// The steps of `collapse_edge` give the collapse that [Mesh::is_collapse_shape_of] tells.
    #[verifier::rlimit(100)]
    pub proof fn lemma_collapse_shape(m: Mesh<T>, m1: Mesh<T>, m2: Mesh<T>, m3: Mesh<T>, m4: Mesh<T>, m5: Mesh<T>,
        mc: Mesh<T>, h: HalfEdgeID, position: [T; 3])
        requires
            m.valid(),
            m.he_live(h),
            m.sides_share_only_edge(h),
            m.collapse_keeps_shape(h),
            mc.wf(),
            mc.collapse_steps(m, m1, m2, m3, m4, m5, h, position),
        ensures
            mc.is_collapse_shape_of(m, h, position),
    {
        Self::lemma_collapse_names(m, h);
        let x = m.collapse_names(h);
        let hf = m.face_of(Some(h)) is Some;
        let tfs = m.face_of(Some(x.t)) is Some;
        let ring = m.one_ring(x.dv);
        m.lemma_one_ring_live(x.dv);
        m.lemma_wf();
        m1.lemma_wf();
        m2.lemma_wf();
        m3.lemma_wf();
        m4.lemma_wf();
        m5.lemma_wf();
        mc.lemma_wf();
        let names = seq![x.h, x.t, x.n, x.p, x.tn, x.tp, x.x1, x.x2, x.y1, x.y2];
        // Step one: the half-edges that pointed to the dying vertex point to the surviving one.
        assert forall|z: HalfEdgeID| m.he_live(z) implies #[trigger] m1.he_live(z) && m1.he(z) == Some(HalfEdge {
            vertex: if m.vertex_of(Some(z)) == Some(x.dv) { Some(x.sv) } else { m.vertex_of(Some(z)) },
            ..m.he(z)->0
        }) by {
            assert(m.is_twin_in(ring, z.index()) == (m.vertex_of(Some(z)) == Some(x.dv)));
        }
        assert forall|z: HalfEdgeID| #[trigger] m1.he_live(z) == m.he_live(z) by {}
        // Step two: the vertex halfedge of the surviving vertex, or `t` dropped.
        if tfs {
            assert(m1.twin_of(m1.previous_of(Some(x.t))) == Some(x.y2));
            assert forall|z: HalfEdgeID| #[trigger] m2.he_live(z) == m1.he_live(z) by {}
            assert forall|z: HalfEdgeID| m1.he_live(z) implies #[trigger] m2.he(z) == m1.he(z) by {}
        } else {
            assert(m1.twin_of(Some(x.t)) == Some(h));
            assert forall|z: HalfEdgeID| #[trigger] m2.he_live(z) == (m1.he_live(z) && z != x.t) by {
                HalfEdgeID::lemma_index_injective(z, x.t);
            }
            assert forall|z: HalfEdgeID| m2.he_live(z) implies #[trigger] m2.he(z) == (if z == h {
                Some(HalfEdge { twin: None, ..m1.he(h)->0 })
            } else {
                m1.he(z)
            }) by {
                HalfEdgeID::lemma_index_injective(z, x.t);
                HalfEdgeID::lemma_index_injective(z, h);
            }
        }
        // Step three: the vertex halfedge of the surviving vertex again, where `h` has a face.
        if hf {
            assert(m2.he(x.p) == m1.he(x.p));
            assert(m2.twin_of(m2.previous_of(Some(h))) == Some(x.x2));
        }
        assert forall|z: HalfEdgeID| #[trigger] m3.he_live(z) == m2.he_live(z) by {}
        assert forall|z: HalfEdgeID| m2.he_live(z) implies #[trigger] m3.he(z) == m2.he(z) by {}
        // Step four: the face of `h` removed, or `h` dropped.
        if hf {
            assert(m3.next_of(Some(h)) == Some(x.n));
            assert(m3.next_of(Some(x.n)) == Some(x.p));
            assert(m3.twin_of(Some(x.n)) == Some(x.x1));
            assert(m3.twin_of(Some(x.p)) == Some(x.x2));
            assert(m3.vertex_of(Some(x.n)) == Some(x.a));
            assert(m3.face_of(Some(h)) == Some(x.f));
            assert forall|z: HalfEdgeID| #[trigger] m4.he_live(z) == (m3.he_live(z) && z != h && z != x.n && z != x.p) by {
                HalfEdgeID::lemma_index_injective(z, h);
                HalfEdgeID::lemma_index_injective(z, x.n);
                HalfEdgeID::lemma_index_injective(z, x.p);
                HalfEdgeID::lemma_index_injective(z, x.x1);
                HalfEdgeID::lemma_index_injective(z, x.x2);
                HalfEdgeID::lemma_index_injective(z, x.t);
            }
            assert forall|z: HalfEdgeID| m4.he_live(z) implies #[trigger] m4.he(z) == (if z == x.x1 {
                Some(HalfEdge { twin: Some(x.x2), ..m3.he(x.x1)->0 })
            } else if z == x.x2 {
                Some(HalfEdge { twin: Some(x.x1), ..m3.he(x.x2)->0 })
            } else if z == x.t {
                Some(HalfEdge { twin: None, ..m3.he(x.t)->0 })
            } else {
                m3.he(z)
            }) by {
                HalfEdgeID::lemma_index_injective(z, h);
                HalfEdgeID::lemma_index_injective(z, x.n);
                HalfEdgeID::lemma_index_injective(z, x.p);
                HalfEdgeID::lemma_index_injective(z, x.x1);
                HalfEdgeID::lemma_index_injective(z, x.x2);
                HalfEdgeID::lemma_index_injective(z, x.t);
            }
        } else {
            assert(m3.twin_of(Some(h)) == Some(x.t));
            assert forall|z: HalfEdgeID| #[trigger] m4.he_live(z) == (m3.he_live(z) && z != h) by {
                HalfEdgeID::lemma_index_injective(z, h);
            }
            assert forall|z: HalfEdgeID| m4.he_live(z) implies #[trigger] m4.he(z) == (if z == x.t {
                Some(HalfEdge { twin: None, ..m3.he(x.t)->0 })
            } else {
                m3.he(z)
            }) by {
                HalfEdgeID::lemma_index_injective(z, h);
                HalfEdgeID::lemma_index_injective(z, x.t);
            }
        }
        // Step five: the face of `t` removed.
        if tfs {
            assert(m4.he(x.t)->0.twin is None);
            assert(m4.next_of(Some(x.t)) == Some(x.tn));
            assert(m4.next_of(Some(x.tn)) == Some(x.tp));
            assert(m4.twin_of(Some(x.tn)) == Some(x.y1));
            assert(m4.twin_of(Some(x.tp)) == Some(x.y2));
            assert(m4.vertex_of(Some(x.tn)) == Some(x.b));
            assert(m4.face_of(Some(x.t)) == Some(x.tf));
            assert forall|z: HalfEdgeID| #[trigger] m5.he_live(z) == (m4.he_live(z) && z != x.t && z != x.tn && z != x.tp) by {
                HalfEdgeID::lemma_index_injective(z, x.t);
                HalfEdgeID::lemma_index_injective(z, x.tn);
                HalfEdgeID::lemma_index_injective(z, x.tp);
                HalfEdgeID::lemma_index_injective(z, x.y1);
                HalfEdgeID::lemma_index_injective(z, x.y2);
            }
            assert forall|z: HalfEdgeID| m5.he_live(z) implies #[trigger] m5.he(z) == (if z == x.y1 {
                Some(HalfEdge { twin: Some(x.y2), ..m4.he(x.y1)->0 })
            } else if z == x.y2 {
                Some(HalfEdge { twin: Some(x.y1), ..m4.he(x.y2)->0 })
            } else {
                m4.he(z)
            }) by {
                HalfEdgeID::lemma_index_injective(z, x.t);
                HalfEdgeID::lemma_index_injective(z, x.tn);
                HalfEdgeID::lemma_index_injective(z, x.tp);
                HalfEdgeID::lemma_index_injective(z, x.y1);
                HalfEdgeID::lemma_index_injective(z, x.y2);
            }
        } else {
            assert forall|z: HalfEdgeID| #[trigger] m5.he_live(z) == m4.he_live(z) by {}
            assert forall|z: HalfEdgeID| m4.he_live(z) implies #[trigger] m5.he(z) == m4.he(z) by {}
        }
        // The collapsed mesh, half-edge by half-edge.
        assert forall|z: HalfEdgeID| #[trigger] mc.he_live(z) == (m.he_live(z) && !m.collapse_removed(h, z)) by {
            assert(mc.he_live(z) == m5.he_live(z));
        }
        assert forall|z: HalfEdgeID| mc.he_live(z) implies #[trigger] mc.he(z) == Some(HalfEdge {
            vertex: if m.vertex_of(Some(z)) == Some(x.dv) { Some(x.sv) } else { m.vertex_of(Some(z)) },
            twin: m.collapse_twin(h, z),
            ..m.he(z)->0
        }) by {
            assert(mc.he(z) == m5.he(z));
            assert(m1.he_live(z) && m2.he_live(z) && m3.he_live(z) && m4.he_live(z) && m5.he_live(z));
        }
        // Faces.
        assert forall|g: FaceID| #[trigger] mc.fc_live(g) == (m.fc_live(g) && !(hf && g == x.f) && !(tfs && g == x.tf)) by {
            FaceID::lemma_index_injective(g, x.f);
            FaceID::lemma_index_injective(g, x.tf);
        }
        assert forall|g: FaceID| mc.fc_live(g) implies #[trigger] mc.fc(g) == m.fc(g) by {
            FaceID::lemma_index_injective(g, x.f);
            FaceID::lemma_index_injective(g, x.tf);
            assert(m.fc_live(g));
        }
        // Vertices.
        VertexID::lemma_index_injective(x.sv, x.dv);
        VertexID::lemma_index_injective(x.a, x.dv);
        VertexID::lemma_index_injective(x.b, x.dv);
        VertexID::lemma_index_injective(x.a, x.sv);
        VertexID::lemma_index_injective(x.b, x.sv);
        VertexID::lemma_index_injective(x.a, x.b);
        assert forall|v: VertexID| #[trigger] mc.vx_live(v) == (m.vx_live(v) && v != x.dv) by {
            VertexID::lemma_index_injective(v, x.dv);
        }
        assert(mc.vx_live(x.sv));
        assert(mc.vertex_halfedge_of(x.sv) == Some(if hf { x.x2 } else { x.y2 }));
        if tfs {
            assert(mc.vx_live(x.b));
            assert(mc.vertex_halfedge_of(x.b) == Some(x.y1));
        }
        if hf && !(tfs && x.a == x.b) {
            assert(mc.vx_live(x.a));
            assert(mc.vertex_halfedge_of(x.a) == Some(x.x1));
        }
        assert forall|v: VertexID| mc.vx_live(v) && v != x.sv && !(hf && v == x.a) && !(tfs && v == x.b)
            implies #[trigger] mc.vx(v) == m.vx(v) by {
            VertexID::lemma_index_injective(v, x.dv);
            VertexID::lemma_index_injective(v, x.sv);
            VertexID::lemma_index_injective(v, x.a);
            VertexID::lemma_index_injective(v, x.b);
            assert(m.vx_live(v));
        }
    }
    /// Collapsing an edge of a valid mesh with a face on one side at least, where the half-edges that point to
    /// the dying vertex are the twins of its one-ring and no other edge joins the two vertices, gives a valid
    /// mesh.
    #[verifier::rlimit(60)]
    pub proof fn lemma_collapse_keeps_valid(m: Mesh<T>, mc: Mesh<T>, h: HalfEdgeID, position: [T; 3])
        requires
            m.valid(),
            m.he_live(h),
            m.sides_share_only_edge(h),
            m.collapse_keeps_shape(h),
            mc.wf(),
            mc.is_collapse_shape_of(m, h, position),
        ensures
            mc.valid(),
    {
        Self::lemma_collapse_names(m, h);
        let x = m.collapse_names(h);
        let hf = m.face_of(Some(h)) is Some;
        let tfs = m.face_of(Some(x.t)) is Some;
        m.lemma_wf();
        mc.lemma_wf();
        // A half-edge that stays keeps a twin that stays, with the twin naming it back and pointing elsewhere.
        assert forall|z: HalfEdgeID| #[trigger] mc.he_live(z) implies {
            &&& mc.twin_of(Some(z)) matches Some(tz) && mc.he_live(tz) && mc.twin_of(Some(tz)) == Some(z)
            &&& mc.vertex_of(mc.twin_of(Some(z))) != mc.vertex_of(Some(z))
        } by {
            m.lemma_halfedge_ok(z);
            let tz = m.twin_of(Some(z))->0;
            m.lemma_halfedge_ok(tz);
            if m.vertex_of(Some(z)) == Some(x.dv) && m.vertex_of(Some(tz)) == Some(x.sv) {
                assert(m.vertex_of(m.twin_of(Some(tz))) == Some(x.dv));
            }
        }
        assert forall|z: HalfEdgeID| #[trigger] mc.he_live(z) implies mc.halfedge_ok(z) by {
            m.lemma_halfedge_ok(z);
            let e = m.he(z)->0;
            if e.next is Some {
                m.lemma_triangle(z);
                let nz = e.next->0;
                let nnz = m.next_of(Some(nz))->0;
                m.lemma_halfedge_ok(nz);
                m.lemma_halfedge_ok(nnz);
                if e.face == Some(x.f) && hf {
                    m.lemma_face_members(h, z);
                }
                if e.face == Some(x.tf) && tfs {
                    m.lemma_face_members(x.t, z);
                }
                assert(!m.collapse_removed(h, nz));
                assert(!m.collapse_removed(h, nnz));
                assert(mc.he_live(nz) && mc.he_live(nnz));
                let tnz = m.twin_of(Some(nz))->0;
                m.lemma_halfedge_ok(tnz);
            }
        }
        assert forall|a: HalfEdgeID, b: HalfEdgeID| #[trigger] mc.same_face_pair_ok(a, b) by {
            if mc.he_live(a) && mc.he_live(b) && mc.face_of(Some(a)) is Some && mc.face_of(Some(a)) == mc.face_of(Some(b)) {
                m.lemma_face_members(a, b);
                m.lemma_triangle(a);
                let na = m.next_of(Some(a))->0;
                m.lemma_halfedge_ok(a);
                if m.face_of(Some(a)) == Some(x.f) && hf {
                    m.lemma_face_members(h, a);
                }
                if m.face_of(Some(a)) == Some(x.tf) && tfs {
                    m.lemma_face_members(x.t, a);
                }
                assert(!m.collapse_removed(h, na));
                assert(mc.he_live(na));
            }
        }
        assert forall|v: VertexID| mc.vx_live(v) implies #[trigger] mc.vertex_ok(v) by {
            if v != x.sv && !(hf && v == x.a) && !(tfs && v == x.b) {
                m.lemma_vertex_ok(v);
                let g = m.vertex_halfedge_of(v)->0;
                m.lemma_halfedge_ok(g);
                let tg = m.twin_of(Some(g))->0;
                m.lemma_halfedge_ok(tg);
                assert(mc.vx(v) == m.vx(v));
                assert(!m.collapse_removed(h, g));
                assert(mc.he_live(g));
            } else if v == x.sv {
                if hf {
                    assert(mc.he_live(x.x2));
                } else {
                    assert(mc.he_live(x.y2));
                }
            } else if tfs && v == x.b {
                assert(mc.he_live(x.y1));
            } else {
                assert(mc.he_live(x.x1));
            }
        }
        assert forall|g: FaceID| mc.fc_live(g) implies #[trigger] mc.face_ok(g) by {
            m.lemma_face_ok(g);
            let k = m.face_halfedge_of(g)->0;
            m.lemma_halfedge_ok(k);
            if hf && m.face_of(Some(k)) == Some(x.f) {
                assert(false);
            }
            if tfs && m.face_of(Some(k)) == Some(x.tf) {
                assert(false);
            }
            assert(!m.collapse_removed(h, k)) by {
                if hf {
                    if k == x.n || k == x.p || k == h {
                        assert(m.face_of(Some(k)) == Some(x.f));
                    }
                }
                if tfs {
                    if k == x.tn || k == x.tp || k == x.t {
                        assert(m.face_of(Some(k)) == Some(x.tf));
                    }
                }
            }
            assert(mc.he_live(k));
        }
        reveal(Mesh::valid);
    }
}

} // verus!
