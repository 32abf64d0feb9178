//! Splitting a face of a valid mesh at a new vertex gives a valid mesh.
use vstd::prelude::*;
use crate::ids::{FaceID, HalfEdgeID, VertexID, ID};
use super::Mesh;
use super::connectivity_info::HalfEdge;

verus! {

/// The names of the half-edges, faces and vertices that `split_face` reads and creates.
pub struct FaceSplitNames {
    pub f: FaceID,
    pub f1: FaceID,
    pub f2: FaceID,
    pub h1: HalfEdgeID,
    pub h2: HalfEdgeID,
    pub h3: HalfEdgeID,
    pub a3: HalfEdgeID,
    pub a2: HalfEdgeID,
    pub b3: HalfEdgeID,
    pub b2: HalfEdgeID,
    pub c2: HalfEdgeID,
    pub c1: HalfEdgeID,
    pub v1: VertexID,
    pub v2: VertexID,
    pub v3: VertexID,
    pub nv: VertexID,
}

impl<T: Copy> Mesh<T> {
    /// The names around face `f` and the fresh ids that a split of it takes.
    pub open spec fn face_split_names(&self, f: FaceID) -> FaceSplitNames {
        let h1 = self.face_halfedge_of(f)->0;
        let h2 = self.next_of(Some(h1))->0;
        let h3 = self.next_of(Some(h2))->0;
        FaceSplitNames {
            f,
            f1: self.nth_face_id(0),
            f2: self.nth_face_id(1),
            h1,
            h2,
            h3,
            a3: self.nth_halfedge_id(0),
            a2: self.nth_halfedge_id(1),
            b3: self.nth_halfedge_id(2),
            b2: self.nth_halfedge_id(3),
            c2: self.nth_halfedge_id(4),
            c1: self.nth_halfedge_id(5),
            v1: self.vertex_of(Some(h1))->0,
            v2: self.vertex_of(Some(h2))->0,
            v3: self.vertex_of(Some(h3))->0,
            nv: self.nth_vertex_id(0),
        }
    }

    /// Whether the half-edge is one of the six that a face split creates.
    pub open spec fn split_new(x: FaceSplitNames, y: HalfEdgeID) -> bool {
        y == x.a3 || y == x.a2 || y == x.b3 || y == x.b2 || y == x.c2 || y == x.c1
    }

    /// Whether the half-edge is one of the three of the face that is split.
    pub open spec fn split_old(x: FaceSplitNames, y: HalfEdgeID) -> bool {
        y == x.h1 || y == x.h2 || y == x.h3
    }

    /// What a face split does, half-edge by half-edge.
    proof fn lemma_face_split_setup(m: Mesh<T>, m2: Mesh<T>, f: FaceID, position: [T; 3])
        requires
            m.valid(),
            m.fc_live(f),
            m.room().0 >= 1,
            m.room().1 >= 6,
            m.room().2 >= 2,
            m2.wf(),
            m2.is_face_split_of(m, f, position),
        ensures
            ({
                let x = m.face_split_names(f);
                let t1 = m.twin_of(Some(x.h1))->0;
                let t2 = m.twin_of(Some(x.h2))->0;
                let t3 = m.twin_of(Some(x.h3))->0;
                &&& m.wf()
                &&& x.f != x.f1 && x.f != x.f2 && x.f1 != x.f2
                &&& m.fc_live(x.f) && !m.fc_live(x.f1) && !m.fc_live(x.f2)
                &&& x.v1 != x.v2 && x.v2 != x.v3 && x.v3 != x.v1
                &&& x.nv != x.v1 && x.nv != x.v2 && x.nv != x.v3
                &&& m.vx_live(x.v1) && m.vx_live(x.v2) && m.vx_live(x.v3) && !m.vx_live(x.nv)
                &&& x.h1 != x.h2 && x.h2 != x.h3 && x.h3 != x.h1
                &&& m.he_live(x.h1) && m.he_live(x.h2) && m.he_live(x.h3)
                &&& !m.he_live(x.a3) && !m.he_live(x.a2) && !m.he_live(x.b3)
                &&& !m.he_live(x.b2) && !m.he_live(x.c2) && !m.he_live(x.c1)
                &&& x.a3 != x.a2 && x.a3 != x.b3 && x.a3 != x.b2 && x.a3 != x.c2 && x.a3 != x.c1
                &&& x.a2 != x.b3 && x.a2 != x.b2 && x.a2 != x.c2 && x.a2 != x.c1
                &&& x.b3 != x.b2 && x.b3 != x.c2 && x.b3 != x.c1
                &&& x.b2 != x.c2 && x.b2 != x.c1 && x.c2 != x.c1
                &&& m.face_halfedge_of(x.f) == Some(x.h1)
                &&& m.he(x.h1)->0.next == Some(x.h2) && m.he(x.h2)->0.next == Some(x.h3) && m.he(x.h3)->0.next == Some(x.h1)
                &&& m.face_of(Some(x.h1)) == Some(x.f) && m.face_of(Some(x.h2)) == Some(x.f) && m.face_of(Some(x.h3)) == Some(x.f)
                &&& m.he_live(t1) && m.he_live(t2) && m.he_live(t3)
                &&& !Self::split_old(x, t1) && !Self::split_old(x, t2) && !Self::split_old(x, t3)
                &&& m.twin_of(Some(t1)) == Some(x.h1) && m.twin_of(Some(t2)) == Some(x.h2) && m.twin_of(Some(t3)) == Some(x.h3)
                &&& m.vertex_of(Some(t1)) == Some(x.v3) && m.vertex_of(Some(t2)) == Some(x.v1) && m.vertex_of(Some(t3)) == Some(x.v2)
                &&& m2.he(x.h1) == Some(HalfEdge { vertex: Some(x.v1), twin: Some(t1), next: Some(x.c1), face: Some(x.f) })
                &&& m2.he(x.h2) == Some(HalfEdge { vertex: Some(x.v2), twin: Some(t2), next: Some(x.a2), face: Some(x.f1) })
                &&& m2.he(x.h3) == Some(HalfEdge { vertex: Some(x.v3), twin: Some(t3), next: Some(x.b2), face: Some(x.f2) })
                &&& m2.he(x.a3) == Some(HalfEdge { vertex: Some(x.v1), twin: Some(x.c1), next: Some(x.h2), face: Some(x.f1) })
                &&& m2.he(x.a2) == Some(HalfEdge { vertex: Some(x.nv), twin: Some(x.b3), next: Some(x.a3), face: Some(x.f1) })
                &&& m2.he(x.b3) == Some(HalfEdge { vertex: Some(x.v2), twin: Some(x.a2), next: Some(x.h3), face: Some(x.f2) })
                &&& m2.he(x.b2) == Some(HalfEdge { vertex: Some(x.nv), twin: Some(x.c2), next: Some(x.b3), face: Some(x.f2) })
                &&& m2.he(x.c2) == Some(HalfEdge { vertex: Some(x.v3), twin: Some(x.b2), next: Some(x.h1), face: Some(x.f) })
                &&& m2.he(x.c1) == Some(HalfEdge { vertex: Some(x.nv), twin: Some(x.a3), next: Some(x.c2), face: Some(x.f) })
                &&& forall|y: HalfEdgeID| #[trigger] m2.he_live(y) == (m.he_live(y) || Self::split_new(x, y))
                &&& forall|y: VertexID| #[trigger] m2.vx_live(y) == (m.vx_live(y) || y == x.nv)
                &&& forall|y: FaceID| #[trigger] m2.fc_live(y) == (m.fc_live(y) || y == x.f1 || y == x.f2)
                &&& forall|y: HalfEdgeID| m.he_live(y) && !Self::split_old(x, y) ==> #[trigger] m2.he(y) == m.he(y)
                &&& forall|z: HalfEdgeID| m.he_live(z) ==> #[trigger] m2.twin_of(Some(z)) == m.twin_of(Some(z))
                &&& forall|z: HalfEdgeID| m.he_live(z) ==> #[trigger] m2.vertex_of(Some(z)) == m.vertex_of(Some(z))
                &&& forall|y: VertexID| m.vx_live(y) && y != x.v1 && y != x.v2 && y != x.v3 ==> #[trigger] m2.vx(y) == m.vx(y)
                &&& m2.vertex_halfedge_of(x.v1) == Some(x.h2) && m2.vertex_halfedge_of(x.v2) == Some(x.h3)
                &&& m2.vertex_halfedge_of(x.v3) == Some(x.b2) && m2.vertex_halfedge_of(x.nv) == Some(x.b3)
                &&& forall|g: FaceID| m.fc_live(g) && g != x.f ==> #[trigger] m2.fc(g) == m.fc(g)
                &&& m2.face_halfedge_of(x.f) == Some(x.h1) && m2.face_halfedge_of(x.f1) == Some(x.h2)
                &&& m2.face_halfedge_of(x.f2) == Some(x.h3)
            }),
    {
        m.lemma_valid_wf();
        m.lemma_wf();
        m2.lemma_wf();
        m.lemma_nth_ids();
        let x = m.face_split_names(f);
        m.lemma_face_ok(f);
        m.lemma_triangle(x.h1);
        m.lemma_triangle(x.h2);
        m.lemma_triangle(x.h3);
        m.lemma_halfedge_ok(x.h1);
        m.lemma_halfedge_ok(x.h2);
        m.lemma_halfedge_ok(x.h3);
        assert(m.nth_halfedge_id(0) != m.nth_halfedge_id(1));
        assert(m.nth_halfedge_id(0) != m.nth_halfedge_id(2));
        assert(m.nth_halfedge_id(0) != m.nth_halfedge_id(3));
        assert(m.nth_halfedge_id(0) != m.nth_halfedge_id(4));
        assert(m.nth_halfedge_id(0) != m.nth_halfedge_id(5));
        assert(m.nth_halfedge_id(1) != m.nth_halfedge_id(2));
        assert(m.nth_halfedge_id(1) != m.nth_halfedge_id(3));
        assert(m.nth_halfedge_id(1) != m.nth_halfedge_id(4));
        assert(m.nth_halfedge_id(1) != m.nth_halfedge_id(5));
        assert(m.nth_halfedge_id(2) != m.nth_halfedge_id(3));
        assert(m.nth_halfedge_id(2) != m.nth_halfedge_id(4));
        assert(m.nth_halfedge_id(2) != m.nth_halfedge_id(5));
        assert(m.nth_halfedge_id(3) != m.nth_halfedge_id(4));
        assert(m.nth_halfedge_id(3) != m.nth_halfedge_id(5));
        assert(m.nth_halfedge_id(4) != m.nth_halfedge_id(5));
        assert(m.nth_face_id(0) != m.nth_face_id(1));
        assert(!m.vx_live(m.nth_vertex_id(0)));
        assert(!m.fc_live(m.nth_face_id(0)) && !m.fc_live(m.nth_face_id(1)));
        assert(!m.he_live(x.a3) && !m.he_live(x.a2) && !m.he_live(x.b3));
        assert(!m.he_live(x.b2) && !m.he_live(x.c2) && !m.he_live(x.c1));
        let hs = seq![x.h1, x.h2, x.h3];
        let ns = seq![x.a3, x.a2, x.b3, x.b2, x.c2, x.c1];
        assert forall|i: int, j: int| 0 <= i < 3 && 0 <= j < 6 implies hs[i].index() != ns[j].index() by {
            HalfEdgeID::lemma_index_injective(hs[i], ns[j]);
        }
        assert forall|i: int, j: int| 0 <= i < 6 && 0 <= j < 6 && i != j implies ns[i].index() != ns[j].index() by {
            HalfEdgeID::lemma_index_injective(ns[i], ns[j]);
        }
        HalfEdgeID::lemma_index_injective(x.h1, x.h2);
        HalfEdgeID::lemma_index_injective(x.h2, x.h3);
        HalfEdgeID::lemma_index_injective(x.h1, x.h3);
        VertexID::lemma_index_injective(x.nv, x.v1);
        VertexID::lemma_index_injective(x.nv, x.v2);
        VertexID::lemma_index_injective(x.nv, x.v3);
        VertexID::lemma_index_injective(x.v1, x.v2);
        VertexID::lemma_index_injective(x.v2, x.v3);
        VertexID::lemma_index_injective(x.v1, x.v3);
        FaceID::lemma_index_injective(x.f, x.f1);
        FaceID::lemma_index_injective(x.f, x.f2);
        FaceID::lemma_index_injective(x.f1, x.f2);
        assert(hs[0] == x.h1 && hs[1] == x.h2 && hs[2] == x.h3);
        assert(ns[0] == x.a3 && ns[1] == x.a2 && ns[2] == x.b3 && ns[3] == x.b2 && ns[4] == x.c2 && ns[5] == x.c1);
        assert forall|y: HalfEdgeID| #[trigger] m2.he_live(y) == (m.he_live(y) || Self::split_new(x, y)) by {
            if m2.he_live(y) && !m.he_live(y) {
                HalfEdgeID::lemma_index_injective(y, x.a3);
                HalfEdgeID::lemma_index_injective(y, x.a2);
                HalfEdgeID::lemma_index_injective(y, x.b3);
                HalfEdgeID::lemma_index_injective(y, x.b2);
                HalfEdgeID::lemma_index_injective(y, x.c2);
                HalfEdgeID::lemma_index_injective(y, x.c1);
            }
        }
        assert forall|y: VertexID| #[trigger] m2.vx_live(y) == (m.vx_live(y) || y == x.nv) by {
            VertexID::lemma_index_injective(y, x.nv);
        }
        assert forall|y: FaceID| #[trigger] m2.fc_live(y) == (m.fc_live(y) || y == x.f1 || y == x.f2) by {
            FaceID::lemma_index_injective(y, x.f1);
            FaceID::lemma_index_injective(y, x.f2);
        }
        assert forall|y: HalfEdgeID| m.he_live(y) && !Self::split_old(x, y) implies #[trigger] m2.he(y) == m.he(y) by {
            HalfEdgeID::lemma_index_injective(y, x.h1);
            HalfEdgeID::lemma_index_injective(y, x.h2);
            HalfEdgeID::lemma_index_injective(y, x.h3);
            HalfEdgeID::lemma_index_injective(y, x.a3);
            HalfEdgeID::lemma_index_injective(y, x.a2);
            HalfEdgeID::lemma_index_injective(y, x.b3);
            HalfEdgeID::lemma_index_injective(y, x.b2);
            HalfEdgeID::lemma_index_injective(y, x.c2);
            HalfEdgeID::lemma_index_injective(y, x.c1);
        }
        assert forall|z: HalfEdgeID| m.he_live(z) implies #[trigger] m2.twin_of(Some(z)) == m.twin_of(Some(z)) by {
            if !Self::split_old(x, z) {
                assert(m2.he(z) == m.he(z));
            }
        }
        assert forall|z: HalfEdgeID| m.he_live(z) implies #[trigger] m2.vertex_of(Some(z)) == m.vertex_of(Some(z)) by {
            if !Self::split_old(x, z) {
                assert(m2.he(z) == m.he(z));
            }
        }
        assert forall|y: VertexID| m.vx_live(y) && y != x.v1 && y != x.v2 && y != x.v3 implies #[trigger] m2.vx(y) == m.vx(y) by {
            VertexID::lemma_index_injective(y, x.v1);
            VertexID::lemma_index_injective(y, x.v2);
            VertexID::lemma_index_injective(y, x.v3);
            VertexID::lemma_index_injective(y, x.nv);
        }
        assert forall|g: FaceID| m.fc_live(g) && g != x.f implies #[trigger] m2.fc(g) == m.fc(g) by {
            FaceID::lemma_index_injective(g, x.f);
            FaceID::lemma_index_injective(g, x.f1);
            FaceID::lemma_index_injective(g, x.f2);
        }
    }
    /// After the split, a half-edge of the mesh outside the split face is as `halfedge_ok` says.
    proof fn lemma_face_split_other_ok(m: Mesh<T>, m2: Mesh<T>, f: FaceID, position: [T; 3], y: HalfEdgeID)
        requires
            m.valid(),
            m.fc_live(f),
            m.room().0 >= 1,
            m.room().1 >= 6,
            m.room().2 >= 2,
            m2.wf(),
            m2.is_face_split_of(m, f, position),
            m.he_live(y),
            !Self::split_old(m.face_split_names(f), y),
        ensures
            m2.halfedge_ok(y),
    {
        Self::lemma_face_split_setup(m, m2, f, position);
        let x = m.face_split_names(f);
        m.lemma_halfedge_ok(y);
        let e = m.he(y)->0;
        let ty = e.twin->0;
        m.lemma_halfedge_ok(ty);
        if e.next is Some {
            m.lemma_triangle(y);
            if e.face == Some(x.f) {
                m.lemma_face_members(x.h1, y);
            }
            let ny = e.next->0;
            let nny = m.next_of(Some(ny))->0;
            m.lemma_halfedge_ok(ny);
            assert(!Self::split_old(x, ny));
            assert(!Self::split_old(x, nny));
            assert(m2.he(ny) == m.he(ny));
            assert(m2.he(nny) == m.he(nny));
        }
        assert(m2.he(y) == m.he(y));
    }

    /// After the split, the three half-edges of the split face and the six new ones are as `halfedge_ok` says.
    proof fn lemma_face_split_nine_ok(m: Mesh<T>, m2: Mesh<T>, f: FaceID, position: [T; 3])
        requires
            m.valid(),
            m.fc_live(f),
            m.room().0 >= 1,
            m.room().1 >= 6,
            m.room().2 >= 2,
            m2.wf(),
            m2.is_face_split_of(m, f, position),
        ensures
            ({
                let x = m.face_split_names(f);
                &&& m2.halfedge_ok(x.h1) && m2.halfedge_ok(x.h2) && m2.halfedge_ok(x.h3)
                &&& m2.halfedge_ok(x.a3) && m2.halfedge_ok(x.a2) && m2.halfedge_ok(x.b3)
                &&& m2.halfedge_ok(x.b2) && m2.halfedge_ok(x.c2) && m2.halfedge_ok(x.c1)
            }),
    {
        Self::lemma_face_split_setup(m, m2, f, position);
    }

    /// After the split, a half-edge's face says which of the triangles it belongs to.
    proof fn lemma_face_split_members(m: Mesh<T>, m2: Mesh<T>, f: FaceID, position: [T; 3], z: HalfEdgeID)
        requires
            m.valid(),
            m.fc_live(f),
            m.room().0 >= 1,
            m.room().1 >= 6,
            m.room().2 >= 2,
            m2.wf(),
            m2.is_face_split_of(m, f, position),
            m2.he_live(z),
        ensures
            ({
                let x = m.face_split_names(f);
                &&& m2.face_of(Some(z)) == Some(x.f) ==> (z == x.h1 || z == x.c1 || z == x.c2)
                &&& m2.face_of(Some(z)) == Some(x.f1) ==> (z == x.h2 || z == x.a2 || z == x.a3)
                &&& m2.face_of(Some(z)) == Some(x.f2) ==> (z == x.h3 || z == x.b2 || z == x.b3)
                &&& (m2.face_of(Some(z)) != Some(x.f) && m2.face_of(Some(z)) != Some(x.f1) && m2.face_of(Some(z)) != Some(x.f2)) ==> {
                    &&& m.he_live(z)
                    &&& !Self::split_old(x, z)
                    &&& m2.he(z) == m.he(z)
                }
            }),
    {
        Self::lemma_face_split_setup(m, m2, f, position);
        let x = m.face_split_names(f);
        if !Self::split_old(x, z) && !Self::split_new(x, z) {
            assert(m2.he(z) == m.he(z));
            m.lemma_halfedge_ok(z);
            if m.face_of(Some(z)) == Some(x.f) {
                m.lemma_face_members(x.h1, z);
            }
        }
    }

    /// After the split, two half-edges with the same face lie on one triangle.
    proof fn lemma_face_split_pair_ok(m: Mesh<T>, m2: Mesh<T>, f: FaceID, position: [T; 3], a: HalfEdgeID, b: HalfEdgeID)
        requires
            m.valid(),
            m.fc_live(f),
            m.room().0 >= 1,
            m.room().1 >= 6,
            m.room().2 >= 2,
            m2.wf(),
            m2.is_face_split_of(m, f, position),
        ensures
            m2.same_face_pair_ok(a, b),
    {
        Self::lemma_face_split_setup(m, m2, f, position);
        let x = m.face_split_names(f);
        if m2.he_live(a) && m2.he_live(b) && m2.face_of(Some(a)) is Some && m2.face_of(Some(a)) == m2.face_of(Some(b)) {
            Self::lemma_face_split_members(m, m2, f, position, a);
            Self::lemma_face_split_members(m, m2, f, position, b);
            let fa = m2.face_of(Some(a));
            if fa != Some(x.f) && fa != Some(x.f1) && fa != Some(x.f2) {
                m.lemma_face_members(a, b);
                m.lemma_triangle(a);
                let na = m.next_of(Some(a))->0;
                Self::lemma_face_split_members(m, m2, f, position, na);
                let pa = m.next_of(Some(na))->0;
                Self::lemma_face_split_members(m, m2, f, position, pa);
            }
        }
    }

    /// After the split, every vertex and face is as `vertex_ok` and `face_ok` say.
    proof fn lemma_face_split_vertices_faces_ok(m: Mesh<T>, m2: Mesh<T>, f: FaceID, position: [T; 3])
        requires
            m.valid(),
            m.fc_live(f),
            m.room().0 >= 1,
            m.room().1 >= 6,
            m.room().2 >= 2,
            m2.wf(),
            m2.is_face_split_of(m, f, position),
        ensures
            forall|v: VertexID| m2.vx_live(v) ==> #[trigger] m2.vertex_ok(v),
            forall|g: FaceID| m2.fc_live(g) ==> #[trigger] m2.face_ok(g),
    {
        Self::lemma_face_split_setup(m, m2, f, position);
        let x = m.face_split_names(f);
        assert forall|v: VertexID| m2.vx_live(v) implies #[trigger] m2.vertex_ok(v) by {
            if v != x.nv && v != x.v1 && v != x.v2 && v != x.v3 {
                m.lemma_vertex_ok(v);
                let g = m.vertex_halfedge_of(v)->0;
                m.lemma_halfedge_ok(g);
            }
        }
        assert forall|g: FaceID| m2.fc_live(g) implies #[trigger] m2.face_ok(g) by {
            if g != x.f && g != x.f1 && g != x.f2 {
                m.lemma_face_ok(g);
                let k = m.face_halfedge_of(g)->0;
                assert(!Self::split_old(x, k));
                assert(m2.he(k) == m.he(k));
            }
        }
    }

    /// After the split, every half-edge is as `halfedge_ok` says.
    proof fn lemma_face_split_halfedges_ok(m: Mesh<T>, m2: Mesh<T>, f: FaceID, position: [T; 3])
        requires
            m.valid(),
            m.fc_live(f),
            m.room().0 >= 1,
            m.room().1 >= 6,
            m.room().2 >= 2,
            m2.wf(),
            m2.is_face_split_of(m, f, position),
        ensures
            forall|y: HalfEdgeID| #[trigger] m2.he_live(y) ==> m2.halfedge_ok(y),
    {
        Self::lemma_face_split_setup(m, m2, f, position);
        let x = m.face_split_names(f);
        Self::lemma_face_split_nine_ok(m, m2, f, position);
        assert forall|y: HalfEdgeID| #[trigger] m2.he_live(y) implies m2.halfedge_ok(y) by {
            if !Self::split_old(x, y) && !Self::split_new(x, y) {
                Self::lemma_face_split_other_ok(m, m2, f, position, y);
            }
        }
    }

    /// Splitting a face of a valid mesh at a new vertex gives a valid mesh.
    pub proof fn lemma_face_split_keeps_valid(m: Mesh<T>, m2: Mesh<T>, f: FaceID, position: [T; 3])
        requires
            m.valid(),
            m.fc_live(f),
            m.room().0 >= 1,
            m.room().1 >= 6,
            m.room().2 >= 2,
            m2.wf(),
            m2.is_face_split_of(m, f, position),
        ensures
            m2.valid(),
    {
        Self::lemma_face_split_halfedges_ok(m, m2, f, position);
        Self::lemma_face_split_vertices_faces_ok(m, m2, f, position);
        assert forall|a: HalfEdgeID, b: HalfEdgeID| #[trigger] m2.same_face_pair_ok(a, b) by {
            Self::lemma_face_split_pair_ok(m, m2, f, position, a, b);
        }
        reveal(Mesh::valid);
    }
}

} // verus!
