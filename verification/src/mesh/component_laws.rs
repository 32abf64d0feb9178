//! Being in the same connected component is an equivalence when a cut treats both half-edges of an edge alike,
//! so the components of a mesh partition its faces.
use vstd::prelude::*;
use crate::ids::{FaceID, HalfEdgeID, ID};
use super::Mesh;

verus! {

impl<T: Copy> Mesh<T> {
    /// The cut holds the same value for both half-edges of every edge.
    pub open spec fn cut_symmetric(&self, cut: Seq<bool>) -> bool {
        forall|h: HalfEdgeID| #[trigger] self.he_live(h) ==> (self.twin_of(Some(h)) matches Some(t)
            && cut[h.index() as int] == cut[t.index() as int])
    }

    /// In a valid mesh, the three half-edges of a face lie in that face.
    pub proof fn lemma_face_ring_in_face(&self, f: FaceID, i: int)
        requires
            self.valid(),
            self.fc_live(f),
            0 <= i < 3,
        ensures
            self.he_live(self.face_ring(f)[i]),
            self.face_of(Some(self.face_ring(f)[i])) == Some(f),
    {
        self.lemma_face_ok(f);
        let h0 = self.face_halfedge_of(f)->0;
        self.lemma_triangle(h0);
    }

    /// In a valid mesh, a half-edge with a face is one of the three half-edges of that face.
    pub proof fn lemma_in_own_ring(&self, x: HalfEdgeID)
        requires
            self.valid(),
            self.he_live(x),
            self.face_of(Some(x)) is Some,
        ensures
            self.in_own_ring(x),
    {
        let b = self.face_of(Some(x))->0;
        self.lemma_triangle(x);
        self.lemma_face_ok(b);
        let h0 = self.face_halfedge_of(b)->0;
        self.lemma_triangle(h0);
        reveal(Mesh::valid);
        assert(self.same_face_pair_ok(h0, x));
        let ring = self.face_ring(b);
        if x == h0 {
            assert(ring[2] == x);
        } else if Some(x) == self.next_of(Some(h0)) {
            assert(ring[0] == x);
        } else {
            assert(ring[1] == x);
        }
    }

    /// With a symmetric cut, a face is adjacent to a live face exactly when that face is adjacent to it.
    pub proof fn lemma_adjacent_symmetric(&self, a: FaceID, b: FaceID, cut: Seq<bool>)
        requires
            self.valid(),
            cut.len() == self.he_slot_count(),
            self.cut_symmetric(cut),
            self.fc_live(a),
            self.adjacent_across(a, b, cut),
        ensures
            self.fc_live(b),
            self.adjacent_across(b, a, cut),
    {
        let i = choose|i: int| 0 <= i < 3 && !cut[(#[trigger] self.face_ring(a)[i]).index() as int]
            && self.face_of(self.twin_of(Some(self.face_ring(a)[i]))) == Some(b);
        let x = self.face_ring(a)[i];
        self.lemma_face_ring_in_face(a, i);
        self.lemma_neighbour_live(a, i);
        self.lemma_halfedge_ok(x);
        let t = self.twin_of(Some(x))->0;
        self.lemma_halfedge_ok(t);
        assert(self.he_live(x));
        assert(cut[x.index() as int] == cut[t.index() as int]);
        self.lemma_in_own_ring(t);
        let k = choose|k: int| 0 <= k < 3 && #[trigger] self.face_ring(self.face_of(Some(t))->0)[k] == t;
        assert(self.face_ring(b)[k] == t);
        assert(self.face_of(self.twin_of(Some(self.face_ring(b)[k]))) == Some(a));
    }

    /// Every face of a walk from a live face is live.
    proof fn lemma_walk_live(&self, p: Seq<FaceID>, cut: Seq<bool>, k: int)
        requires
            self.valid(),
            cut.len() == self.he_slot_count(),
            self.cut_symmetric(cut),
            p.len() > 0,
            self.fc_live(p[0]),
            self.is_walk(p, cut),
            0 <= k < p.len(),
        ensures
            self.fc_live(p[k]),
        decreases k,
    {
        if k > 0 {
            self.lemma_walk_live(p, cut, k - 1);
            assert(self.walk_step(p, k - 1, cut));
            self.lemma_adjacent_symmetric(p[k - 1], p[k], cut);
        }
    }

    /// With a symmetric cut, `a` is in the component of a live face `b` exactly when `b` is in that of `a`.
    pub proof fn lemma_component_symmetric(&self, a: FaceID, b: FaceID, cut: Seq<bool>)
        requires
            self.valid(),
            cut.len() == self.he_slot_count(),
            self.cut_symmetric(cut),
            self.fc_live(a),
            self.in_component(a, b, cut),
        ensures
            self.in_component(b, a, cut),
    {
        reveal(Mesh::in_component);
        let p = choose|p: Seq<FaceID>| p.len() > 0 && p[0] == a && p.last() == b && #[trigger] self.is_walk(p, cut);
        let q = p.reverse();
        assert forall|i: int| 0 <= i < q.len() - 1 implies #[trigger] self.walk_step(q, i, cut) by {
            let j = p.len() - 2 - i;
            assert(self.walk_step(p, j, cut));
            self.lemma_walk_live(p, cut, j);
            self.lemma_adjacent_symmetric(p[j], p[j + 1], cut);
            assert(q[i] == p[j + 1] && q[i + 1] == p[j]);
        }
        assert(q[0] == b && q.last() == a);
        assert(self.is_walk(q, cut));
    }

    /// Being in the same component is transitive.
    pub proof fn lemma_component_transitive(&self, a: FaceID, b: FaceID, c: FaceID, cut: Seq<bool>)
        requires
            self.in_component(a, b, cut),
            self.in_component(b, c, cut),
        ensures
            self.in_component(a, c, cut),
    {
        reveal(Mesh::in_component);
        let p = choose|p: Seq<FaceID>| p.len() > 0 && p[0] == a && p.last() == b && #[trigger] self.is_walk(p, cut);
        let q = choose|q: Seq<FaceID>| q.len() > 0 && q[0] == b && q.last() == c && #[trigger] self.is_walk(q, cut);
        let r = p + q.drop_first();
        assert forall|i: int| 0 <= i < r.len() - 1 implies #[trigger] self.walk_step(r, i, cut) by {
            if i < p.len() - 1 {
                assert(self.walk_step(p, i, cut));
                assert(r[i] == p[i] && r[i + 1] == p[i + 1]);
            } else {
                let j = i - (p.len() - 1);
                assert(self.walk_step(q, j, cut));
                assert(r[i] == q[j] && r[i + 1] == q[j + 1]);
            }
        }
        assert(r[0] == a);
        assert(r.last() == c);
        assert(self.is_walk(r, cut));
    }

    /// Two components of the list share no face.
    proof fn lemma_components_disjoint(&self, comps: Seq<Seq<FaceID>>, starts: Seq<FaceID>, cut: Seq<bool>,
        g: FaceID, lo: int, hi: int)
        requires
            self.valid(),
            cut.len() == self.he_slot_count(),
            self.cut_symmetric(cut),
            self.are_components(comps, starts, cut),
            0 <= lo < hi < comps.len(),
        ensures
            !(comps[lo].contains(g) && comps[hi].contains(g)),
    {
        if comps[lo].contains(g) && comps[hi].contains(g) {
            assert(self.in_component(starts[lo], g, cut));
            assert(self.in_component(starts[hi], g, cut));
            assert(self.fc_live(starts[hi]));
            self.lemma_component_symmetric(starts[hi], g, cut);
            self.lemma_component_transitive(starts[lo], g, starts[hi], cut);
            assert(comps[lo].contains(starts[hi]));
        }
    }

    /// With a cut that treats both half-edges of an edge alike, the components that
    /// [Mesh::connected_components_with_limit] describes partition the faces: every face of the mesh lies in
    /// exactly one of them.
    pub proof fn lemma_components_partition(&self, comps: Seq<Seq<FaceID>>, starts: Seq<FaceID>, cut: Seq<bool>)
        requires
            self.valid(),
            cut.len() == self.he_slot_count(),
            self.cut_symmetric(cut),
            self.are_components(comps, starts, cut),
        ensures
            forall|g: FaceID| #[trigger] self.fc_live(g) ==> exists|i: int| 0 <= i < comps.len() && comps[i].contains(g),
            forall|g: FaceID, i: int, j: int| 0 <= i < comps.len() && 0 <= j < comps.len()
                && #[trigger] comps[i].contains(g) && #[trigger] comps[j].contains(g) ==> i == j,
    {
        assert forall|g: FaceID| #[trigger] self.fc_live(g) implies exists|i: int| 0 <= i < comps.len() && comps[i].contains(g) by {
            let j = choose|j: int| 0 <= j < starts.len() && starts[j].index() <= g.index() && comps[j].contains(g);
        }
        assert forall|g: FaceID, i: int, j: int| 0 <= i < comps.len() && 0 <= j < comps.len()
            && #[trigger] comps[i].contains(g) && #[trigger] comps[j].contains(g) implies i == j by {
            if i < j {
                self.lemma_components_disjoint(comps, starts, cut, g, i, j);
            } else if j < i {
                self.lemma_components_disjoint(comps, starts, cut, g, j, i);
            }
        }
    }

    /// The cut of no half-edge treats both half-edges of every edge alike.
    pub proof fn lemma_uncut_symmetric(&self)
        requires
            self.valid(),
        ensures
            self.cut_symmetric(self.uncut()),
            self.uncut().len() == self.he_slot_count(),
    {
        assert forall|h: HalfEdgeID| #[trigger] self.he_live(h) implies (self.twin_of(Some(h)) matches Some(t)
            && self.uncut()[h.index() as int] == self.uncut()[t.index() as int]) by {
            self.lemma_halfedge_ok(h);
            self.lemma_valid_wf();
            self.lemma_wf();
            self.lemma_he_slots();
            let t = self.twin_of(Some(h))->0;
            assert(self.he(t) is Some);
            assert(self.he(h) is Some);
        }
    }
}

} // verus!
