//! Merging of the faces, edges and vertices that lie on top of each other.
use vstd::prelude::*;
use crate::ids::{FaceID, HalfEdgeID, VertexID, ID};
use crate::error::Error;
use super::Mesh;
use super::iterators::lists_in_order;
use super::overlap::vertex_groups;
use super::connectivity_info::HalfEdge;

verus! {

/// The groups, each as a sequence.
pub open spec fn group_views<K>(groups: Seq<Vec<K>>) -> Seq<Seq<K>> {
    groups.map_values(|g: Vec<K>| g@)
}

/// Every group without its first element, one group after the other.
pub open spec fn group_tails<K>(groups: Seq<Seq<K>>) -> Seq<K>
    decreases groups.len(),
{
    if groups.len() == 0 {
        seq![]
    } else {
        let g = groups.last();
        group_tails(groups.drop_last()) + (if g.len() == 0 { seq![] } else { g.subrange(1, g.len() as int) })
    }
}

/// For every group, the first element paired with each later one, marked where the pair is the first of its group.
pub open spec fn group_pairs<K>(groups: Seq<Seq<K>>) -> Seq<(K, K, bool)>
    decreases groups.len(),
{
    if groups.len() == 0 {
        seq![]
    } else {
        let g = groups.last();
        group_pairs(groups.drop_last()) + (if g.len() == 0 {
            seq![]
        } else {
            Seq::new((g.len() - 1) as nat, |j: int| (g[0], g[j + 1], j == 0))
        })
    }
}

/// The elements of the groups without the first of each.
pub fn tails_of<K: Copy>(groups: &Vec<Vec<K>>) -> (r: Vec<K>)
    ensures
        r@ == group_tails(group_views(groups@)),
{
    let ghost gv = group_views(groups@);
    let mut r: Vec<K> = Vec::new();
    let mut k: usize = 0;
    while k < groups.len()
        invariant
            gv == group_views(groups@),
            k <= groups.len(),
            r@ == group_tails(gv.take(k as int)),
        decreases groups.len() - k,
    {
        let g = &groups[k];
        proof {
            assert(gv[k as int] == g@);
            assert(gv.take(k + 1).drop_last() =~= gv.take(k as int));
            assert(gv.take(k + 1).last() == g@);
        }
        if g.len() > 0 {
            let ghost start = r@;
            let mut j: usize = 1;
            while j < g.len()
                invariant
                    1 <= j <= g.len(),
                    r@ == start + g@.subrange(1, j as int),
                decreases g.len() - j,
            {
                r.push(g[j]);
                proof { assert(start + g@.subrange(1, j + 1) =~= (start + g@.subrange(1, j as int)).push(g@[j as int])); }
                j += 1;
            }
        } else {
            proof { assert(r@ + seq![] =~= r@); }
        }
        k += 1;
    }
    proof { assert(gv.take(groups.len() as int) =~= gv); }
    r
}

/// For every group, its first element paired with each later one, marked where the pair is the first of its
/// group.
pub fn pairs_of<K: Copy>(groups: &Vec<Vec<K>>) -> (r: Vec<(K, K, bool)>)
    ensures
        r@ == group_pairs(group_views(groups@)),
{
    let ghost gv = group_views(groups@);
    let mut r: Vec<(K, K, bool)> = Vec::new();
    let mut k: usize = 0;
    while k < groups.len()
        invariant
            gv == group_views(groups@),
            k <= groups.len(),
            r@ == group_pairs(gv.take(k as int)),
        decreases groups.len() - k,
    {
        let g = &groups[k];
        proof {
            assert(gv[k as int] == g@);
            assert(gv.take(k + 1).drop_last() =~= gv.take(k as int));
            assert(gv.take(k + 1).last() == g@);
        }
        if g.len() > 0 {
            let ghost start = r@;
            let ghost gs = g@;
            let first = g[0];
            let mut j: usize = 1;
            while j < g.len()
                invariant
                    gs == g@,
                    first == gs[0],
                    1 <= j <= g.len(),
                    r@ == start + Seq::new((j - 1) as nat, |i: int| (gs[0], gs[i + 1], i == 0)),
                decreases g.len() - j,
            {
                r.push((first, g[j], j == 1));
                proof {
                    assert(start + Seq::new(j as nat, |i: int| (gs[0], gs[i + 1], i == 0))
                        =~= (start + Seq::new((j - 1) as nat, |i: int| (gs[0], gs[i + 1], i == 0))).push((first, gs[j as int], j == 1)));
                }
                j += 1;
            }
        } else {
            proof { assert(r@ + seq![] =~= r@); }
        }
        k += 1;
    }
    proof { assert(gv.take(groups.len() as int) =~= gv); }
    r
}

impl<T: Copy> Mesh<T> {
    /// `self` is `m` with face `f` removed as [Mesh::remove_face_unsafe] removes it, or `m` itself where `f` is
    /// not a face of `m`.
    pub open spec fn face_removal_step(&self, m: Mesh<T>, f: FaceID) -> bool {
        if m.fc_live(f) { self.is_face_detached_of(m, f) } else { *self == m }
    }

    /// Each mesh of the chain is the one before with the next face of the list removed.
    pub open spec fn face_removal_chain(s: Seq<Mesh<T>>, fs: Seq<FaceID>) -> bool {
        &&& s.len() == fs.len() + 1
        &&& forall|i: int| 0 <= i < fs.len() ==> #[trigger] s[i + 1].face_removal_step(s[i], fs[i])
    }

    /// `self` is `m` with the faces of the list removed, one after the other.
    pub open spec fn faces_removed_along(&self, m: Mesh<T>, fs: Seq<FaceID>) -> bool {
        exists|s: Seq<Mesh<T>>| #[trigger] Self::face_removal_chain(s, fs) && s[0] == m && s.last() == *self
    }

    /// Removes the faces of the list, one after the other, skipping a face that is no longer in the mesh.
    pub fn remove_faces_along(&mut self, fs: &Vec<FaceID>)
        requires
            old(self).valid(),
        ensures
            final(self).valid(),
            final(self).faces_removed_along(*old(self), fs@),
    {
        let ghost mut chain: Seq<Mesh<T>> = seq![*self];
        let mut i: usize = 0;
        while i < fs.len()
            invariant
                self.valid(),
                i <= fs.len(),
                chain.len() == i + 1,
                chain[0] == *old(self),
                chain.last() == *self,
                forall|j: int| 0 <= j < i ==> #[trigger] chain[j + 1].face_removal_step(chain[j], fs@[j]),
            decreases fs.len() - i,
        {
            let ghost before = *self;
            proof { self.lemma_valid_wf(); }
            let f = fs[i];
            if self.contains_face(f) {
                self.remove_face_unsafe(f);
            }
            proof {
                assert(self.face_removal_step(before, f));
                chain = chain.push(*self);
            }
            i += 1;
        }
        proof {
            assert(Self::face_removal_chain(chain, fs@));
        }
    }

    /// `self` is `m` with the vertex `p.1` merged into `p.0` as [Mesh::merge_vertices] merges them.
    pub open spec fn vertex_merge_step(&self, m: Mesh<T>, p: (VertexID, VertexID, bool)) -> bool {
        &&& self.halfedges() == m.vertex_merged(p.0, p.1)
        &&& self.vertices() == m.vertices().remove(p.1.index())
        &&& self.faces() == m.faces()
    }

    /// Each mesh of the chain is the one before with the next pair of vertices merged.
    pub open spec fn vertex_merge_chain(s: Seq<Mesh<T>>, ps: Seq<(VertexID, VertexID, bool)>) -> bool {
        &&& s.len() == ps.len() + 1
        &&& forall|i: int| 0 <= i < ps.len() ==> #[trigger] s[i + 1].vertex_merge_step(s[i], ps[i])
    }

    /// `self` is `m` with the pairs of vertices of the list merged, one after the other.
    pub open spec fn vertices_merged_along(&self, m: Mesh<T>, ps: Seq<(VertexID, VertexID, bool)>) -> bool {
        exists|s: Seq<Mesh<T>>| #[trigger] Self::vertex_merge_chain(s, ps) && s[0] == m && s.last() == *self
    }

    /// Merging two vertices leaves every half-edge pointing to a vertex.
    proof fn lemma_vertex_merge_all_point(m: Mesh<T>, m2: Mesh<T>, v1: VertexID, v2: VertexID)
        requires
            m.wf(),
            m2.wf(),
            m.all_point(),
            m2.halfedges() == m.vertex_merged(v1, v2),
        ensures
            m2.all_point(),
    {
        m.lemma_wf();
        m2.lemma_wf();
        assert forall|x: HalfEdgeID| m2.he_live(x) implies (#[trigger] m2.vertex_of(Some(x))) is Some by {
            assert(m.vertex_of(Some(x)) is Some);
        }
    }

    /// Merges the second vertex of each pair of the list into the first, one pair after the other.
    pub fn merge_vertices_along(&mut self, ps: &Vec<(VertexID, VertexID, bool)>)
        requires
            old(self).wf(),
            old(self).all_point(),
        ensures
            final(self).wf(),
            final(self).all_point(),
            final(self).vertices_merged_along(*old(self), ps@),
    {
        let ghost mut chain: Seq<Mesh<T>> = seq![*self];
        let mut i: usize = 0;
        while i < ps.len()
            invariant
                self.wf(),
                self.all_point(),
                i <= ps.len(),
                chain.len() == i + 1,
                chain[0] == *old(self),
                chain.last() == *self,
                forall|j: int| 0 <= j < i ==> #[trigger] chain[j + 1].vertex_merge_step(chain[j], ps@[j]),
            decreases ps.len() - i,
        {
            let ghost before = *self;
            let (v1, v2, _) = ps[i];
            let _ = self.merge_vertices(v1, v2);
            proof {
                Self::lemma_vertex_merge_all_point(before, *self, v1, v2);
                assert(self.vertex_merge_step(before, ps@[i as int]));
                chain = chain.push(*self);
            }
            i += 1;
        }
        proof {
            assert(Self::vertex_merge_chain(chain, ps@));
        }
    }
    /// Whether the two half-edges can be handed to [Mesh::merge_halfedges].
    fn merge_ready_check(&self, h1: HalfEdgeID, h2: HalfEdgeID) -> (b: bool)
        requires
            self.wf(),
        ensures
            b == self.merge_ready(h1, h2),
    {
        if !self.contains_halfedge(h1) || !self.contains_halfedge(h2) {
            return false;
        }
        let (v1, t1, _, _) = self.read_halfedge(h1);
        let (v2, t2, _, _) = self.read_halfedge(h2);
        let (t1, t2) = match (t1, t2) {
            (Some(a), Some(b)) => (a, b),
            _ => return false,
        };
        if !self.contains_halfedge(t1) || !self.contains_halfedge(t2) {
            return false;
        }
        let (u1, tt1, _, _) = self.read_halfedge(t1);
        let (u2, tt2, _, _) = self.read_halfedge(t2);
        match (tt1, tt2) {
            (Some(a), Some(b)) => {
                if a != h1 || b != h2 {
                    return false;
                }
            },
            _ => return false,
        }
        if t1 == h1 || t2 == h2 || h2 == h1 || h2 == t1 {
            return false;
        }
        match (v1, v2, u1, u2) {
            (Some(a), Some(b), Some(c), Some(d)) => {
                self.contains_vertex(a) && self.contains_vertex(b) && self.contains_vertex(c) && self.contains_vertex(d)
            },
            _ => false,
        }
    }

    /// Whether the half-edge `x` of face `f` is as [Mesh::face_flippable] asks of each half-edge of the face,
    /// where `prev` is the half-edge before it.
    pub open spec fn ring_member_ok(&self, f: FaceID, x: HalfEdgeID, prev: HalfEdgeID) -> bool {
        &&& self.he_live(x)
        &&& self.face_of(Some(x)) == Some(f)
        &&& self.vertex_of(Some(x)) matches Some(v) && self.vx_live(v)
        &&& self.twin_of(Some(x)) matches Some(t) && self.he_live(t) && self.face_of(Some(t)) != Some(f)
        &&& (self.face_of(self.twin_of(Some(x))) matches Some(g) ==> self.fc_live(g))
        &&& (self.face_of(self.twin_of(Some(x))) is None ==> self.vertex_of(self.twin_of(Some(x))) == self.vertex_of(Some(prev)))
    }

    fn ring_member_check(&self, f: FaceID, x: HalfEdgeID, prev: HalfEdgeID) -> (b: bool)
        requires
            self.wf(),
        ensures
            b == self.ring_member_ok(f, x, prev),
    {
        if !self.contains_halfedge(x) {
            return false;
        }
        let (v, t, _, g) = self.read_halfedge(x);
        let (pv, _, _, _) = self.read_halfedge(prev);
        match g {
            Some(g) => if g != f { return false; },
            None => return false,
        }
        match v {
            Some(v) => if !self.contains_vertex(v) { return false; },
            None => return false,
        }
        let t = match t {
            Some(t) => t,
            None => return false,
        };
        if !self.contains_halfedge(t) {
            return false;
        }
        let (tv, _, _, tg) = self.read_halfedge(t);
        match tg {
            Some(tg) => tg != f && self.contains_face(tg),
            None => match (tv, pv) {
                (Some(a), Some(b)) => a == b,
                (None, None) => true,
                _ => false,
            },
        }
    }

    /// Whether the face is as [Mesh::face_flippable] says.
    fn face_flippable_check(&self, f: FaceID) -> (b: bool)
        requires
            self.wf(),
        ensures
            b == self.face_flippable(f),
    {
        proof { self.lemma_wf(); }
        if !self.contains_face(f) {
            return false;
        }
        let w = self.walker_from_face(f);
        proof { w.lemma_reads(self); }
        let h0 = match w.halfedge_id() {
            Some(h) => h,
            None => return false,
        };
        let (_, _, r0, _) = self.read_halfedge(h0);
        let r0 = match r0 {
            Some(h) => h,
            None => return false,
        };
        let (_, _, r1, _) = self.read_halfedge(r0);
        let r1 = match r1 {
            Some(h) => h,
            None => return false,
        };
        let (_, _, r2, _) = self.read_halfedge(r1);
        let r2 = match r2 {
            Some(h) => h,
            None => return false,
        };
        let ghost r = self.face_ring(f);
        proof { assert(r[0] == r0 && r[1] == r1 && r[2] == r2); }
        if r2 != h0 || r0 == r1 || r1 == r2 || r0 == r2 {
            return false;
        }
        let ok0 = self.ring_member_check(f, r0, r2);
        let ok1 = self.ring_member_check(f, r1, r0);
        let ok2 = self.ring_member_check(f, r2, r1);
        proof {
            assert((0int + 2) % 3 == 2 && (1int + 2) % 3 == 0 && (2int + 2) % 3 == 1);
            if ok0 && ok1 && ok2 {
                assert forall|i: int| 0 <= i < 3 implies {
                    &&& self.he_live(#[trigger] r[i])
                    &&& self.face_of(Some(r[i])) == Some(f)
                    &&& self.vertex_of(Some(r[i])) matches Some(v) && self.vx_live(v)
                    &&& self.twin_of(Some(r[i])) matches Some(t) && self.he_live(t) && self.face_of(Some(t)) != Some(f)
                    &&& (self.face_of(self.twin_of(Some(r[i]))) matches Some(g) ==> self.fc_live(g))
                    &&& (self.face_of(self.twin_of(Some(r[i]))) is None ==> self.vertex_of(self.twin_of(Some(r[i]))) == self.vertex_of(Some(r[(i + 2) % 3])))
                } by {
                    if i == 0 {
                        assert(self.ring_member_ok(f, r[0], r[2]));
                    } else if i == 1 {
                        assert(self.ring_member_ok(f, r[1], r[0]));
                    } else {
                        assert(self.ring_member_ok(f, r[2], r[1]));
                    }
                }
            } else {
                assert(self.he_live(r[0]) && self.he_live(r[1]) && self.he_live(r[2]) ==> !self.face_flippable(f));
            }
        }
        if !(ok0 && ok1 && ok2) {
            return false;
        }
        let (v0, t0, _, _) = self.read_halfedge(r0);
        let (v1, t1, _, _) = self.read_halfedge(r1);
        let (v2, t2, _, _) = self.read_halfedge(r2);
        match (v0, v1, v2, t0, t1, t2) {
            (Some(a), Some(b), Some(c), Some(x), Some(y), Some(z)) => a != b && b != c && a != c && x != y && y != z && x != z,
            _ => false,
        }
    }

    /// Whether every face of the mesh can be flipped and twins are paired, as [Mesh::faces_flippable] says.
    pub fn faces_flippable_check(&self) -> (b: bool)
        requires
            self.wf(),
        ensures
            b == self.faces_flippable(),
    {
        proof { self.lemma_wf(); }
        let hs = self.halfedge_iter();
        let mut i: usize = 0;
        while i < hs.len()
            invariant
                self.wf(),
                lists_in_order(hs@, self.halfedges().dom()),
                i <= hs.len(),
                forall|j: int| 0 <= j < i ==> (self.twin_of(Some(#[trigger] hs@[j])) matches Some(t)
                    ==> self.he_live(t) && self.twin_of(Some(t)) == Some(hs@[j])),
            decreases hs.len() - i,
        {
            let x = hs[i];
            let (_, t, _, _) = self.read_halfedge(x);
            if let Some(t) = t {
                proof { assert(self.he_live(x)); }
                if !self.contains_halfedge(t) {
                    return false;
                }
                let (_, tt, _, _) = self.read_halfedge(t);
                match tt {
                    Some(y) => if y != x { return false; },
                    None => return false,
                }
            }
            i += 1;
        }
        proof {
            assert forall|x: HalfEdgeID| #[trigger] self.he_live(x) implies (self.twin_of(Some(x)) matches Some(t)
                ==> self.he_live(t) && self.twin_of(Some(t)) == Some(x)) by {
                let j = choose|j: int| 0 <= j < hs.len() && #[trigger] hs@[j].index() == x.index();
                HalfEdgeID::lemma_index_injective(hs@[j], x);
            }
        }
        let fs = self.face_iter();
        let mut k: usize = 0;
        while k < fs.len()
            invariant
                self.wf(),
                self.twins_paired(),
                lists_in_order(fs@, self.faces().dom()),
                k <= fs.len(),
                forall|j: int| 0 <= j < k ==> self.face_flippable(#[trigger] fs@[j]),
            decreases fs.len() - k,
        {
            proof { self.lemma_wf(); assert(self.fc_live(fs@[k as int])); }
            if !self.face_flippable_check(fs[k]) {
                return false;
            }
            k += 1;
        }
        proof {
            assert forall|f: FaceID| self.fc_live(f) implies #[trigger] self.face_flippable(f) by {
                let j = choose|j: int| 0 <= j < fs.len() && #[trigger] fs@[j].index() == f.index();
                FaceID::lemma_index_injective(fs@[j], f);
            }
        }
        true
    }
    /// The half-edge that the `i`-th merge of the list starts from: the first of its group, or, inside a group,
    /// the half-edge that the merge before kept.
    pub open spec fn merge_start(s: Seq<Mesh<T>>, e1s: Seq<HalfEdgeID>, ps: Seq<(HalfEdgeID, HalfEdgeID, bool)>, i: int) -> HalfEdgeID {
        if i == 0 || ps[i].2 { ps[i].0 } else { s[i - 1].merge_plan(e1s[i - 1], ps[i - 1].1).2->0 }
    }

    /// The `i`-th merge of the chain: from the half-edge it starts from, with the second half-edge of the pair,
    /// on two edges that can be merged without leaving an edge with more than two faces.
    pub open spec fn edge_merge_step(s: Seq<Mesh<T>>, e1s: Seq<HalfEdgeID>, ps: Seq<(HalfEdgeID, HalfEdgeID, bool)>, i: int) -> bool {
        &&& e1s[i] == Self::merge_start(s, e1s, ps, i)
        &&& s[i].merge_ready(e1s[i], ps[i].1)
        &&& !s[i].merge_is_non_manifold(e1s[i], ps[i].1)
        &&& s[i + 1].wf()
        &&& s[i + 1].is_edge_merge_of(s[i], e1s[i], ps[i].1)
    }

    /// The first `k` merges of the list, one after the other.
    pub open spec fn edge_merge_chain(s: Seq<Mesh<T>>, e1s: Seq<HalfEdgeID>, ps: Seq<(HalfEdgeID, HalfEdgeID, bool)>, k: int) -> bool {
        &&& 0 <= k <= ps.len()
        &&& s.len() == k + 1
        &&& e1s.len() >= k
        &&& forall|i: int| 0 <= i < k ==> #[trigger] Self::edge_merge_step(s, e1s, ps, i)
    }

    /// `self` is `m` with the edges of every pair of the list merged, one after the other.
    pub open spec fn edges_merged_along(&self, m: Mesh<T>, ps: Seq<(HalfEdgeID, HalfEdgeID, bool)>) -> bool {
        exists|s: Seq<Mesh<T>>, e1s: Seq<HalfEdgeID>|
            #[trigger] Self::edge_merge_chain(s, e1s, ps, ps.len() as int) && s[0] == m && s.last() == *self
    }

    /// `self` is `m` with the edges of the first pairs of the list merged, up to a pair whose edges cannot be
    /// merged: they are not two distinct edges with paired twins, or merging them would leave an edge with more
    /// than two faces.
    pub open spec fn edges_merge_stopped(&self, m: Mesh<T>, ps: Seq<(HalfEdgeID, HalfEdgeID, bool)>) -> bool {
        exists|s: Seq<Mesh<T>>, e1s: Seq<HalfEdgeID>, k: int| {
            &&& #[trigger] Self::edge_merge_chain(s, e1s, ps, k)
            &&& k < ps.len() && e1s.len() > k
            &&& s[0] == m && s[k] == *self
            &&& e1s[k] == Self::merge_start(s, e1s, ps, k)
            &&& (!s[k].merge_ready(e1s[k], ps[k].1) || s[k].merge_is_non_manifold(e1s[k], ps[k].1))
        }
    }

    /// Merges the edges of the pairs of the list, one after the other: within a group, each merge starts from
    /// the half-edge that the merge before kept. Stops with an error at the first pair whose edges cannot be
    /// merged.
    pub fn merge_halfedges_along(&mut self, ps: &Vec<(HalfEdgeID, HalfEdgeID, bool)>) -> (r: Result<(), Error>)
        requires
            old(self).wf(),
        ensures
            final(self).wf(),
            r is Ok ==> final(self).edges_merged_along(*old(self), ps@),
            r is Err ==> final(self).edges_merge_stopped(*old(self), ps@),
    {
        let ghost mut chain: Seq<Mesh<T>> = seq![*self];
        let ghost mut e1s: Seq<HalfEdgeID> = seq![];
        let mut prev: HalfEdgeID = HalfEdgeID::new(0);
        let mut i: usize = 0;
        while i < ps.len()
            invariant
                self.wf(),
                i <= ps.len(),
                chain.len() == i + 1,
                e1s.len() == i,
                chain[0] == *old(self),
                chain.last() == *self,
                forall|j: int| 0 <= j < i ==> #[trigger] Self::edge_merge_step(chain, e1s, ps@, j),
                i > 0 ==> prev == chain[i - 1].merge_plan(e1s[i - 1], ps@[i - 1].1).2->0,
            decreases ps.len() - i,
        {
            let (first, e2, starts) = ps[i];
            let e1 = if i == 0 || starts { first } else { prev };
            let ghost chain0 = chain;
            let ghost e1s0 = e1s;
            proof {
                e1s = e1s.push(e1);
                assert forall|j: int| 0 <= j < i implies #[trigger] Self::edge_merge_step(chain, e1s, ps@, j) by {
                    assert(Self::edge_merge_step(chain0, e1s0, ps@, j));
                }
                assert(e1s[i as int] == Self::merge_start(chain, e1s, ps@, i as int));
            }
            if !self.merge_ready_check(e1, e2) {
                proof {
                    assert(Self::edge_merge_chain(chain, e1s, ps@, i as int));
                }
                return Err(Error::MeshIsInvalid("The edges to merge are not two distinct edges with paired twins".to_owned()));
            }
            match self.merge_halfedges(e1, e2) {
                Ok(kept) => {
                    prev = kept;
                    proof {
                        let chain1 = chain;
                        chain = chain.push(*self);
                        assert forall|j: int| 0 <= j < i + 1 implies #[trigger] Self::edge_merge_step(chain, e1s, ps@, j) by {
                            if j < i {
                                assert(Self::edge_merge_step(chain1, e1s, ps@, j));
                            }
                        }
                    }
                },
                Err(e) => {
                    proof {
                        assert(Self::edge_merge_chain(chain, e1s, ps@, i as int));
                    }
                    return Err(e);
                },
            }
            i += 1;
        }
        proof {
            assert(Self::edge_merge_chain(chain, e1s, ps@, ps@.len() as int));
        }
        Ok(())
    }
    /// A valid mesh has what grouping the overlapping edges and faces needs.
    pub proof fn lemma_valid_groupable(&self)
        requires
            self.valid(),
        ensures
            self.wf(),
            self.twins_live(),
            self.all_point(),
            self.faces_have_corners(),
    {
        self.lemma_valid_wf();
        assert forall|h: HalfEdgeID| #[trigger] self.he_live(h) implies (self.twin_of(Some(h)) matches Some(t) && self.he_live(t)) by {
            self.lemma_halfedge_ok(h);
        }
        assert forall|x: HalfEdgeID| self.he_live(x) implies (#[trigger] self.vertex_of(Some(x))) is Some by {
            self.lemma_halfedge_ok(x);
        }
        assert forall|f: FaceID| #[trigger] self.fc_live(f) implies {
            &&& self.vertex_of(self.face_halfedge_of(f)) is Some
            &&& self.vertex_of(self.next_of(self.face_halfedge_of(f))) is Some
            &&& self.vertex_of(self.next_of(self.next_of(self.face_halfedge_of(f)))) is Some
        } by {
            self.lemma_face_ok(f);
            let h = self.face_halfedge_of(f)->0;
            self.lemma_triangle(h);
        }
    }

    /// The phases of [Mesh::merge_overlapping_primitives] from `m` to `self`, through `m1`, `m2` and `m3`, with
    /// `fs` and `es` the lists of the faces and edges of `m`: the overlapping faces but one of each group are
    /// removed, the vertices of each group are merged into its first, the overlapping edges are merged, and, if
    /// that went through and left every face as [Mesh::fix_orientation] needs, the orientation is fixed; `ok`
    /// tells whether all of that went through.
    pub open spec fn overlap_merge_phases(&self, m: Mesh<T>, vg: Seq<Seq<VertexID>>, ok: bool, fs: Seq<FaceID>,
        es: Seq<HalfEdgeID>, m1: Mesh<T>, m2: Mesh<T>, m3: Mesh<T>) -> bool {
        let face_groups = m.face_groups(vg, fs, Seq::new(fs.len(), |k: int| false), 0);
        let edge_pairs = group_pairs(m.edge_groups(vg, es, Seq::new(es.len(), |k: int| false), 0));
        &&& lists_in_order(fs, m.faces().dom())
        &&& m.is_edge_list(es)
        &&& m1.faces_removed_along(m, group_tails(face_groups))
        &&& m2.vertices_merged_along(m1, group_pairs(vg))
        &&& if ok {
            &&& m3.edges_merged_along(m2, edge_pairs)
            &&& m3.faces_flippable()
            &&& self.is_orientation_fixed_of(m3)
        } else {
            &&& *self == m3
            &&& m3.edges_merge_stopped(m2, edge_pairs) || (m3.edges_merged_along(m2, edge_pairs) && !m3.faces_flippable())
        }
    }

    /// Merges overlapping faces, edges and vertices, given the groups of vertices that lie on top of each other:
    /// the faces and edges that would lie on top of each other once the vertices of each group are merged are
    /// grouped first ([Mesh::find_overlapping_faces], [Mesh::find_overlapping_edges]); then of each group of
    /// faces all but the first are removed, the vertices of each group are merged into its first, the edges of
    /// each group are merged one after the other, and the orientation of the faces is fixed.
    ///
    /// # Error
    ///
    /// Returns an error if the merging will result in a non-manifold mesh, or if the edges of a group, or the
    /// faces left, are no longer as the merging and the fixing of the orientation need.
    pub fn merge_overlapping_primitives(&mut self, set_of_vertices_to_merge: &Vec<Vec<VertexID>>) -> (r: Result<(), Error>)
        requires
            old(self).valid(),
        ensures
            final(self).wf(),
            exists|fs: Seq<FaceID>, es: Seq<HalfEdgeID>, m1: Mesh<T>, m2: Mesh<T>, m3: Mesh<T>|
                #[trigger] final(self).overlap_merge_phases(*old(self), vertex_groups(set_of_vertices_to_merge@), r is Ok,
                    fs, es, m1, m2, m3),
    {
        let ghost m = *self;
        let ghost vg = vertex_groups(set_of_vertices_to_merge@);
        proof { self.lemma_valid_groupable(); }
        let edge_groups = self.find_overlapping_edges(set_of_vertices_to_merge);
        let face_groups = self.find_overlapping_faces(set_of_vertices_to_merge);
        let ghost es = choose|es: Seq<HalfEdgeID>| #[trigger] m.is_edge_list(es)
            && edge_groups@.map_values(|v: Vec<HalfEdgeID>| v@) == m.edge_groups(vg, es, Seq::new(es.len(), |k: int| false), 0);
        let ghost fs = choose|fs: Seq<FaceID>| #[trigger] lists_in_order(fs, m.faces().dom())
            && face_groups@.map_values(|v: Vec<FaceID>| v@) == m.face_groups(vg, fs, Seq::new(fs.len(), |k: int| false), 0);

        let face_list = tails_of(&face_groups);
        proof { assert(group_views(face_groups@) =~= face_groups@.map_values(|v: Vec<FaceID>| v@)); }
        self.remove_faces_along(&face_list);
        let ghost m1 = *self;
        proof { self.lemma_valid_groupable(); }

        let vertex_pairs = pairs_of(set_of_vertices_to_merge);
        proof { assert(group_views(set_of_vertices_to_merge@) =~= vg); }
        self.merge_vertices_along(&vertex_pairs);
        let ghost m2 = *self;

        let edge_pairs = pairs_of(&edge_groups);
        proof { assert(group_views(edge_groups@) =~= edge_groups@.map_values(|v: Vec<HalfEdgeID>| v@)); }
        let merged = self.merge_halfedges_along(&edge_pairs);
        let ghost m3 = *self;
        if merged.is_err() {
            proof { assert(self.overlap_merge_phases(m, vg, merged is Ok, fs, es, m1, m2, m3)); }
            return merged;
        }
        if !self.faces_flippable_check() {
            let r: Result<(), Error> = Err(Error::MeshIsInvalid("The merged mesh has a face whose orientation cannot be fixed".to_owned()));
            proof { assert(self.overlap_merge_phases(m, vg, r is Ok, fs, es, m1, m2, m3)); }
            return r;
        }
        self.fix_orientation();
        let r: Result<(), Error> = Ok(());
        proof { assert(self.overlap_merge_phases(m, vg, r is Ok, fs, es, m1, m2, m3)); }
        r
    }
}

} // verus!
