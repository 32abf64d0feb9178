//! The one-ring of an interior vertex of a valid mesh: turning around the vertex from its half-edge, from each
//! half-edge to the twin of the half-edge before it, comes back to the start, and the one-ring is that whole
//! cycle, each half-edge once.
use vstd::prelude::*;
use crate::ids::{HalfEdgeID, VertexID, ID};
use super::Mesh;

verus! {

impl<T: Copy> Mesh<T> {
    /// The half-edge is in the mesh and starts in the vertex: its twin points to it.
    pub open spec fn starts_at(&self, h: HalfEdgeID, v: VertexID) -> bool {
        self.he_live(h) && self.vertex_of(self.twin_of(Some(h))) == Some(v)
    }

    /// Every half-edge of the mesh that starts in the vertex lies in a face: the vertex is not on a boundary.
    pub open spec fn is_interior_vertex(&self, v: VertexID) -> bool {
        forall|h: HalfEdgeID| #[trigger] self.starts_at(h, v) ==> self.face_of(Some(h)) is Some
    }

    /// The half-edge reached from `h` by turning `k` times around the vertex where `h` starts: each turn goes
    /// from a half-edge to the twin of the half-edge before it in its face.
    pub open spec fn turned(&self, h: HalfEdgeID, k: nat) -> HalfEdgeID
        decreases k,
    {
        if k == 0 {
            h
        } else {
            self.twin_of(self.previous_of(Some(self.turned(h, (k - 1) as nat))))->0
        }
    }

    /// A turn maps the half-edges that start in an interior vertex of a valid mesh to such half-edges, and is
    /// what `ring_step` does there.
    proof fn lemma_turn_stays(&self, v: VertexID, h: HalfEdgeID)
        requires
            self.valid(),
            self.is_interior_vertex(v),
            self.starts_at(h, v),
        ensures
            self.twin_of(self.previous_of(Some(h))) is Some,
            self.starts_at(self.twin_of(self.previous_of(Some(h)))->0, v),
            self.ring_step(h) == self.twin_of(self.previous_of(Some(h))),
    {
        assert(self.face_of(Some(h)) is Some);
        self.lemma_triangle(h);
        let p = self.previous_of(Some(h))->0;
        self.lemma_triangle(p);
        self.lemma_halfedge_ok(p);
    }

    /// Turning is injective on the half-edges that start in an interior vertex of a valid mesh.
    proof fn lemma_turn_injective(&self, v: VertexID, a: HalfEdgeID, b: HalfEdgeID)
        requires
            self.valid(),
            self.is_interior_vertex(v),
            self.starts_at(a, v),
            self.starts_at(b, v),
            self.twin_of(self.previous_of(Some(a))) == self.twin_of(self.previous_of(Some(b))),
        ensures
            a == b,
    {
        assert(self.face_of(Some(a)) is Some);
        assert(self.face_of(Some(b)) is Some);
        self.lemma_triangle(a);
        self.lemma_triangle(b);
        let pa = self.previous_of(Some(a))->0;
        let pb = self.previous_of(Some(b))->0;
        self.lemma_halfedge_ok(pa);
        self.lemma_halfedge_ok(pb);
        assert(pa == pb);
    }

    /// Every turn from a half-edge that starts in an interior vertex starts there too.
    proof fn lemma_turned_stays(&self, v: VertexID, s: HalfEdgeID, k: nat)
        requires
            self.valid(),
            self.is_interior_vertex(v),
            self.starts_at(s, v),
        ensures
            self.starts_at(self.turned(s, k), v),
        decreases k,
    {
        if k > 0 {
            self.lemma_turned_stays(v, s, (k - 1) as nat);
            self.lemma_turn_stays(v, self.turned(s, (k - 1) as nat));
        }
    }

    /// Equal turns after the same number of further steps come from equal turns.
    proof fn lemma_turned_cancel(&self, v: VertexID, s: HalfEdgeID, i: nat, j: nat)
        requires
            self.valid(),
            self.is_interior_vertex(v),
            self.starts_at(s, v),
            i <= j,
            self.turned(s, i) == self.turned(s, j),
        ensures
            self.turned(s, 0) == self.turned(s, (j - i) as nat),
        decreases i,
    {
        if i > 0 {
            self.lemma_turned_stays(v, s, (i - 1) as nat);
            self.lemma_turned_stays(v, s, (j - 1) as nat);
            self.lemma_turn_stays(v, self.turned(s, (i - 1) as nat));
            self.lemma_turn_stays(v, self.turned(s, (j - 1) as nat));
            assert(self.turned(s, i) == self.twin_of(self.previous_of(Some(self.turned(s, (i - 1) as nat))))->0);
            assert(self.turned(s, j) == self.twin_of(self.previous_of(Some(self.turned(s, (j - 1) as nat))))->0);
            self.lemma_turn_injective(v, self.turned(s, (i - 1) as nat), self.turned(s, (j - 1) as nat));
            self.lemma_turned_cancel(v, s, (i - 1) as nat, (j - 1) as nat);
        }
    }

    /// There are at most as many half-edges as half-edge slots.
    pub(crate) proof fn lemma_halfedge_count(&self)
        requires
            self.wf(),
        ensures
            self.halfedges().dom().finite(),
            self.halfedges().dom().len() <= self.he_slot_count(),
    {
        self.lemma_wf();
        self.lemma_he_slots();
        self.lemma_he_slots_bound();
        let below = Set::new(|i: u32| i < self.he_slot_count());
        crate::id_map::lemma_u32_prefix_set(self.he_slot_count());
        assert forall|i: u32| self.halfedges().dom().contains(i) implies below.contains(i) by {
            let h = HalfEdgeID::from_index(i);
            HalfEdgeID::lemma_from_index(i);
            assert(self.he_live(h));
        }
        vstd::set_lib::lemma_len_subset(self.halfedges().dom(), below);
    }

    /// Turning around an interior vertex of a valid mesh comes back to the start within as many turns as there
    /// are half-edges.
    proof fn lemma_turns_return(&self, v: VertexID, s: HalfEdgeID)
        requires
            self.valid(),
            self.is_interior_vertex(v),
            self.starts_at(s, v),
        ensures
            exists|r: nat| 1 <= r <= self.halfedges().dom().len() && #[trigger] self.turned(s, r) == s,
    {
        self.lemma_valid_wf();
        self.lemma_halfedge_count();
        let n = self.halfedges().dom().len();
        if !(exists|r: nat| 1 <= r <= n && #[trigger] self.turned(s, r) == s) {
            let q = Seq::new(n + 1, |k: int| self.turned(s, k as nat).index());
            assert(q.no_duplicates()) by {
                assert forall|a: int, b: int| 0 <= a < q.len() && 0 <= b < q.len() && a != b implies q[a] != q[b] by {
                    let (i, j) = if a < b { (a as nat, b as nat) } else { (b as nat, a as nat) };
                    if self.turned(s, i).index() == self.turned(s, j).index() {
                        HalfEdgeID::lemma_index_injective(self.turned(s, i), self.turned(s, j));
                        self.lemma_turned_cancel(v, s, i, j);
                        assert(self.turned(s, (j - i) as nat) == s);
                    }
                }
            }
            assert(q.to_set().subset_of(self.halfedges().dom())) by {
                assert forall|x: u32| q.to_set().contains(x) implies self.halfedges().dom().contains(x) by {
                    let k = choose|k: int| 0 <= k < q.len() && q[k] == x;
                    self.lemma_turned_stays(v, s, k as nat);
                }
            }
            q.unique_seq_to_set();
            vstd::set_lib::lemma_len_subset(q.to_set(), self.halfedges().dom());
            assert(false);
        }
    }

    /// The first return to the start, searching from `k` on.
    proof fn lemma_first_return(&self, s: HalfEdgeID, k: nat, bound: nat) -> (r: nat)
        requires
            1 <= k,
            exists|r: nat| k <= r <= bound && #[trigger] self.turned(s, r) == s,
            forall|j: nat| 1 <= j < k ==> #[trigger] self.turned(s, j) != s,
        ensures
            k <= r <= bound,
            self.turned(s, r) == s,
            forall|j: nat| 1 <= j < r ==> #[trigger] self.turned(s, j) != s,
        decreases bound - k,
    {
        if self.turned(s, k) == s {
            k
        } else {
            let r0 = choose|r: nat| k <= r <= bound && #[trigger] self.turned(s, r) == s;
            assert(k + 1 <= r0);
            self.lemma_first_return(s, k + 1, bound)
        }
    }

    /// The walk around the vertex from the `i`-th turn lists the turns up to the first return.
    proof fn lemma_walk_is_turns(&self, v: VertexID, s: HalfEdgeID, r: nat, i: nat, n: nat)
        requires
            self.valid(),
            self.is_interior_vertex(v),
            self.starts_at(s, v),
            1 <= r,
            self.turned(s, r) == s,
            forall|j: nat| 1 <= j < r ==> #[trigger] self.turned(s, j) != s,
            i < r,
            n >= r - i,
        ensures
            self.ring_walk(s, self.turned(s, i), n) == Seq::new((r - i) as nat, |j: int| self.turned(s, (i + j) as nat)),
        decreases r - i,
    {
        self.lemma_turned_stays(v, s, i);
        self.lemma_turn_stays(v, self.turned(s, i));
        assert(self.turned(s, i + 1) == self.twin_of(self.previous_of(Some(self.turned(s, i))))->0);
        let expected = Seq::new((r - i) as nat, |j: int| self.turned(s, (i + j) as nat));
        if i + 1 == r {
            assert(self.ring_walk(s, self.turned(s, i), n) =~= expected);
        } else {
            assert(self.turned(s, i + 1) != s);
            self.lemma_walk_is_turns(v, s, r, i + 1, (n - 1) as nat);
            let rest = Seq::new((r - (i + 1)) as nat, |j: int| self.turned(s, (i + 1 + j) as nat));
            assert(self.ring_walk(s, self.turned(s, i), n) == seq![self.turned(s, i)] + rest);
            assert(seq![self.turned(s, i)] + rest =~= expected);
        }
    }

    /// In a valid mesh, the one-ring of a vertex that lies on no boundary is the whole cycle of half-edges reached
    /// by turning around the vertex from its half-edge: every half-edge of the one-ring starts in the vertex,
    /// each comes once, turning from each leads to the next one and from the last back to the first, and every
    /// half-edge that any number of turns reaches is in it.
    pub proof fn lemma_interior_one_ring(&self, v: VertexID)
        requires
            self.valid(),
            self.vx_live(v),
            self.is_interior_vertex(v),
        ensures
            ({
                let w = self.one_ring(v);
                let s = self.vertex_halfedge_of(v)->0;
                &&& self.vertex_halfedge_of(v) is Some
                &&& w.len() > 0
                &&& w[0] == s
                &&& w.no_duplicates()
                &&& forall|i: int| 0 <= i < w.len() ==> #[trigger] self.starts_at(w[i], v)
                &&& forall|i: int| 0 <= i < w.len()
                    ==> self.twin_of(self.previous_of(Some(#[trigger] w[i]))) == Some(w[(i + 1) % (w.len() as int)])
                &&& forall|k: nat| w.contains(#[trigger] self.turned(s, k))
            }),
    {
        self.lemma_valid_wf();
        self.lemma_vertex_ok(v);
        let s = self.vertex_halfedge_of(v)->0;
        assert(self.starts_at(s, v));
        self.lemma_halfedge_count();
        self.lemma_turns_return(v, s);
        let nn = self.halfedges().dom().len();
        let r = self.lemma_first_return(s, 1, nn);
        self.lemma_walk_is_turns(v, s, r, 0, self.walk_bound());
        let w = self.one_ring(v);
        assert(w =~= Seq::new(r, |j: int| self.turned(s, j as nat)));
        assert forall|i: int| 0 <= i < w.len() implies #[trigger] self.starts_at(w[i], v) by {
            self.lemma_turned_stays(v, s, i as nat);
        }
        assert(w.no_duplicates()) by {
            assert forall|a: int, b: int| 0 <= a < w.len() && 0 <= b < w.len() && a != b implies w[a] != w[b] by {
                let (i, j) = if a < b { (a as nat, b as nat) } else { (b as nat, a as nat) };
                if self.turned(s, i) == self.turned(s, j) {
                    self.lemma_turned_cancel(v, s, i, j);
                    assert(self.turned(s, (j - i) as nat) == s);
                }
            }
        }
        assert forall|i: int| 0 <= i < w.len()
            implies self.twin_of(self.previous_of(Some(#[trigger] w[i]))) == Some(w[(i + 1) % (w.len() as int)]) by {
            self.lemma_turned_stays(v, s, i as nat);
            self.lemma_turn_stays(v, w[i]);
            assert(self.turned(s, (i + 1) as nat) == self.twin_of(self.previous_of(Some(self.turned(s, i as nat))))->0);
            if i + 1 < w.len() {
                vstd::arithmetic::div_mod::lemma_small_mod((i + 1) as nat, w.len());
            } else {
                vstd::arithmetic::div_mod::lemma_mod_self_0(w.len() as int);
            }
        }
        assert forall|k: nat| w.contains(#[trigger] self.turned(s, k)) by {
            self.lemma_turns_in_ring(v, s, r, k);
        }
    }

    /// In a valid mesh, an interior vertex connects to the end of every half-edge that turning around it from its
    /// half-edge reaches, so [Mesh::connecting_edge] finds an edge to each of those neighbours.
    pub proof fn lemma_interior_connects(&self, v: VertexID, k: nat)
        requires
            self.valid(),
            self.vx_live(v),
            self.is_interior_vertex(v),
        ensures
            self.vertex_halfedge_of(v) is Some,
            self.vertex_of(Some(self.turned(self.vertex_halfedge_of(v)->0, k))) matches Some(w) ==> self.connects(v, w),
    {
        self.lemma_interior_one_ring(v);
        let s = self.vertex_halfedge_of(v)->0;
        let w = self.one_ring(v);
        let h = self.turned(s, k);
        assert(w.contains(h));
        let i = choose|i: int| 0 <= i < w.len() && w[i] == h;
        if let Some(x) = self.vertex_of(Some(h)) {
            assert(self.vertex_of(Some(w[i])) == Some(x));
        }
    }

    /// Every number of turns reaches one of the first `r` turns, when the `r`-th turn is back at the start.
    proof fn lemma_turns_in_ring(&self, v: VertexID, s: HalfEdgeID, r: nat, k: nat)
        requires
            self.valid(),
            self.is_interior_vertex(v),
            self.starts_at(s, v),
            1 <= r,
            self.turned(s, r) == s,
        ensures
            self.turned(s, k) == self.turned(s, k % r),
            Seq::new(r, |j: int| self.turned(s, j as nat)).contains(self.turned(s, k)),
        decreases k,
    {
        let w = Seq::new(r, |j: int| self.turned(s, j as nat));
        if k < r {
            vstd::arithmetic::div_mod::lemma_small_mod(k, r);
            assert(w[k as int] == self.turned(s, k));
        } else {
            self.lemma_turned_shift(s, r, (k - r) as nat);
            self.lemma_turns_in_ring(v, s, r, (k - r) as nat);
            vstd::arithmetic::div_mod::lemma_mod_sub_multiples_vanish(k as int, r as int);
            assert(-(r as int) + k as int == (k - r) as nat);
            assert(w[(k % r) as int] == self.turned(s, k % r));
        }
    }

    /// Turning `r` times back to the start and then `j` more times is turning `j` times.
    proof fn lemma_turned_shift(&self, s: HalfEdgeID, r: nat, j: nat)
        requires
            self.turned(s, r) == s,
        ensures
            self.turned(s, r + j) == self.turned(s, j),
        decreases j,
    {
        if j > 0 {
            self.lemma_turned_shift(s, r, (j - 1) as nat);
            assert(self.turned(s, r + j) == self.twin_of(self.previous_of(Some(self.turned(s, (r + j - 1) as nat))))->0);
        }
    }
}

} // verus!
