//! The one-ring of any vertex of a valid mesh, on a boundary or not, is a closed cycle: stepping around the vertex
//! with `ring_step` maps the half-edges that start in the vertex one-to-one to such half-edges, so the walk from the
//! vertex's half-edge comes back to it, and the one-ring lists that cycle, each half-edge once.
use vstd::prelude::*;
use crate::ids::{HalfEdgeID, VertexID, ID};
use super::Mesh;

verus! {

impl<T: Copy> Mesh<T> {
    /// The half-edge reached by `k` steps across faces around the vertex that `c` points to: each step goes from
    /// an incoming half-edge to the twin of the half-edge after it.
    pub open spec fn across(&self, c: HalfEdgeID, k: nat) -> HalfEdgeID
        decreases k,
    {
        if k == 0 {
            c
        } else {
            self.twin_of(self.next_of(Some(self.across(c, (k - 1) as nat))))->0
        }
    }

    /// The half-edge reached by `k` steps of `ring_step` from `s`.
    pub open spec fn stepped(&self, s: HalfEdgeID, k: nat) -> HalfEdgeID
        decreases k,
    {
        if k == 0 {
            s
        } else {
            self.ring_step(self.stepped(s, (k - 1) as nat))->0
        }
    }

    /// The half-edge is in the mesh and points to the vertex.
    pub open spec fn ends_at(&self, c: HalfEdgeID, v: VertexID) -> bool {
        self.he_live(c) && self.vertex_of(Some(c)) == Some(v)
    }

    /// A step across a face keeps a half-edge with a face pointing to the same vertex.
    proof fn lemma_across_step(&self, v: VertexID, c: HalfEdgeID)
        requires
            self.valid(),
            self.ends_at(c, v),
            self.face_of(Some(c)) is Some,
        ensures
            self.twin_of(self.next_of(Some(c))) is Some,
            self.ends_at(self.twin_of(self.next_of(Some(c)))->0, v),
    {
        self.lemma_halfedge_ok(c);
        self.lemma_triangle(c);
        let n = self.next_of(Some(c))->0;
        self.lemma_halfedge_ok(n);
    }

    /// Two half-edges with faces and the same step across are the same.
    proof fn lemma_across_injective(&self, x: HalfEdgeID, y: HalfEdgeID)
        requires
            self.valid(),
            self.he_live(x),
            self.he_live(y),
            self.face_of(Some(x)) is Some,
            self.face_of(Some(y)) is Some,
            self.twin_of(self.next_of(Some(x))) == self.twin_of(self.next_of(Some(y))),
        ensures
            x == y,
    {
        self.lemma_triangle(x);
        self.lemma_triangle(y);
        let nx = self.next_of(Some(x))->0;
        let ny = self.next_of(Some(y))->0;
        self.lemma_halfedge_ok(nx);
        self.lemma_halfedge_ok(ny);
        assert(nx == ny);
        self.lemma_triangle(nx);
    }

    /// The twin of a half-edge without face is no step across from a half-edge with a face.
    proof fn lemma_across_not_image(&self, h: HalfEdgeID, x: HalfEdgeID)
        requires
            self.valid(),
            self.he_live(h),
            self.face_of(Some(h)) is None,
            self.he_live(x),
            self.face_of(Some(x)) is Some,
        ensures
            self.twin_of(self.next_of(Some(x))) != self.twin_of(Some(h)),
    {
        self.lemma_triangle(x);
        let n = self.next_of(Some(x))->0;
        self.lemma_halfedge_ok(n);
        self.lemma_halfedge_ok(h);
    }

    /// Steps across from the twin of a half-edge without face, while they meet faces, stay incoming and never
    /// repeat.
    proof fn lemma_across_walk(&self, v: VertexID, h: HalfEdgeID, k: nat)
        requires
            self.valid(),
            self.starts_at(h, v),
            self.face_of(Some(h)) is None,
            forall|j: nat| j < k ==> #[trigger] self.face_of(Some(self.across(self.twin_of(Some(h))->0, j))) is Some,
        ensures
            self.ends_at(self.across(self.twin_of(Some(h))->0, k), v),
            forall|i: nat| i < k ==> #[trigger] self.across(self.twin_of(Some(h))->0, i) != self.across(self.twin_of(Some(h))->0, k),
        decreases k,
    {
        let c0 = self.twin_of(Some(h))->0;
        self.lemma_halfedge_ok(h);
        if k > 0 {
            self.lemma_across_walk(v, h, (k - 1) as nat);
            let prev = self.across(c0, (k - 1) as nat);
            assert(self.face_of(Some(prev)) is Some);
            self.lemma_across_step(v, prev);
            assert forall|i: nat| i < k implies #[trigger] self.across(c0, i) != self.across(c0, k) by {
                self.lemma_across_distinct(v, h, i, k);
            }
        }
    }

    /// Two different numbers of steps across, all meeting faces before, reach different half-edges.
    proof fn lemma_across_distinct(&self, v: VertexID, h: HalfEdgeID, i: nat, k: nat)
        requires
            self.valid(),
            self.starts_at(h, v),
            self.face_of(Some(h)) is None,
            i < k,
            forall|j: nat| j < k ==> #[trigger] self.face_of(Some(self.across(self.twin_of(Some(h))->0, j))) is Some,
        ensures
            self.across(self.twin_of(Some(h))->0, i) != self.across(self.twin_of(Some(h))->0, k),
        decreases i,
    {
        let c0 = self.twin_of(Some(h))->0;
        self.lemma_halfedge_ok(h);
        self.lemma_across_live(v, h, (k - 1) as nat);
        let pk = self.across(c0, (k - 1) as nat);
        assert(self.face_of(Some(pk)) is Some);
        self.lemma_across_step(v, pk);
        assert(self.across(c0, k) == self.twin_of(self.next_of(Some(pk)))->0);
        if i == 0 {
            self.lemma_across_not_image(h, pk);
        } else {
            self.lemma_across_live(v, h, (i - 1) as nat);
            let pi = self.across(c0, (i - 1) as nat);
            assert(self.face_of(Some(pi)) is Some);
            self.lemma_across_step(v, pi);
            assert(self.across(c0, i) == self.twin_of(self.next_of(Some(pi)))->0);
            if self.across(c0, i) == self.across(c0, k) {
                self.lemma_across_injective(pi, pk);
                self.lemma_across_distinct(v, h, (i - 1) as nat, (k - 1) as nat);
            }
        }
    }

    /// Steps across from the twin of a half-edge without face, while they meet faces, stay incoming.
    proof fn lemma_across_live(&self, v: VertexID, h: HalfEdgeID, k: nat)
        requires
            self.valid(),
            self.starts_at(h, v),
            self.face_of(Some(h)) is None,
            forall|j: nat| j < k ==> #[trigger] self.face_of(Some(self.across(self.twin_of(Some(h))->0, j))) is Some,
        ensures
            self.ends_at(self.across(self.twin_of(Some(h))->0, k), v),
        decreases k,
    {
        self.lemma_halfedge_ok(h);
        if k > 0 {
            self.lemma_across_live(v, h, (k - 1) as nat);
            self.lemma_across_step(v, self.across(self.twin_of(Some(h))->0, (k - 1) as nat));
        }
    }

    /// Stepping across from the twin of a half-edge without face meets a half-edge without face within as many
    /// steps as there are half-edges.
    proof fn lemma_across_ends(&self, v: VertexID, h: HalfEdgeID)
        requires
            self.valid(),
            self.starts_at(h, v),
            self.face_of(Some(h)) is None,
        ensures
            exists|k: nat| k <= self.halfedges().dom().len()
                && #[trigger] self.face_of(Some(self.across(self.twin_of(Some(h))->0, k))) is None,
    {
        self.lemma_valid_wf();
        self.lemma_halfedge_count();
        let c0 = self.twin_of(Some(h))->0;
        let n = self.halfedges().dom().len();
        if !(exists|k: nat| k <= n && #[trigger] self.face_of(Some(self.across(c0, k))) is None) {
            assert forall|j: nat| j < n + 1 implies #[trigger] self.face_of(Some(self.across(c0, j))) is Some by {
            }
            let q = Seq::new(n + 1, |k: int| self.across(c0, k as nat).index());
            assert(q.no_duplicates()) by {
                assert forall|a: int, b: int| 0 <= a < q.len() && 0 <= b < q.len() && a != b implies q[a] != q[b] by {
                    let (i, j) = if a < b { (a as nat, b as nat) } else { (b as nat, a as nat) };
                    self.lemma_across_distinct(v, h, i, j);
                    HalfEdgeID::lemma_index_injective(self.across(c0, i), self.across(c0, j));
                }
            }
            assert(q.to_set().subset_of(self.halfedges().dom())) by {
                assert forall|x: u32| q.to_set().contains(x) implies self.halfedges().dom().contains(x) by {
                    let k = choose|k: int| 0 <= k < q.len() && q[k] == x;
                    self.lemma_across_live(v, h, k as nat);
                }
            }
            q.unique_seq_to_set();
            vstd::set_lib::lemma_len_subset(q.to_set(), self.halfedges().dom());
            assert(false);
        }
    }

    /// The first step across that meets no face, searching from `k` on.
    proof fn lemma_first_faceless(&self, c0: HalfEdgeID, k: nat, bound: nat) -> (r: nat)
        requires
            exists|r: nat| k <= r <= bound && #[trigger] self.face_of(Some(self.across(c0, r))) is None,
            forall|j: nat| j < k ==> #[trigger] self.face_of(Some(self.across(c0, j))) is Some,
        ensures
            k <= r <= bound,
            self.face_of(Some(self.across(c0, r))) is None,
            forall|j: nat| j < r ==> #[trigger] self.face_of(Some(self.across(c0, j))) is Some,
        decreases bound - k,
    {
        if self.face_of(Some(self.across(c0, k))) is None {
            k
        } else {
            let r0 = choose|r: nat| k <= r <= bound && #[trigger] self.face_of(Some(self.across(c0, r))) is None;
            assert(k + 1 <= r0);
            self.lemma_first_faceless(c0, k + 1, bound)
        }
    }

    /// The walk to the boundary from the `i`-th step across ends at the first step that meets no face.
    proof fn lemma_around_is_across(&self, v: VertexID, h: HalfEdgeID, c0: HalfEdgeID, r: nat, i: nat, fuel: nat)
        requires
            self.valid(),
            self.starts_at(h, v),
            self.face_of(Some(h)) is None,
            c0 == self.twin_of(Some(h))->0,
            i <= r,
            fuel >= r - i,
            self.face_of(Some(self.across(c0, r))) is None,
            forall|j: nat| j < r ==> #[trigger] self.face_of(Some(self.across(c0, j))) is Some,
        ensures
            self.around_to_boundary(Some(self.across(c0, i)), fuel) == Some(Some(self.across(c0, r))),
        decreases r - i,
    {
        if i < r {
            assert(self.face_of(Some(self.across(c0, i))) is Some);
            self.lemma_across_live(v, h, i);
            self.lemma_across_step(v, self.across(c0, i));
            self.lemma_around_is_across(v, h, c0, r, i + 1, (fuel - 1) as nat);
            assert(self.across(c0, i + 1) == self.twin_of(self.next_of(Some(self.across(c0, i))))->0);
        }
    }

    /// For a half-edge without face that starts in the vertex: `ring_step` goes to the twin of the first
    /// half-edge without face met by stepping across from its twin, which starts in the vertex too.
    proof fn lemma_step_faceless(&self, v: VertexID, h: HalfEdgeID) -> (r: nat)
        requires
            self.valid(),
            self.starts_at(h, v),
            self.face_of(Some(h)) is None,
        ensures
            ({
                let c = self.across(self.twin_of(Some(h))->0, r);
                &&& self.face_of(Some(c)) is None
                &&& self.ends_at(c, v)
                &&& forall|j: nat| j < r ==> #[trigger] self.face_of(Some(self.across(self.twin_of(Some(h))->0, j))) is Some
                &&& self.ring_step(h) == self.twin_of(Some(c))
                &&& self.twin_of(Some(c)) is Some
                &&& self.starts_at(self.twin_of(Some(c))->0, v)
            }),
    {
        self.lemma_valid_wf();
        self.lemma_halfedge_count();
        self.lemma_halfedge_ok(h);
        let c0 = self.twin_of(Some(h))->0;
        self.lemma_across_ends(v, h);
        let r = self.lemma_first_faceless(c0, 0, self.halfedges().dom().len());
        self.lemma_around_is_across(v, h, c0, r, 0, self.walk_bound());
        self.lemma_across_live(v, h, r);
        let c = self.across(c0, r);
        self.lemma_halfedge_ok(c);
        r
    }

    /// `ring_step` maps a half-edge that starts in a vertex of a valid mesh to another such half-edge.
    pub proof fn lemma_step_stays(&self, v: VertexID, h: HalfEdgeID)
        requires
            self.valid(),
            self.starts_at(h, v),
        ensures
            self.ring_step(h) is Some,
            self.starts_at(self.ring_step(h)->0, v),
    {
        if self.face_of(Some(h)) is Some {
            self.lemma_triangle(h);
            let p = self.previous_of(Some(h))->0;
            self.lemma_triangle(p);
            self.lemma_halfedge_ok(p);
        } else {
            self.lemma_step_faceless(v, h);
        }
    }

    /// `ring_step` is one-to-one on the half-edges that start in a vertex of a valid mesh.
    pub proof fn lemma_step_injective(&self, v: VertexID, a: HalfEdgeID, b: HalfEdgeID)
        requires
            self.valid(),
            self.starts_at(a, v),
            self.starts_at(b, v),
            self.ring_step(a) == self.ring_step(b),
        ensures
            a == b,
    {
        self.lemma_step_stays(v, a);
        if self.face_of(Some(a)) is Some && self.face_of(Some(b)) is Some {
            self.lemma_triangle(a);
            self.lemma_triangle(b);
            let pa = self.previous_of(Some(a))->0;
            let pb = self.previous_of(Some(b))->0;
            self.lemma_halfedge_ok(pa);
            self.lemma_halfedge_ok(pb);
            assert(pa == pb);
        } else if self.face_of(Some(a)) is None && self.face_of(Some(b)) is None {
            let ra = self.lemma_step_faceless(v, a);
            let rb = self.lemma_step_faceless(v, b);
            let ca0 = self.twin_of(Some(a))->0;
            let cb0 = self.twin_of(Some(b))->0;
            let ca = self.across(ca0, ra);
            let cb = self.across(cb0, rb);
            self.lemma_halfedge_ok(ca);
            self.lemma_halfedge_ok(cb);
            assert(ca == cb);
            self.lemma_across_meet(v, a, b, ra, rb);
            self.lemma_halfedge_ok(a);
            self.lemma_halfedge_ok(b);
        } else {
            let (x, y) = if self.face_of(Some(a)) is Some { (a, b) } else { (b, a) };
            self.lemma_triangle(x);
            let px = self.previous_of(Some(x))->0;
            self.lemma_halfedge_ok(px);
            let ry = self.lemma_step_faceless(v, y);
            let cy = self.across(self.twin_of(Some(y))->0, ry);
            self.lemma_halfedge_ok(cy);
            assert(px == cy);
        }
    }

    /// Walks across from the twins of two half-edges without face that reach the same half-edge start at the same
    /// half-edge.
    proof fn lemma_across_meet(&self, v: VertexID, a: HalfEdgeID, b: HalfEdgeID, i: nat, j: nat)
        requires
            self.valid(),
            self.starts_at(a, v),
            self.starts_at(b, v),
            self.face_of(Some(a)) is None,
            self.face_of(Some(b)) is None,
            forall|k: nat| k < i ==> #[trigger] self.face_of(Some(self.across(self.twin_of(Some(a))->0, k))) is Some,
            forall|k: nat| k < j ==> #[trigger] self.face_of(Some(self.across(self.twin_of(Some(b))->0, k))) is Some,
            self.across(self.twin_of(Some(a))->0, i) == self.across(self.twin_of(Some(b))->0, j),
        ensures
            self.twin_of(Some(a)) == self.twin_of(Some(b)),
        decreases i + j,
    {
        let ca = self.twin_of(Some(a))->0;
        let cb = self.twin_of(Some(b))->0;
        self.lemma_halfedge_ok(a);
        self.lemma_halfedge_ok(b);
        if i > 0 && j > 0 {
            self.lemma_across_live(v, a, (i - 1) as nat);
            self.lemma_across_live(v, b, (j - 1) as nat);
            let pa = self.across(ca, (i - 1) as nat);
            let pb = self.across(cb, (j - 1) as nat);
            self.lemma_across_step(v, pa);
            self.lemma_across_step(v, pb);
            assert(self.across(ca, i) == self.twin_of(self.next_of(Some(pa)))->0);
            assert(self.across(cb, j) == self.twin_of(self.next_of(Some(pb)))->0);
            self.lemma_across_injective(pa, pb);
            self.lemma_across_meet(v, a, b, (i - 1) as nat, (j - 1) as nat);
        } else if i > 0 {
            self.lemma_across_live(v, a, (i - 1) as nat);
            let pa = self.across(ca, (i - 1) as nat);
            self.lemma_across_step(v, pa);
            assert(self.across(ca, i) == self.twin_of(self.next_of(Some(pa)))->0);
            self.lemma_across_not_image(b, pa);
        } else if j > 0 {
            self.lemma_across_live(v, b, (j - 1) as nat);
            let pb = self.across(cb, (j - 1) as nat);
            self.lemma_across_step(v, pb);
            assert(self.across(cb, j) == self.twin_of(self.next_of(Some(pb)))->0);
            self.lemma_across_not_image(a, pb);
        }
    }

    /// Steps from a half-edge that starts in the vertex stay such half-edges.
    proof fn lemma_stepped_stays(&self, v: VertexID, s: HalfEdgeID, k: nat)
        requires
            self.valid(),
            self.starts_at(s, v),
        ensures
            self.starts_at(self.stepped(s, k), v),
        decreases k,
    {
        if k > 0 {
            self.lemma_stepped_stays(v, s, (k - 1) as nat);
            self.lemma_step_stays(v, self.stepped(s, (k - 1) as nat));
        }
    }

    /// Equal steps after the same number of further steps come from equal steps.
    proof fn lemma_stepped_cancel(&self, v: VertexID, s: HalfEdgeID, i: nat, j: nat)
        requires
            self.valid(),
            self.starts_at(s, v),
            i <= j,
            self.stepped(s, i) == self.stepped(s, j),
        ensures
            s == self.stepped(s, (j - i) as nat),
        decreases i,
    {
        if i > 0 {
            self.lemma_stepped_stays(v, s, (i - 1) as nat);
            self.lemma_stepped_stays(v, s, (j - 1) as nat);
            self.lemma_step_stays(v, self.stepped(s, (i - 1) as nat));
            self.lemma_step_stays(v, self.stepped(s, (j - 1) as nat));
            self.lemma_step_injective(v, self.stepped(s, (i - 1) as nat), self.stepped(s, (j - 1) as nat));
            self.lemma_stepped_cancel(v, s, (i - 1) as nat, (j - 1) as nat);
        }
    }

    /// Stepping around a vertex of a valid mesh comes back to the start within as many steps as there are
    /// half-edges.
    proof fn lemma_steps_return(&self, v: VertexID, s: HalfEdgeID)
        requires
            self.valid(),
            self.starts_at(s, v),
        ensures
            exists|r: nat| 1 <= r <= self.halfedges().dom().len() && #[trigger] self.stepped(s, r) == s,
    {
        self.lemma_valid_wf();
        self.lemma_halfedge_count();
        let n = self.halfedges().dom().len();
        if !(exists|r: nat| 1 <= r <= n && #[trigger] self.stepped(s, r) == s) {
            let q = Seq::new(n + 1, |k: int| self.stepped(s, k as nat).index());
            assert(q.no_duplicates()) by {
                assert forall|a: int, b: int| 0 <= a < q.len() && 0 <= b < q.len() && a != b implies q[a] != q[b] by {
                    let (i, j) = if a < b { (a as nat, b as nat) } else { (b as nat, a as nat) };
                    if self.stepped(s, i).index() == self.stepped(s, j).index() {
                        HalfEdgeID::lemma_index_injective(self.stepped(s, i), self.stepped(s, j));
                        self.lemma_stepped_cancel(v, s, i, j);
                        assert(self.stepped(s, (j - i) as nat) == s);
                    }
                }
            }
            assert(q.to_set().subset_of(self.halfedges().dom())) by {
                assert forall|x: u32| q.to_set().contains(x) implies self.halfedges().dom().contains(x) by {
                    let k = choose|k: int| 0 <= k < q.len() && q[k] == x;
                    self.lemma_stepped_stays(v, s, k as nat);
                }
            }
            q.unique_seq_to_set();
            vstd::set_lib::lemma_len_subset(q.to_set(), self.halfedges().dom());
            assert(false);
        }
    }

    /// The first return to the start, searching from `k` on.
    proof fn lemma_first_step_return(&self, s: HalfEdgeID, k: nat, bound: nat) -> (r: nat)
        requires
            1 <= k,
            exists|r: nat| k <= r <= bound && #[trigger] self.stepped(s, r) == s,
            forall|j: nat| 1 <= j < k ==> #[trigger] self.stepped(s, j) != s,
        ensures
            k <= r <= bound,
            self.stepped(s, r) == s,
            forall|j: nat| 1 <= j < r ==> #[trigger] self.stepped(s, j) != s,
        decreases bound - k,
    {
        if self.stepped(s, k) == s {
            k
        } else {
            let r0 = choose|r: nat| k <= r <= bound && #[trigger] self.stepped(s, r) == s;
            assert(k + 1 <= r0);
            self.lemma_first_step_return(s, k + 1, bound)
        }
    }

    /// The walk around the vertex from the `i`-th step lists the steps up to the first return.
    proof fn lemma_walk_is_steps(&self, v: VertexID, s: HalfEdgeID, r: nat, i: nat, n: nat)
        requires
            self.valid(),
            self.starts_at(s, v),
            1 <= r,
            self.stepped(s, r) == s,
            forall|j: nat| 1 <= j < r ==> #[trigger] self.stepped(s, j) != s,
            i < r,
            n >= r - i,
        ensures
            self.ring_walk(s, self.stepped(s, i), n) == Seq::new((r - i) as nat, |j: int| self.stepped(s, (i + j) as nat)),
        decreases r - i,
    {
        self.lemma_stepped_stays(v, s, i);
        self.lemma_step_stays(v, self.stepped(s, i));
        assert(self.stepped(s, i + 1) == self.ring_step(self.stepped(s, i))->0);
        let expected = Seq::new((r - i) as nat, |j: int| self.stepped(s, (i + j) as nat));
        if i + 1 == r {
            assert(self.ring_walk(s, self.stepped(s, i), n) =~= expected);
        } else {
            assert(self.stepped(s, i + 1) != s);
            self.lemma_walk_is_steps(v, s, r, i + 1, (n - 1) as nat);
            let rest = Seq::new((r - (i + 1)) as nat, |j: int| self.stepped(s, (i + 1 + j) as nat));
            assert(self.ring_walk(s, self.stepped(s, i), n) == seq![self.stepped(s, i)] + rest);
            assert(seq![self.stepped(s, i)] + rest =~= expected);
        }
    }

    /// In a valid mesh, the one-ring of every vertex, on a boundary or not, is a closed cycle: it starts with the
    /// vertex's half-edge, every half-edge of it starts in the vertex, each comes once, and `ring_step` leads
    /// from each to the next one and from the last back to the first.
    pub proof fn lemma_one_ring_cycle(&self, v: VertexID)
        requires
            self.valid(),
            self.vx_live(v),
        ensures
            ({
                let w = self.one_ring(v);
                &&& self.vertex_halfedge_of(v) is Some
                &&& w.len() > 0
                &&& w[0] == self.vertex_halfedge_of(v)->0
                &&& w.no_duplicates()
                &&& forall|i: int| 0 <= i < w.len() ==> #[trigger] self.starts_at(w[i], v)
                &&& forall|i: int| 0 <= i < w.len() ==> self.ring_step(#[trigger] w[i]) == Some(w[(i + 1) % (w.len() as int)])
            }),
    {
        self.lemma_valid_wf();
        self.lemma_vertex_ok(v);
        let s = self.vertex_halfedge_of(v)->0;
        assert(self.starts_at(s, v));
        self.lemma_halfedge_count();
        self.lemma_steps_return(v, s);
        let nn = self.halfedges().dom().len();
        let r = self.lemma_first_step_return(s, 1, nn);
        self.lemma_walk_is_steps(v, s, r, 0, self.walk_bound());
        let w = self.one_ring(v);
        assert(w =~= Seq::new(r, |j: int| self.stepped(s, j as nat)));
        assert forall|i: int| 0 <= i < w.len() implies #[trigger] self.starts_at(w[i], v) by {
            self.lemma_stepped_stays(v, s, i as nat);
        }
        assert(w.no_duplicates()) by {
            assert forall|a: int, b: int| 0 <= a < w.len() && 0 <= b < w.len() && a != b implies w[a] != w[b] by {
                let (i, j) = if a < b { (a as nat, b as nat) } else { (b as nat, a as nat) };
                if self.stepped(s, i) == self.stepped(s, j) {
                    self.lemma_stepped_cancel(v, s, i, j);
                }
            }
        }
        assert forall|i: int| 0 <= i < w.len() implies self.ring_step(#[trigger] w[i]) == Some(w[(i + 1) % (w.len() as int)]) by {
            self.lemma_stepped_stays(v, s, i as nat);
            self.lemma_step_stays(v, w[i]);
            assert(self.stepped(s, (i + 1) as nat) == self.ring_step(self.stepped(s, i as nat))->0);
            if i + 1 < w.len() {
                vstd::arithmetic::div_mod::lemma_small_mod((i + 1) as nat, w.len());
            } else {
                vstd::arithmetic::div_mod::lemma_mod_self_0(w.len() as int);
            }
        }
    }
}

} // verus!
