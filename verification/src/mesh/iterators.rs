//! The ids of the vertices, half-edges, edges and faces, and the half-edges around a vertex or a face.
use vstd::prelude::*;
use crate::ids::{FaceID, HalfEdgeID, VertexID, ID};
use super::Mesh;
use super::traversal::Walker;

verus! {

/// The sequence lists the given indices, each once, in increasing order.
pub open spec fn lists_in_order<K: ID>(ids: Seq<K>, live: Set<u32>) -> bool {
    &&& forall|j: int| 0 <= j < ids.len() ==> live.contains(#[trigger] ids[j].index())
    &&& forall|j: int, l: int| 0 <= j < l < ids.len() ==> ids[j].index() < ids[l].index()
    &&& forall|i: u32| live.contains(i) ==> exists|j: int| 0 <= j < ids.len() && #[trigger] ids[j].index() == i
}

/// A strictly increasing list of indices below `bound` has at most `bound` elements.
pub proof fn lemma_lists_in_order_len<K: ID>(ids: Seq<K>, bound: nat)
    requires
        lists_in_order(ids, Set::new(|i: u32| i < bound)),
    ensures
        ids.len() <= bound,
        forall|j: int| 0 <= j < ids.len() ==> j <= #[trigger] ids[j].index(),
{
    assert forall|j: int| 0 <= j < ids.len() implies j <= #[trigger] ids[j].index() by {
        lemma_increasing_index(ids, bound, j);
    }
    if ids.len() > bound {
        assert(Set::new(|i: u32| i < bound).contains(ids[bound as int].index()));
    }
}

/// A strictly increasing list of indices from a set of indices below `bound` has at most `bound` elements.
pub proof fn lemma_lists_in_order_bound<K: ID>(ids: Seq<K>, live: Set<u32>, bound: nat)
    requires
        lists_in_order(ids, live),
        forall|i: u32| live.contains(i) ==> i < bound,
    ensures
        ids.len() <= bound,
{
    if ids.len() > 0 {
        lemma_index_at_least(ids, live, ids.len() - 1);
        assert(live.contains(ids[ids.len() - 1].index()));
    }
}

proof fn lemma_index_at_least<K: ID>(ids: Seq<K>, live: Set<u32>, j: int)
    requires
        lists_in_order(ids, live),
        0 <= j < ids.len(),
    ensures
        j <= ids[j].index(),
    decreases j,
{
    if j > 0 {
        lemma_index_at_least(ids, live, j - 1);
    }
}

proof fn lemma_increasing_index<K: ID>(ids: Seq<K>, bound: nat, j: int)
    requires
        lists_in_order(ids, Set::new(|i: u32| i < bound)),
        0 <= j < ids.len(),
    ensures
        j <= ids[j].index(),
    decreases j,
{
    if j > 0 {
        lemma_increasing_index(ids, bound, j - 1);
    }
}

/// A list of indices in increasing order, each once, has as many elements as the finite set it lists.
pub proof fn lemma_lists_in_order_count<K: ID>(ids: Seq<K>, live: Set<u32>)
    requires
        lists_in_order(ids, live),
        live.finite(),
    ensures
        ids.len() == live.len(),
{
    let s = ids.map_values(|k: K| k.index());
    assert(s.no_duplicates()) by {
        assert forall|j: int, l: int| 0 <= j < s.len() && 0 <= l < s.len() && j != l implies s[j] != s[l] by {
            if j < l {
                assert(ids[j].index() < ids[l].index());
            } else {
                assert(ids[l].index() < ids[j].index());
            }
        }
    }
    assert(s.to_set() =~= live) by {
        assert forall|i: u32| live.contains(i) implies s.to_set().contains(i) by {
            let j = choose|j: int| 0 <= j < ids.len() && #[trigger] ids[j].index() == i;
            assert(s[j] == i);
        }
        assert forall|i: u32| s.to_set().contains(i) implies live.contains(i) by {
            let j = choose|j: int| 0 <= j < s.len() && s[j] == i;
            assert(live.contains(ids[j].index()));
        }
    }
    s.unique_seq_to_set();
}

impl<T: Copy> Mesh<T> {
    /// The bound on the walks around a vertex: one more than the number of half-edge slots.
    /// A walk that has not ended after this many steps repeats a half-edge and never ends.
    pub open spec fn walk_bound(&self) -> nat {
        self.he_slot_count() + 1
    }

    /// Walks from an incoming half-edge around its end vertex, across faces, until a half-edge without face;
    /// `None` if that takes more than `fuel` steps.
    pub open spec fn around_to_boundary(&self, c: Option<HalfEdgeID>, fuel: nat) -> Option<Option<HalfEdgeID>>
        decreases fuel,
    {
        if self.face_of(c) is None {
            Some(c)
        } else if fuel == 0 {
            None
        } else {
            self.around_to_boundary(self.twin_of(self.next_of(c)), (fuel - 1) as nat)
        }
    }

    /// The half-edge that follows `h` in the walk around the vertex that `h` starts in.
    pub open spec fn ring_step(&self, h: HalfEdgeID) -> Option<HalfEdgeID> {
        if self.face_of(Some(h)) is Some {
            self.twin_of(self.previous_of(Some(h)))
        } else {
            match self.around_to_boundary(self.twin_of(Some(h)), self.walk_bound()) {
                Some(c) => self.twin_of(c),
                None => None,
            }
        }
    }

    /// The walk around a vertex from `cur`, with at most `n` half-edges, until it returns to `start`.
    pub open spec fn ring_walk(&self, start: HalfEdgeID, cur: HalfEdgeID, n: nat) -> Seq<HalfEdgeID>
        decreases n,
    {
        if n == 0 {
            Seq::empty()
        } else {
            match self.ring_step(cur) {
                Some(nx) => if nx != start && n > 1 {
                    seq![cur] + self.ring_walk(start, nx, (n - 1) as nat)
                } else {
                    seq![cur]
                },
                None => seq![cur],
            }
        }
    }

    /// The half-edges that start in the vertex, found by walking around it from its half-edge.
    pub open spec fn one_ring(&self, vertex_id: VertexID) -> Seq<HalfEdgeID> {
        match self.vertex_halfedge_of(vertex_id) {
            Some(start) => self.ring_walk(start, start, self.walk_bound()),
            None => Seq::empty(),
        }
    }

    /// The three half-edges of the face, starting after its half-edge.
    pub open spec fn face_ring(&self, face_id: FaceID) -> Seq<HalfEdgeID> {
        let h0 = self.face_halfedge_of(face_id);
        seq![self.next_of(h0)->0, self.next_of(self.next_of(h0))->0, self.next_of(self.next_of(self.next_of(h0)))->0]
    }

    /// Every half-edge of the mesh names a twin.
    pub open spec fn all_twinned(&self) -> bool {
        forall|h: HalfEdgeID| self.he_live(h) ==> (#[trigger] self.twin_of(Some(h))) is Some
    }

    /// The indices of the live half-edges that are listed for their edge.
    pub open spec fn edge_indices(&self) -> Set<u32> {
        Set::new(|i: u32| self.halfedges().dom().contains(i) && self.is_edge_representative(HalfEdgeID::from_index(i)))
    }

    /// The index of the twin of the half-edge with the given index.
    pub open spec fn twin_index(&self, i: u32) -> u32 {
        self.twin_of(Some(HalfEdgeID::from_index(i)))->0.index()
    }

    /// In a valid mesh, exactly one of the two half-edges of an edge is listed for it.
    pub proof fn lemma_one_of_twins_listed(&self, h: HalfEdgeID)
        requires
            self.valid(),
            self.he_live(h),
        ensures
            self.twin_of(Some(h)) matches Some(t) && self.he_live(t)
                && self.is_edge_representative(h) != self.is_edge_representative(t),
    {
        self.lemma_halfedge_ok(h);
        let t = self.twin_of(Some(h))->0;
        HalfEdgeID::lemma_index_injective(h, t);
    }

    /// In a valid mesh, half of the half-edges are listed for their edge.
    pub proof fn lemma_edge_count(&self)
        requires
            self.valid(),
        ensures
            2 * self.edge_indices().len() == self.halfedges().dom().len(),
            self.edge_indices().finite(),
    {
        self.lemma_valid_wf();
        self.lemma_wf();
        let d = self.halfedges().dom();
        let r = self.edge_indices();
        let n = d.difference(r);
        let tw = |i: u32| self.twin_index(i);
        assert(r.subset_of(d));
        vstd::set_lib::lemma_set_subset_finite(d, r);
        assert forall|i: u32| r.contains(i) implies n.contains(tw(i)) && tw(tw(i)) == i by {
            let h = HalfEdgeID::from_index(i);
            HalfEdgeID::lemma_from_index(i);
            self.lemma_one_of_twins_listed(h);
            self.lemma_halfedge_ok(h);
            let t = self.twin_of(Some(h))->0;
            HalfEdgeID::lemma_from_index(t.index());
            HalfEdgeID::lemma_index_injective(HalfEdgeID::from_index(t.index()), t);
        }
        assert forall|j: u32| n.contains(j) implies exists|i: u32| r.contains(i) && tw(i) == j by {
            let h = HalfEdgeID::from_index(j);
            HalfEdgeID::lemma_from_index(j);
            self.lemma_one_of_twins_listed(h);
            self.lemma_halfedge_ok(h);
            let t = self.twin_of(Some(h))->0;
            HalfEdgeID::lemma_from_index(t.index());
            HalfEdgeID::lemma_index_injective(HalfEdgeID::from_index(t.index()), t);
            assert(r.contains(t.index()));
            assert(tw(t.index()) == j);
        }
        assert(r.map(tw) =~= n) by {
            assert forall|j: u32| n.contains(j) implies r.map(tw).contains(j) by {
                let i = choose|i: u32| r.contains(i) && tw(i) == j;
            }
        }
        assert(vstd::relations::injective_on(tw, r)) by {
            assert forall|a: u32, b: u32| r.contains(a) && r.contains(b) && #[trigger] tw(a) == #[trigger] tw(b) implies a == b by {
                assert(tw(tw(a)) == a);
                assert(tw(tw(b)) == b);
            }
        }
        vstd::set_lib::lemma_map_size(r, n, tw);
        assert(d =~= r + n);
        vstd::set_lib::lemma_set_disjoint_lens(r, n);
    }

    /// Whether the half-edge is the one listed for its edge: its twin does not have a smaller index.
    pub open spec fn is_edge_representative(&self, h: HalfEdgeID) -> bool {
        !(self.twin_of(Some(h))->0.index() < h.index())
    }

    /// Iterator over the vertex ids, in increasing order.
    pub fn vertex_iter(&self) -> (ids: Vec<VertexID>)
        requires
            self.wf(),
        ensures
            lists_in_order(ids@, self.vertices().dom()),
    {
        self.connectivity_info.vertex_iterator()
    }

    /// Iterator over the half-edge ids, in increasing order. Each edge is visited two times, one for each half-edge.
    pub fn halfedge_iter(&self) -> (ids: Vec<HalfEdgeID>)
        requires
            self.wf(),
        ensures
            lists_in_order(ids@, self.halfedges().dom()),
    {
        self.connectivity_info.halfedge_iterator()
    }

    /// Iterator over the face ids, in increasing order.
    pub fn face_iter(&self) -> (ids: Vec<FaceID>)
        requires
            self.wf(),
        ensures
            lists_in_order(ids@, self.faces().dom()),
    {
        self.connectivity_info.face_iterator()
    }

    /// Iterator over the edges given as a half-edge id: of the two half-edges of an edge, the one
    /// whose twin does not have a smaller index, in increasing order.
    pub fn edge_iter(&self) -> (ids: Vec<HalfEdgeID>)
        requires
            self.wf(),
            self.all_twinned(),
        ensures
            forall|a: int| 0 <= a < ids.len() ==> self.he_live(#[trigger] ids[a]) && self.is_edge_representative(ids[a]),
            forall|a: int, b: int| 0 <= a < b < ids.len() ==> ids[a].index() < ids[b].index(),
            forall|h: HalfEdgeID| self.he_live(h) && self.is_edge_representative(h) ==> #[trigger] ids@.contains(h),
            self.valid() ==> forall|h: HalfEdgeID| self.he_live(h)
                ==> #[trigger] ids@.contains(h) != ids@.contains(self.twin_of(Some(h))->0),
            self.valid() ==> 2 * ids.len() == self.halfedges().dom().len(),
    {
        let all = self.connectivity_info.halfedge_iterator();
        let mut ids: Vec<HalfEdgeID> = Vec::new();
        let mut walker = self.walker();
        let mut j: usize = 0;
        while j < all.len()
            invariant
                walker.on(self),
                j <= all.len(),
                lists_in_order(all@, self.halfedges().dom()),
                self.all_twinned(),
                forall|a: int| 0 <= a < ids.len() ==> self.he_live(#[trigger] ids[a]) && self.is_edge_representative(ids[a]),
                forall|a: int, b: int| 0 <= a < b < ids.len() ==> ids[a].index() < ids[b].index(),
                forall|b: int| 0 <= b < j && self.is_edge_representative(#[trigger] all[b]) ==> ids@.contains(all[b]),
                forall|a: int, b: int| 0 <= a < ids.len() && j <= b < all.len() ==> #[trigger] ids[a].index() < #[trigger] all[b].index(),
            decreases all.len() - j,
        {
            let next_id = all[j];
            walker.as_halfedge_walker(next_id, Ghost(self));
            let twin = walker.twin_id();
            proof {
                walker.lemma_reads(self);
                assert(self.he_live(next_id));
                assert(self.twin_of(Some(next_id)) is Some);
            }
            let twin_id = twin.unwrap();
            let ghost old_ids = ids@;
            if !(twin_id.get() < next_id.get()) {
                ids.push(next_id);
                proof {
                    assert(ids[ids.len() - 1] == next_id);
                }
            }
            proof {
                assert forall|b: int| 0 <= b < j + 1 && self.is_edge_representative(#[trigger] all[b]) implies ids@.contains(all[b]) by {
                    if b < j {
                        let a = choose|a: int| 0 <= a < old_ids.len() && old_ids[a] == all[b];
                        assert(ids[a] == all[b]);
                    } else {
                        assert(ids[ids.len() - 1] == next_id);
                    }
                }
            }
            j += 1;
        }
        proof {
            assert forall|h: HalfEdgeID| self.he_live(h) && self.is_edge_representative(h) implies #[trigger] ids@.contains(h) by {
                let b = choose|b: int| 0 <= b < all.len() && #[trigger] all[b].index() == h.index();
                HalfEdgeID::lemma_index_injective(all[b], h);
            }
            if self.valid() {
                assert forall|h: HalfEdgeID| self.he_live(h)
                    implies #[trigger] ids@.contains(h) != ids@.contains(self.twin_of(Some(h))->0) by {
                    self.lemma_one_of_twins_listed(h);
                    let t = self.twin_of(Some(h))->0;
                    if ids@.contains(h) {
                        let a = choose|a: int| 0 <= a < ids.len() && ids[a] == h;
                        assert(self.is_edge_representative(ids[a]));
                    }
                    if ids@.contains(t) {
                        let a = choose|a: int| 0 <= a < ids.len() && ids[a] == t;
                        assert(self.is_edge_representative(ids[a]));
                    }
                }
                assert(lists_in_order(ids@, self.edge_indices())) by {
                    assert forall|j: int| 0 <= j < ids.len() implies self.edge_indices().contains(#[trigger] ids[j].index()) by {
                        HalfEdgeID::lemma_from_index(ids[j].index());
                        HalfEdgeID::lemma_index_injective(HalfEdgeID::from_index(ids[j].index()), ids[j]);
                    }
                    assert forall|i: u32| self.edge_indices().contains(i) implies exists|j: int| 0 <= j < ids.len() && #[trigger] ids[j].index() == i by {
                        let h = HalfEdgeID::from_index(i);
                        HalfEdgeID::lemma_from_index(i);
                        assert(ids@.contains(h));
                        let j = choose|j: int| 0 <= j < ids.len() && ids[j] == h;
                        assert(ids[j].index() == i);
                    }
                }
                self.lemma_edge_count();
                lemma_lists_in_order_count(ids@, self.edge_indices());
            }
        }
        ids
    }

    /// Iterator over the half-edges which start in the given vertex, i.e. the one-ring.
    ///
    /// If the given vertex is the only connection between two or more separate sets of faces,
    /// then only the half-edges of one of the sets are visited.
    /// If the vertex is on the boundary, all half-edges are visited.
    /// The walk ends when it returns to the first half-edge; it also ends, early, where the
    /// walk leaves the mesh or does not come back within [Mesh::walk_bound] steps. In a valid mesh it always
    /// comes back: the half-edges form a closed cycle, each listed once ([Mesh::lemma_one_ring_cycle]).
    pub fn vertex_halfedge_iter(&self, vertex_id: VertexID) -> (ids: Vec<HalfEdgeID>)
        requires
            self.wf(),
            self.vx(vertex_id) is Some,
            self.vertex_halfedge_of(vertex_id) is Some,
        ensures
            ids@ == self.one_ring(vertex_id),
            self.valid() && self.vx_live(vertex_id) ==> {
                &&& ids.len() > 0
                &&& ids@[0] == self.vertex_halfedge_of(vertex_id)->0
                &&& ids@.no_duplicates()
                &&& forall|i: int| 0 <= i < ids.len() ==> #[trigger] self.starts_at(ids@[i], vertex_id)
                &&& forall|i: int| 0 <= i < ids.len() ==> self.ring_step(#[trigger] ids@[i]) == Some(ids@[(i + 1) % (ids.len() as int)])
            },
    {
        proof {
            if self.valid() && self.vx_live(vertex_id) {
                self.lemma_one_ring_cycle(vertex_id);
            }
        }
        let bound: u64 = self.connectivity_info.halfedges.slot_count() as u64 + 1;
        let mut walker = self.walker_from_vertex(vertex_id);
        let start = walker.halfedge_id().unwrap();
        let mut ids: Vec<HalfEdgeID> = Vec::new();
        let mut remaining: u64 = bound;
        proof {
            self.lemma_wf();
            walker.lemma_reads(self);
            assert(bound == self.walk_bound());
        }
        loop
            invariant_except_break
                walker.on(self),
                walker.current() is Some,
                1 <= remaining <= bound,
                bound == self.walk_bound(),
                self.one_ring(vertex_id) == ids@ + self.ring_walk(start, walker.current()->0, remaining as nat),
            ensures
                self.one_ring(vertex_id) == ids@,
            decreases remaining,
        {
            let curr = walker.halfedge_id().unwrap();
            ids.push(curr);
            proof {
                walker.lemma_reads(self);
            }
            let face = walker.face_id();
            let mut stuck = false;
            if face.is_some() {
                walker.as_previous().as_twin();
                proof {
                    walker.lemma_reads(self);
                    assert(walker.current() == self.ring_step(curr));
                }
            } else {
                walker.as_twin();
                let ghost first = walker.current();
                let mut k: u64 = 0;
                while walker.face_id().is_some()
                    invariant_except_break
                        walker.on(self),
                        k <= bound,
                        bound == self.walk_bound(),
                        self.around_to_boundary(first, bound as nat) == self.around_to_boundary(walker.current(), (bound - k) as nat),
                        !stuck,
                    ensures
                        stuck ==> self.around_to_boundary(first, bound as nat) is None,
                        !stuck ==> self.around_to_boundary(first, bound as nat) == Some(walker.current()),
                        walker.on(self),
                    decreases bound - k,
                {
                    proof {
                        walker.lemma_reads(self);
                    }
                    if k == bound {
                        stuck = true;
                        break;
                    }
                    walker.as_next().as_twin();
                    proof {
                        walker.lemma_reads(self);
                    }
                    k += 1;
                }
                proof {
                    walker.lemma_reads(self);
                }
                walker.as_twin();
                proof {
                    walker.lemma_reads(self);
                    if !stuck {
                        assert(walker.current() == self.ring_step(curr));
                    } else {
                        assert(self.ring_step(curr) is None);
                    }
                }
            }
            proof {
                let tail = self.ring_walk(start, curr, remaining as nat);
                assert(ids@ == ids@.drop_last().push(curr));
            }
            if stuck {
                proof {
                    assert(self.ring_walk(start, curr, remaining as nat) == seq![curr]);
                    assert(ids@ =~= ids@.drop_last() + seq![curr]);
                }
                break;
            }
            match walker.halfedge_id() {
                None => {
                    proof {
                        assert(self.ring_walk(start, curr, remaining as nat) == seq![curr]);
                        assert(ids@ =~= ids@.drop_last() + seq![curr]);
                    }
                    break;
                },
                Some(h) => {
                    if h == start || remaining == 1 {
                        proof {
                            assert(self.ring_walk(start, curr, remaining as nat) == seq![curr]);
                            assert(ids@ =~= ids@.drop_last() + seq![curr]);
                        }
                        break;
                    }
                    proof {
                        assert(self.ring_walk(start, curr, remaining as nat) == seq![curr] + self.ring_walk(start, h, (remaining - 1) as nat));
                        assert(ids@.drop_last() + (seq![curr] + self.ring_walk(start, h, (remaining - 1) as nat)) =~= ids@ + self.ring_walk(start, h, (remaining - 1) as nat));
                    }
                    remaining -= 1;
                },
            }
        }
        ids
    }

    /// Iterator over the three half-edges of the given face, starting after the half-edge of the face.
    pub fn face_halfedge_iter(&self, face_id: FaceID) -> (ids: Vec<HalfEdgeID>)
        requires
            self.fc(face_id) is Some,
            self.next_of(self.face_halfedge_of(face_id)) is Some,
            self.next_of(self.next_of(self.face_halfedge_of(face_id))) is Some,
            self.next_of(self.next_of(self.next_of(self.face_halfedge_of(face_id)))) is Some,
        ensures
            ids@ == self.face_ring(face_id),
    {
        let mut walker = self.walker_from_face(face_id);
        let mut ids: Vec<HalfEdgeID> = Vec::new();
        proof {
            walker.lemma_reads(self);
        }
        walker.as_next();
        ids.push(walker.halfedge_id().unwrap());
        walker.as_next();
        ids.push(walker.halfedge_id().unwrap());
        walker.as_next();
        ids.push(walker.halfedge_id().unwrap());
        proof {
            assert(ids@ =~= self.face_ring(face_id));
        }
        ids
    }
}

} // verus!
