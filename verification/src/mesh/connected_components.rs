//! Connected components: the faces that can be reached from a face across edges.
use vstd::prelude::*;
use crate::ids::{FaceID, HalfEdgeID, ID};
use super::Mesh;
use super::iterators::lists_in_order;

verus! {

/// How many entries of the list are `false`.
pub open spec fn count_false(s: Seq<bool>) -> nat
    decreases s.len(),
{
    if s.len() == 0 {
        0
    } else {
        count_false(s.drop_last()) + if s.last() { 0nat } else { 1nat }
    }
}

/// Setting a `false` entry to `true` leaves one fewer `false`.
pub proof fn lemma_count_false_update(s: Seq<bool>, i: int)
    requires
        0 <= i < s.len(),
        !s[i],
    ensures
        count_false(s.update(i, true)) + 1 == count_false(s),
    decreases s.len(),
{
    let u = s.update(i, true);
    if i < s.len() - 1 {
        assert(u.drop_last() =~= s.drop_last().update(i, true));
        lemma_count_false_update(s.drop_last(), i);
    } else {
        assert(u.drop_last() =~= s.drop_last());
    }
}

/// The face lists of the vectors.
pub open spec fn views(comps: Seq<Vec<FaceID>>) -> Seq<Seq<FaceID>> {
    comps.map_values(|c: Vec<FaceID>| c@)
}

/// Whether the list holds the face.
pub fn vec_contains(v: &Vec<FaceID>, f: FaceID) -> (b: bool)
    ensures
        b == v@.contains(f),
{
    let mut i: usize = 0;
    while i < v.len()
        invariant
            i <= v.len(),
            forall|j: int| 0 <= j < i ==> v@[j] != f,
        decreases v.len() - i,
    {
        if v[i] == f {
            return true;
        }
        i += 1;
    }
    false
}

impl<T: Copy> Mesh<T> {
    /// The face `b` lies across one of the edges of `a` whose half-edge in `a` is not cut; `cut` holds, by
    /// half-edge index, whether a half-edge is a limit that a component does not cross.
    pub open spec fn adjacent_across(&self, a: FaceID, b: FaceID, cut: Seq<bool>) -> bool {
        exists|i: int| 0 <= i < 3 && !cut[(#[trigger] self.face_ring(a)[i]).index() as int]
            && self.face_of(self.twin_of(Some(self.face_ring(a)[i]))) == Some(b)
    }

    /// Step `i` of the walk `p` crosses an edge that is not cut.
    pub open spec fn walk_step(&self, p: Seq<FaceID>, i: int, cut: Seq<bool>) -> bool {
        self.adjacent_across(p[i], p[i + 1], cut)
    }

    /// `p` is a walk from face to face across edges that are not cut.
    pub open spec fn is_walk(&self, p: Seq<FaceID>, cut: Seq<bool>) -> bool {
        forall|i: int| 0 <= i < p.len() - 1 ==> #[trigger] self.walk_step(p, i, cut)
    }

    /// `b` is in the connected component of `a`: a walk across edges that are not cut leads from `a` to `b`.
    #[verifier::opaque]
    pub open spec fn in_component(&self, a: FaceID, b: FaceID, cut: Seq<bool>) -> bool {
        exists|p: Seq<FaceID>| p.len() > 0 && p[0] == a && p.last() == b && #[trigger] self.is_walk(p, cut)
    }

    /// A walk extended by a step across an edge that is not cut is a walk.
    proof fn lemma_walk_push(&self, p: Seq<FaceID>, b: FaceID, cut: Seq<bool>)
        requires
            p.len() > 0,
            self.is_walk(p, cut),
            self.adjacent_across(p.last(), b, cut),
        ensures
            self.is_walk(p.push(b), cut),
    {
        let q = p.push(b);
        assert forall|i: int| 0 <= i < q.len() - 1 implies #[trigger] self.walk_step(q, i, cut) by {
            if i < p.len() - 1 {
                assert(self.walk_step(p, i, cut));
                assert(q[i] == p[i] && q[i + 1] == p[i + 1]);
            } else {
                assert(q[i] == p.last() && q[i + 1] == b);
            }
        }
    }

    /// Every face across an edge of `g` that is not cut is marked.
    pub open spec fn closed_in(&self, g: FaceID, member: Seq<bool>, cut: Seq<bool>) -> bool {
        forall|i: int| 0 <= i < 3 && !cut[(#[trigger] self.face_ring(g)[i]).index() as int]
            ==> (self.face_of(self.twin_of(Some(self.face_ring(g)[i]))) matches Some(g2) ==> member[g2.index() as int])
    }

    /// Marking more faces keeps a face closed.
    proof fn lemma_closed_mono(&self, g: FaceID, m1: Seq<bool>, m2: Seq<bool>, cut: Seq<bool>)
        requires
            self.valid(),
            self.fc_live(g),
            m1.len() == self.fc_slot_count(),
            m2.len() == m1.len(),
            forall|k: int| 0 <= k < m1.len() && #[trigger] m1[k] ==> m2[k],
            self.closed_in(g, m1, cut),
        ensures
            self.closed_in(g, m2, cut),
    {
        assert forall|i: int| 0 <= i < 3 && !cut[(#[trigger] self.face_ring(g)[i]).index() as int]
            implies (self.face_of(self.twin_of(Some(self.face_ring(g)[i]))) matches Some(g2) ==> m2[g2.index() as int]) by {
            self.lemma_neighbour_live(g, i);
        }
    }

    /// Along a walk from a marked face, where every marked face is closed, every face is marked.
    proof fn lemma_reached_marked(&self, p: Seq<FaceID>, cut: Seq<bool>, member: Seq<bool>, k: int)
        requires
            self.valid(),
            p.len() > 0,
            self.is_walk(p, cut),
            member.len() == self.fc_slot_count(),
            p[0].index() < member.len(),
            member[p[0].index() as int],
            forall|g: FaceID| g.index() < member.len() && #[trigger] member[g.index() as int] ==> self.fc_live(g) && self.closed_in(g, member, cut),
            0 <= k < p.len(),
        ensures
            p[k].index() < member.len(),
            member[p[k].index() as int],
        decreases k,
    {
        if k > 0 {
            self.lemma_reached_marked(p, cut, member, k - 1);
            assert(self.walk_step(p, k - 1, cut));
            let c = p[k - 1];
            let i = choose|i: int| 0 <= i < 3 && !cut[(#[trigger] self.face_ring(c)[i]).index() as int]
                && self.face_of(self.twin_of(Some(self.face_ring(c)[i]))) == Some(p[k]);
            assert(self.closed_in(c, member, cut));
            self.lemma_neighbour_live(c, i);
            self.lemma_fc_slots();
            self.lemma_valid_wf();
            self.lemma_wf();
        }
    }

    /// Returns the connected component of the given face: the faces reached from it across edges whose half-edge
    /// in the face it is left from is not cut. `cut` holds, by half-edge index, whether a half-edge is such a limit.
    pub fn connected_component_with_limit(&self, start_face_id: FaceID, cut: &Vec<bool>) -> (component: Vec<FaceID>)
        requires
            self.valid(),
            self.fc_live(start_face_id),
            cut@.len() == self.he_slot_count(),
        ensures
            component@.no_duplicates(),
            component@.contains(start_face_id),
            forall|g: FaceID| component@.contains(g) <==> self.in_component(start_face_id, g, cut@),
            forall|g: FaceID| component@.contains(g) ==> self.fc_live(g),
    {
        proof {
            reveal(Mesh::in_component);
            self.lemma_valid_wf();
            self.lemma_wf();
            self.lemma_fc_slots();
            self.lemma_he_slots();
            self.lemma_fc_slots_bound();
        }
        let n = self.face_slot_count();
        let mut member: Vec<bool> = Vec::new();
        let mut k: usize = 0;
        while k < n
            invariant
                k <= n,
                member@.len() == k,
                forall|j: int| 0 <= j < k ==> !(#[trigger] member@[j]),
            decreases n - k,
        {
            member.push(false);
            k += 1;
        }
        let ghost m0 = member@;
        member.set(start_face_id.get() as usize, true);
        proof { lemma_count_false_update(m0, start_face_id.index() as int); }
        let mut component: Vec<FaceID> = Vec::new();
        component.push(start_face_id);
        let mut to_be_tested: Vec<FaceID> = Vec::new();
        to_be_tested.push(start_face_id);
        let ghost mut paths: Seq<Seq<FaceID>> = seq![seq![start_face_id]];
        proof {
            assert(self.is_walk(seq![start_face_id], cut@));
            assert forall|g: FaceID| g.index() < n implies (#[trigger] member@[g.index() as int] <==> component@.contains(g)) by {
                FaceID::lemma_index_injective(g, start_face_id);
                if component@.contains(g) {
                    assert(component@[0] == g);
                }
                if g == start_face_id {
                    assert(component@[0] == g);
                }
            }
        }
        loop
            invariant
                self.valid(),
                self.wf(),
                n == self.fc_slot_count(),
                n <= u32::MAX,
                cut@.len() == self.he_slot_count(),
                self.fc_live(start_face_id),
                member@.len() == n,
                forall|g: FaceID| g.index() < n ==> (#[trigger] member@[g.index() as int] <==> component@.contains(g)),
                component@.no_duplicates(),
                forall|j: int| 0 <= j < component.len() ==> self.fc_live(#[trigger] component@[j]),
                paths.len() == component.len(),
                component.len() > 0 && component@[0] == start_face_id,
                forall|j: int| #![trigger component@[j]] #![trigger paths[j]] 0 <= j < component.len() ==> paths[j].len() > 0
                    && paths[j][0] == start_face_id && paths[j].last() == component@[j] && self.is_walk(paths[j], cut@),
                to_be_tested@.no_duplicates(),
                forall|j: int| 0 <= j < to_be_tested.len() ==> component@.contains(#[trigger] to_be_tested@[j]),
                forall|j: int| 0 <= j < component.len() ==> to_be_tested@.contains(#[trigger] component@[j])
                    || self.closed_in(component@[j], member@, cut@),
            ensures
                to_be_tested@.len() == 0,
            decreases count_false(member@) + to_be_tested.len(),
        {
            let ghost stack_before = to_be_tested@;
            let popped = to_be_tested.pop();
            match popped {
                None => {
                    break;
                },
                Some(test_face) => {
                    proof {
                        assert forall|i: int| 0 <= i < component.len() implies to_be_tested@.contains(#[trigger] component@[i])
                            || component@[i] == test_face
                            || self.closed_in(component@[i], member@, cut@) by {
                            let c = component@[i];
                            if stack_before.contains(c) {
                                let k = choose|k: int| 0 <= k < stack_before.len() && stack_before[k] == c;
                                if k < to_be_tested.len() {
                                    assert(to_be_tested@[k] == c);
                                }
                            }
                        }
                    }
                    proof {
                        assert(component@.contains(test_face));
                        assert(!to_be_tested@.contains(test_face));
                        self.lemma_face_ok(test_face);
                        let h0 = self.face_halfedge_of(test_face)->0;
                        self.lemma_triangle(h0);
                        self.lemma_triangle(self.next_of(Some(h0))->0);
                    }
                    let ring = self.face_halfedge_iter(test_face);
                    let ghost measure = count_false(member@) + to_be_tested.len();
                    let ghost ti = choose|i: int| 0 <= i < component.len() && component@[i] == test_face;
                    let mut j: usize = 0;
                    while j < 3
                        invariant
                            self.valid(),
                            self.wf(),
                            n == self.fc_slot_count(),
                            n <= u32::MAX,
                            cut@.len() == self.he_slot_count(),
                            ring@ == self.face_ring(test_face),
                            self.fc_live(test_face),
                            self.fc_live(start_face_id),
                            0 <= j <= 3,
                            0 <= ti < component.len(),
                            component@[ti] == test_face,
                            !to_be_tested@.contains(test_face),
                            member@.len() == n,
                            forall|g: FaceID| g.index() < n ==> (#[trigger] member@[g.index() as int] <==> component@.contains(g)),
                            component@.no_duplicates(),
                            forall|i: int| 0 <= i < component.len() ==> self.fc_live(#[trigger] component@[i]),
                            paths.len() == component.len(),
                            component.len() > 0 && component@[0] == start_face_id,
                            forall|i: int| #![trigger component@[i]] #![trigger paths[i]] 0 <= i < component.len() ==> paths[i].len() > 0
                                && paths[i][0] == start_face_id && paths[i].last() == component@[i] && self.is_walk(paths[i], cut@),
                            to_be_tested@.no_duplicates(),
                            forall|i: int| 0 <= i < to_be_tested.len() ==> component@.contains(#[trigger] to_be_tested@[i]),
                            forall|i: int| 0 <= i < component.len() ==> to_be_tested@.contains(#[trigger] component@[i])
                                || component@[i] == test_face
                                || self.closed_in(component@[i], member@, cut@),
                            forall|i: int| 0 <= i < j && !cut@[(#[trigger] self.face_ring(test_face)[i]).index() as int]
                                ==> (self.face_of(self.twin_of(Some(self.face_ring(test_face)[i]))) matches Some(g2) ==> member@[g2.index() as int]),
                            count_false(member@) + to_be_tested.len() == measure,
                        decreases 3 - j,
                    {
                        let h = ring[j];
                        proof {
                            self.lemma_neighbour_live(test_face, j as int);
                            self.lemma_he_slots();
                            self.lemma_he_slots_bound();
                            self.lemma_fc_slots();
                            self.lemma_halfedge_ok(h);
                        }
                        if !cut[h.get() as usize] {
                            let walker = self.walker_from_halfedge(h).into_twin();
                            proof { walker.lemma_reads(self); }
                            if let Some(face_id) = walker.face_id() {
                                if !member[face_id.get() as usize] {
                                    let ghost mb = member@;
                                    let ghost cb = component@;
                                    let ghost sb = to_be_tested@;
                                    member.set(face_id.get() as usize, true);
                                    proof { lemma_count_false_update(mb, face_id.index() as int); }
                                    component.push(face_id);
                                    to_be_tested.push(face_id);
                                    proof {
                                        let pt = paths[ti];
                                        assert(self.face_ring(test_face)[j as int] == h);
                                        assert(self.adjacent_across(test_face, face_id, cut@));
                                        self.lemma_walk_push(pt, face_id, cut@);
                                        paths = paths.push(pt.push(face_id));
                                        assert(!cb.contains(face_id));
                                        assert forall|g: FaceID| g.index() < n implies (#[trigger] member@[g.index() as int] <==> component@.contains(g)) by {
                                            FaceID::lemma_index_injective(g, face_id);
                                            if cb.contains(g) {
                                                let i = choose|i: int| 0 <= i < cb.len() && cb[i] == g;
                                                assert(component@[i] == g);
                                            }
                                            if component@.contains(g) && g != face_id {
                                                let i = choose|i: int| 0 <= i < component.len() && component@[i] == g;
                                                assert(cb[i] == g);
                                            }
                                            if g == face_id {
                                                assert(component@[component.len() - 1] == g);
                                            }
                                        }
                                        assert forall|i: int| 0 <= i < to_be_tested.len() implies component@.contains(#[trigger] to_be_tested@[i]) by {
                                            if i < sb.len() {
                                                assert(to_be_tested@[i] == sb[i]);
                                                let k = choose|k: int| 0 <= k < cb.len() && cb[k] == sb[i];
                                                assert(component@[k] == sb[i]);
                                            } else {
                                                assert(component@[component.len() - 1] == face_id);
                                            }
                                        }
                                        assert forall|i: int| 0 <= i < component.len() implies to_be_tested@.contains(#[trigger] component@[i])
                                            || component@[i] == test_face
                                            || self.closed_in(component@[i], member@, cut@) by {
                                            if i < cb.len() {
                                                assert(component@[i] == cb[i]);
                                                if sb.contains(cb[i]) {
                                                    let k = choose|k: int| 0 <= k < sb.len() && sb[k] == cb[i];
                                                    assert(to_be_tested@[k] == cb[i]);
                                                } else if cb[i] != test_face {
                                                    self.lemma_closed_mono(cb[i], mb, member@, cut@);
                                                }
                                            } else {
                                                assert(to_be_tested@[to_be_tested.len() - 1] == face_id);
                                            }
                                        }
                                        assert forall|i: int| #![trigger component@[i]] #![trigger paths[i]] 0 <= i < component.len() implies paths[i].len() > 0
                                            && paths[i][0] == start_face_id && paths[i].last() == component@[i] && self.is_walk(paths[i], cut@) by {
                                            if i < cb.len() {
                                                assert(component@[i] == cb[i]);
                                            }
                                        }
                                        assert forall|i: int| 0 <= i < component.len() implies self.fc_live(#[trigger] component@[i]) by {
                                            if i < cb.len() {
                                                assert(component@[i] == cb[i]);
                                            }
                                        }
                                        assert(component@[ti] == test_face);
                                        assert(!to_be_tested@.contains(test_face)) by {
                                            if to_be_tested@.contains(test_face) {
                                                let k = choose|k: int| 0 <= k < to_be_tested.len() && to_be_tested@[k] == test_face;
                                                if k < sb.len() {
                                                    assert(sb[k] == test_face);
                                                }
                                            }
                                        }
                                        assert(to_be_tested@.no_duplicates()) by {
                                            assert(!sb.contains(face_id)) by {
                                                if sb.contains(face_id) {
                                                    let k = choose|k: int| 0 <= k < sb.len() && sb[k] == face_id;
                                                    assert(cb.contains(face_id));
                                                }
                                            }
                                        }
                                        assert forall|i: int| 0 <= i < j + 1 && !cut@[(#[trigger] self.face_ring(test_face)[i]).index() as int]
                                            implies (self.face_of(self.twin_of(Some(self.face_ring(test_face)[i]))) matches Some(g2) ==> member@[g2.index() as int]) by {
                                            if i < j {
                                                self.lemma_neighbour_live(test_face, i);
                                                if let Some(g2) = self.face_of(self.twin_of(Some(self.face_ring(test_face)[i]))) {
                                                    assert(mb[g2.index() as int]);
                                                }
                                            }
                                        }
                                    }
                                }
                            }
                        }
                        j += 1;
                    }
                    proof {
                        assert(self.closed_in(test_face, member@, cut@));
                    }
                },
            }
        }
        proof {
            assert forall|g: FaceID| g.index() < member@.len() && #[trigger] member@[g.index() as int]
                implies self.fc_live(g) && self.closed_in(g, member@, cut@) by {
                let i = choose|i: int| 0 <= i < component.len() && component@[i] == g;
                assert(self.fc_live(component@[i]));
            }
            assert forall|g: FaceID| component@.contains(g) <==> self.in_component(start_face_id, g, cut@) by {
                if component@.contains(g) {
                    let i = choose|i: int| 0 <= i < component.len() && component@[i] == g;
                    assert(self.is_walk(paths[i], cut@));
                }
                if self.in_component(start_face_id, g, cut@) {
                    let p = choose|p: Seq<FaceID>| p.len() > 0 && p[0] == start_face_id && p.last() == g && #[trigger] self.is_walk(p, cut@);
                    assert(member@[start_face_id.index() as int]) by {
                        assert(component@[0] == start_face_id);
                    }
                    self.lemma_reached_marked(p, cut@, member@, p.len() - 1);
                }
            }
            assert forall|g: FaceID| component@.contains(g) implies self.fc_live(g) by {
                let i = choose|i: int| 0 <= i < component.len() && component@[i] == g;
                assert(self.fc_live(component@[i]));
            }
            assert(component@[0] == start_face_id);
        }
        component
    }

    /// Returns the connected component of the given face: the faces reached from it across edges.
    pub fn connected_component(&self, start_face_id: FaceID) -> (component: Vec<FaceID>)
        requires
            self.valid(),
            self.fc_live(start_face_id),
        ensures
            component@.no_duplicates(),
            component@.contains(start_face_id),
            forall|g: FaceID| component@.contains(g) <==> self.in_component(start_face_id, g, self.uncut()),
            forall|g: FaceID| component@.contains(g) ==> self.fc_live(g),
    {
        let cut = self.no_cut();
        self.connected_component_with_limit(start_face_id, &cut)
    }

    /// No half-edge is cut.
    pub open spec fn uncut(&self) -> Seq<bool> {
        Seq::new(self.he_slot_count(), |i: int| false)
    }

    /// A cut of no half-edge.
    fn no_cut(&self) -> (cut: Vec<bool>)
        ensures
            cut@ == self.uncut(),
    {
        let n = self.halfedge_slot_count();
        let mut cut: Vec<bool> = Vec::new();
        let mut i: usize = 0;
        while i < n
            invariant
                i <= n,
                n == self.he_slot_count(),
                cut@ == Seq::new(i as nat, |j: int| false),
                n == self.he_slot_count(),
            decreases n - i,
        {
            cut.push(false);
            i += 1;
            proof { assert(cut@ =~= Seq::new(i as nat, |j: int| false)); }
        }
        proof { assert(cut@ =~= self.uncut()); }
        cut
    }

    /// The components are those of the faces of `starts`, in order: each start is a face of the mesh that lies in
    /// none of the components before it, every other face of the mesh lies in the component of a start with a
    /// smaller id, and the starts come in increasing order of id.
    pub open spec fn are_components(&self, comps: Seq<Seq<FaceID>>, starts: Seq<FaceID>, cut: Seq<bool>) -> bool {
        &&& starts.len() == comps.len()
        &&& forall|i: int| 0 <= i < comps.len() ==> (#[trigger] comps[i]).no_duplicates()
        &&& forall|i: int, g: FaceID| 0 <= i < comps.len() ==> (#[trigger] comps[i].contains(g) <==> self.in_component(starts[i], g, cut))
        &&& forall|i: int| 0 <= i < starts.len() ==> self.fc_live(#[trigger] starts[i])
        &&& forall|i: int, j: int| 0 <= i < j < starts.len() ==> starts[i].index() < starts[j].index()
        &&& forall|i: int, j: int| 0 <= j < i < starts.len() ==> !(#[trigger] comps[j].contains(starts[i]))
        &&& forall|g: FaceID| #[trigger] self.fc_live(g) ==> exists|j: int| 0 <= j < starts.len() && starts[j].index() <= g.index()
            && comps[j].contains(g)
    }

    /// Returns the connected components of the mesh, where no component crosses a half-edge that is cut.
    #[verifier::rlimit(40)]
    pub fn connected_components_with_limit(&self, cut: &Vec<bool>) -> (components: Vec<Vec<FaceID>>)
        requires
            self.valid(),
            cut@.len() == self.he_slot_count(),
        ensures
            exists|starts: Seq<FaceID>| #[trigger] self.are_components(views(components@), starts, cut@),
    {
        proof {
            self.lemma_valid_wf();
            self.lemma_wf();
        }
        let faces = self.face_iter();
        let mut components: Vec<Vec<FaceID>> = Vec::new();
        let ghost mut starts: Seq<FaceID> = Seq::empty();
        let ghost mut owner: Seq<int> = Seq::empty();
        let mut i: usize = 0;
        while i < faces.len()
            invariant
                self.valid(),
                self.wf(),
                cut@.len() == self.he_slot_count(),
                lists_in_order(faces@, self.faces().dom()),
                i <= faces.len(),
                starts.len() == components.len(),
                owner.len() == i,
                forall|a: int| 0 <= a < components.len() ==> (#[trigger] components@[a])@.no_duplicates(),
                forall|a: int, g: FaceID| 0 <= a < components.len() ==> (#[trigger] components@[a]@.contains(g) <==> self.in_component(starts[a], g, cut@)),
                forall|a: int| 0 <= a < starts.len() ==> self.fc_live(#[trigger] starts[a]),
                forall|a: int, b: int| 0 <= a < b < starts.len() ==> starts[a].index() < starts[b].index(),
                forall|a: int| 0 <= a < starts.len() ==> (#[trigger] starts[a]).index() < faces@[i as int].index() || i == faces.len(),
                forall|a: int, b: int| 0 <= b < a < starts.len() ==> !(#[trigger] components@[b]@.contains(starts[a])),
                forall|k: int| 0 <= k < i ==> 0 <= #[trigger] owner[k] < starts.len() && starts[owner[k]].index() <= faces@[k].index()
                    && components@[owner[k]]@.contains(faces@[k]),
            decreases faces.len() - i,
        {
            let face_id = faces[i];
            let mut found = false;
            let mut c: usize = 0;
            let ghost mut which: int = 0;
            while c < components.len()
                invariant
                    c <= components.len(),
                    found ==> 0 <= which < components.len() && components@[which]@.contains(face_id),
                    !found ==> forall|a: int| 0 <= a < c ==> !(#[trigger] components@[a])@.contains(face_id),
                decreases components.len() - c,
            {
                if vec_contains(&components[c], face_id) {
                    found = true;
                    proof { which = c as int; }
                }
                c += 1;
            }
            proof {
                if i + 1 < faces.len() {
                    assert(faces@[i as int].index() < faces@[i + 1].index());
                }
            }
            if !found {
                proof { assert(self.fc_live(face_id)); }
                let component = self.connected_component_with_limit(face_id, cut);
                let ghost c0 = components@;
                let ghost s0 = starts;
                components.push(component);
                proof {
                    starts = starts.push(face_id);
                    owner = owner.push(s0.len() as int);
                    assert forall|a: int| 0 <= a < components.len() implies (#[trigger] components@[a])@.no_duplicates() by {
                        if a < c0.len() { assert(components@[a] == c0[a]); }
                    }
                    assert forall|a: int, g: FaceID| 0 <= a < components.len() implies (#[trigger] components@[a]@.contains(g) <==> self.in_component(starts[a], g, cut@)) by {
                        if a < c0.len() { assert(components@[a] == c0[a] && starts[a] == s0[a]); }
                    }
                    assert forall|a: int| 0 <= a < starts.len() implies self.fc_live(#[trigger] starts[a]) by {
                        if a < s0.len() { assert(starts[a] == s0[a]); }
                    }
                    assert forall|a: int, b: int| 0 <= a < b < starts.len() implies starts[a].index() < starts[b].index() by {
                        assert(starts[a] == s0[a]);
                        if b < s0.len() {
                            assert(starts[b] == s0[b]);
                        }
                    }
                    assert forall|a: int| 0 <= a < starts.len() implies (#[trigger] starts[a]).index() < faces@[i + 1].index() || i + 1 == faces.len() by {
                        if a < s0.len() { assert(starts[a] == s0[a]); }
                    }
                    assert forall|a: int, b: int| 0 <= b < a < starts.len() implies !(#[trigger] components@[b]@.contains(starts[a])) by {
                        assert(components@[b] == c0[b]);
                        if a < s0.len() {
                            assert(starts[a] == s0[a]);
                        }
                    }
                    assert forall|k: int| 0 <= k < i + 1 implies 0 <= #[trigger] owner[k] < starts.len() && starts[owner[k]].index() <= faces@[k].index()
                        && components@[owner[k]]@.contains(faces@[k]) by {
                        if k < i {
                            assert(starts[owner[k]] == s0[owner[k]] && components@[owner[k]] == c0[owner[k]]);
                        }
                    }
                }
            } else {
                proof {
                    owner = owner.push(which);
                    assert forall|k: int| 0 <= k < i + 1 implies 0 <= #[trigger] owner[k] < starts.len() && starts[owner[k]].index() <= faces@[k].index()
                        && components@[owner[k]]@.contains(faces@[k]) by {
                        if k == i {
                            assert(starts[which].index() < faces@[i as int].index());
                        }
                    }
                }
            }
            i += 1;
        }
        proof {
            let comps = views(components@);
            assert forall|g: FaceID| #[trigger] self.fc_live(g) implies exists|j: int| 0 <= j < starts.len() && starts[j].index() <= g.index()
                && comps[j].contains(g) by {
                let k = choose|k: int| 0 <= k < faces.len() && #[trigger] faces@[k].index() == g.index();
                FaceID::lemma_index_injective(faces@[k], g);
                let a = owner[k];
                assert(comps[a] == components@[a]@);
            }
            assert forall|a: int| 0 <= a < comps.len() implies (#[trigger] comps[a]).no_duplicates() by {
                assert(comps[a] == components@[a]@);
            }
            assert forall|a: int, g: FaceID| 0 <= a < comps.len() implies (#[trigger] comps[a].contains(g) <==> self.in_component(starts[a], g, cut@)) by {
                assert(comps[a] == components@[a]@);
            }
            assert forall|a: int, b: int| 0 <= b < a < starts.len() implies !(#[trigger] comps[b].contains(starts[a])) by {
                assert(comps[b] == components@[b]@);
            }
            assert(self.are_components(comps, starts, cut@));
        }
        components
    }

    /// Returns the connected components of the mesh.
    pub fn connected_components(&self) -> (components: Vec<Vec<FaceID>>)
        requires
            self.valid(),
        ensures
            exists|starts: Seq<FaceID>| #[trigger] self.are_components(views(components@), starts,
                self.uncut()),
    {
        let cut = self.no_cut();
        self.connected_components_with_limit(&cut)
    }
}

} // verus!
