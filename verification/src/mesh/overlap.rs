//! Grouping of the edges and faces that lie on top of each other once groups of vertices are merged.
//!
//! Edges (and faces) are visited by increasing index. An edge that is not yet in a group, and whose two
//! vertices both lie in groups of vertices, collects every later edge, not yet in a group, that joins the
//! same two groups of vertices; if it collects any, they form a group together with it, listed last.
use vstd::prelude::*;
use crate::ids::{FaceID, HalfEdgeID, VertexID, ID};
use super::Mesh;
use super::iterators::lists_in_order;

verus! {

/// The groups of vertices, each as a sequence.
pub open spec fn vertex_groups(sets: Seq<Vec<VertexID>>) -> Seq<Seq<VertexID>> {
    sets.map_values(|s: Vec<VertexID>| s@)
}

/// The position of the first group that holds `v`, if any.
pub open spec fn first_group(sets: Seq<Seq<VertexID>>, v: VertexID) -> Option<int>
    decreases sets.len(),
{
    if sets.len() == 0 {
        None
    } else {
        match first_group(sets.drop_last(), v) {
            Some(g) => Some(g),
            None => if sets.last().contains(v) { Some(sets.len() - 1) } else { None },
        }
    }
}

/// Once a group among the first `k` holds `v`, no later group changes the answer.
proof fn lemma_first_group_prefix(sets: Seq<Seq<VertexID>>, v: VertexID, k: int)
    requires
        0 <= k <= sets.len(),
        first_group(sets.take(k), v) is Some,
    ensures
        first_group(sets, v) == first_group(sets.take(k), v),
    decreases sets.len(),
{
    if k == sets.len() {
        assert(sets.take(k) =~= sets);
    } else {
        assert(sets.drop_last().take(k) =~= sets.take(k));
        lemma_first_group_prefix(sets.drop_last(), v, k);
    }
}

/// Whether the list holds the vertex.
fn holds_vertex(list: &Vec<VertexID>, v: VertexID) -> (b: bool)
    ensures
        b == list@.contains(v),
{
    let mut i: usize = 0;
    while i < list.len()
        invariant
            i <= list.len(),
            forall|j: int| 0 <= j < i ==> list@[j] != v,
        decreases list.len() - i,
    {
        if list[i] == v {
            return true;
        }
        i += 1;
    }
    false
}

/// The position of the first group that holds the vertex, if any.
fn find_group(sets: &Vec<Vec<VertexID>>, v: VertexID) -> (g: Option<usize>)
    ensures
        g matches Some(x) ==> first_group(vertex_groups(sets@), v) == Some(x as int) && x < sets.len(),
        g is None ==> first_group(vertex_groups(sets@), v) is None,
{
    let ghost s = vertex_groups(sets@);
    let mut k: usize = 0;
    while k < sets.len()
        invariant
            s == vertex_groups(sets@),
            k <= sets.len(),
            first_group(s.take(k as int), v) is None,
        decreases sets.len() - k,
    {
        if holds_vertex(&sets[k], v) {
            proof {
                assert(s.take(k + 1).drop_last() =~= s.take(k as int));
                assert(first_group(s.take(k + 1), v) == Some(k as int));
                lemma_first_group_prefix(s, v, k + 1);
            }
            return Some(k);
        }
        proof {
            assert(s.take(k + 1).drop_last() =~= s.take(k as int));
        }
        k += 1;
    }
    proof {
        assert(s.take(sets.len() as int) =~= s);
    }
    None
}

/// The marks with every position after `i` that `hit` holds set.
pub open spec fn claimed(marks: Seq<bool>, i: int, hit: spec_fn(int) -> bool) -> Seq<bool> {
    Seq::new(marks.len(), |k: int| marks[k] || (i < k && hit(k)))
}

impl<T: Copy> Mesh<T> {
    /// The list names the edges of the mesh, each by its representative half-edge, by increasing index.
    pub open spec fn is_edge_list(&self, es: Seq<HalfEdgeID>) -> bool {
        &&& forall|a: int| 0 <= a < es.len() ==> self.he_live(#[trigger] es[a]) && self.is_edge_representative(es[a])
        &&& forall|a: int, b: int| 0 <= a < b < es.len() ==> es[a].index() < es[b].index()
        &&& forall|h: HalfEdgeID| self.he_live(h) && self.is_edge_representative(h) ==> #[trigger] es.contains(h)
    }

    /// The edge of `e` joins group `g0` to group `g1`, in either direction.
    pub open spec fn edge_joins(&self, sets: Seq<Seq<VertexID>>, g0: int, g1: int, e: HalfEdgeID) -> bool {
        let a = self.vertex_of(Some(e))->0;
        let b = self.vertex_of(self.twin_of(Some(e)))->0;
        sets[g0].contains(a) && sets[g1].contains(b) || sets[g1].contains(a) && sets[g0].contains(b)
    }

    /// The edges after position `i` and before `j` that are not marked and join the groups `g0` and `g1`.
    pub open spec fn edge_partners(&self, sets: Seq<Seq<VertexID>>, es: Seq<HalfEdgeID>, marks: Seq<bool>, i: int,
        g0: int, g1: int, j: int) -> Seq<HalfEdgeID>
        decreases j - i,
    {
        if j <= i + 1 {
            seq![]
        } else {
            let prev = self.edge_partners(sets, es, marks, i, g0, g1, j - 1);
            if !marks[j - 1] && self.edge_joins(sets, g0, g1, es[j - 1]) { prev.push(es[j - 1]) } else { prev }
        }
    }

    /// The groups of edges formed from position `i` of the edge list on, given which edges already belong to a
    /// group.
    pub open spec fn edge_groups(&self, sets: Seq<Seq<VertexID>>, es: Seq<HalfEdgeID>, marks: Seq<bool>, i: int)
        -> Seq<Seq<HalfEdgeID>>
        decreases es.len() - i,
    {
        if i < 0 || i >= es.len() {
            seq![]
        } else if marks[i] {
            self.edge_groups(sets, es, marks, i + 1)
        } else {
            let e = es[i];
            match (first_group(sets, self.vertex_of(Some(e))->0), first_group(sets, self.vertex_of(self.twin_of(Some(e)))->0)) {
                (Some(g0), Some(g1)) => {
                    let partners = self.edge_partners(sets, es, marks, i, g0, g1, es.len() as int);
                    let rest = self.edge_groups(sets, es, claimed(marks, i, |k: int| self.edge_joins(sets, g0, g1, es[k])), i + 1);
                    if partners.len() == 0 { rest } else { seq![partners.push(e)] + rest }
                },
                _ => self.edge_groups(sets, es, marks, i + 1),
            }
        }
    }

    /// The edges after position `i` that are not marked and join the groups `g0` and `g1`; marks them.
    fn collect_edge_partners(&self, sets: &Vec<Vec<VertexID>>, es: &Vec<HalfEdgeID>, marks: &mut Vec<bool>, i: usize,
        g0: usize, g1: usize) -> (to_merge: Vec<HalfEdgeID>)
        requires
            self.wf(),
            self.twins_live(),
            self.all_point(),
            self.is_edge_list(es@),
            old(marks).len() == es.len(),
            i < es.len(),
            g0 < sets.len(),
            g1 < sets.len(),
        ensures
            to_merge@ == self.edge_partners(vertex_groups(sets@), es@, old(marks)@, i as int, g0 as int, g1 as int, es.len() as int),
            final(marks)@ == claimed(old(marks)@, i as int, |x: int| self.edge_joins(vertex_groups(sets@), g0 as int, g1 as int, es@[x])),
    {
        let ghost sv = vertex_groups(sets@);
        let ghost marks0 = marks@;
        let n = es.len();
        let mut to_merge: Vec<HalfEdgeID> = Vec::new();
        let mut j: usize = i + 1;
        proof {
            assert(sv[g0 as int] == sets@[g0 as int]@);
            assert(sv[g1 as int] == sets@[g1 as int]@);
        }
        while j < n
            invariant
                self.wf(),
                self.twins_live(),
                self.all_point(),
                n == es.len(),
                self.is_edge_list(es@),
                sv == vertex_groups(sets@),
                sv[g0 as int] == sets@[g0 as int]@,
                sv[g1 as int] == sets@[g1 as int]@,
                g0 < sets.len(),
                g1 < sets.len(),
                i < j <= n,
                marks.len() == n,
                marks0.len() == n,
                to_merge@ == self.edge_partners(sv, es@, marks0, i as int, g0 as int, g1 as int, j as int),
                forall|x: int| 0 <= x < n ==> #[trigger] marks@[x] == (marks0[x] || (i < x < j && self.edge_joins(sv, g0 as int, g1 as int, es@[x]))),
            decreases n - j,
        {
            if !marks[j] {
                let f = es[j];
                proof { assert(self.he_live(f)); }
                let (a, b) = self.edge_vertices(f);
                let s0 = &sets[g0];
                let s1 = &sets[g1];
                if holds_vertex(s0, a) && holds_vertex(s1, b) || holds_vertex(s1, a) && holds_vertex(s0, b) {
                    to_merge.push(f);
                    marks.set(j, true);
                }
            }
            j += 1;
        }
        proof {
            assert(marks@ =~= claimed(marks0, i as int, |x: int| self.edge_joins(sv, g0 as int, g1 as int, es@[x])));
        }
        to_merge
    }

    /// Groups the edges whose two vertices lie in the same two groups of vertices, as the module documentation
    /// says: the edges that would lie on top of each other once each group of vertices is merged.
    pub fn find_overlapping_edges(&self, set_of_vertices_to_merge: &Vec<Vec<VertexID>>) -> (r: Vec<Vec<HalfEdgeID>>)
        requires
            self.wf(),
            self.twins_live(),
            self.all_point(),
        ensures
            exists|es: Seq<HalfEdgeID>| #[trigger] self.is_edge_list(es)
                && r@.map_values(|v: Vec<HalfEdgeID>| v@)
                == self.edge_groups(vertex_groups(set_of_vertices_to_merge@), es, Seq::new(es.len(), |k: int| false), 0),
            forall|k: int| 0 <= k < r.len() ==> #[trigger] self.is_overlap_edge_group(vertex_groups(set_of_vertices_to_merge@), r[k]@),
    {
        let ghost sv = vertex_groups(set_of_vertices_to_merge@);
        let es = self.edge_iter();
        let n = es.len();
        proof { assert(self.is_edge_list(es@)); }
        let ghost init = Seq::new(n as nat, |k: int| false);
        let mut marks: Vec<bool> = Vec::new();
        let mut k: usize = 0;
        while k < n
            invariant
                k <= n,
                marks@ =~= Seq::new(k as nat, |x: int| false),
            decreases n - k,
        {
            marks.push(false);
            k += 1;
        }
        let mut result: Vec<Vec<HalfEdgeID>> = Vec::new();
        let mut i: usize = 0;
        while i < n
            invariant
                self.wf(),
                self.twins_live(),
                self.all_point(),
                n == es.len(),
                self.is_edge_list(es@),
                sv == vertex_groups(set_of_vertices_to_merge@),
                marks.len() == n,
                i <= n,
                result@.map_values(|v: Vec<HalfEdgeID>| v@) + self.edge_groups(sv, es@, marks@, i as int)
                    == self.edge_groups(sv, es@, init, 0),
            decreases n - i,
        {
            let ghost before = result@.map_values(|v: Vec<HalfEdgeID>| v@);
            let ghost marks0 = marks@;
            if !marks[i] {
                let e = es[i];
                proof { assert(self.he_live(e)); }
                let (v0, v1) = self.edge_vertices(e);
                let g0 = find_group(set_of_vertices_to_merge, v0);
                let g1 = find_group(set_of_vertices_to_merge, v1);
                if g0.is_some() && g1.is_some() {
                    let g0 = g0.unwrap();
                    let g1 = g1.unwrap();
                    let mut to_merge = self.collect_edge_partners(set_of_vertices_to_merge, &es, &mut marks, i, g0, g1);
                    let ghost partners = to_merge@;
                    proof {
                        assert(self.edge_groups(sv, es@, marks0, i as int) == (if partners.len() == 0 {
                            self.edge_groups(sv, es@, marks@, i + 1)
                        } else {
                            seq![partners.push(e)] + self.edge_groups(sv, es@, marks@, i + 1)
                        }));
                    }
                    if to_merge.len() > 0 {
                        to_merge.push(e);
                        result.push(to_merge);
                        proof {
                            assert(result@.map_values(|v: Vec<HalfEdgeID>| v@) =~= before.push(partners.push(e)));
                            assert(before.push(partners.push(e)) + self.edge_groups(sv, es@, marks@, i + 1)
                                =~= before + (seq![partners.push(e)] + self.edge_groups(sv, es@, marks@, i + 1)));
                        }
                    }
                } else {
                    proof {
                        assert(self.edge_groups(sv, es@, marks0, i as int) == self.edge_groups(sv, es@, marks@, i + 1));
                    }
                }
            } else {
                proof {
                    assert(self.edge_groups(sv, es@, marks0, i as int) == self.edge_groups(sv, es@, marks@, i + 1));
                }
            }
            i += 1;
        }
        proof {
            assert(result@.map_values(|v: Vec<HalfEdgeID>| v@) + self.edge_groups(sv, es@, marks@, n as int)
                =~= result@.map_values(|v: Vec<HalfEdgeID>| v@));
            self.lemma_edge_groups_overlap(sv, es@, init, 0);
            assert forall|k: int| 0 <= k < result.len() implies #[trigger] self.is_overlap_edge_group(sv, result[k]@) by {
                assert(result@.map_values(|v: Vec<HalfEdgeID>| v@)[k] == result[k]@);
            }
        }
        result
    }
    /// Each face of the mesh has three half-edges, each pointing to a vertex.
    pub open spec fn faces_have_corners(&self) -> bool {
        forall|f: FaceID| #[trigger] self.fc_live(f) ==> {
            &&& self.vertex_of(self.face_halfedge_of(f)) is Some
            &&& self.vertex_of(self.next_of(self.face_halfedge_of(f))) is Some
            &&& self.vertex_of(self.next_of(self.next_of(self.face_halfedge_of(f)))) is Some
        }
    }

    /// The three vertices of the face, as [Mesh::face_vertices] lists them.
    pub open spec fn face_corners(&self, f: FaceID) -> (VertexID, VertexID, VertexID) {
        let h = self.face_halfedge_of(f);
        (self.vertex_of(h)->0, self.vertex_of(self.next_of(h))->0, self.vertex_of(self.next_of(self.next_of(h)))->0)
    }

    /// Each of the groups `g0`, `g1` and `g2` holds a vertex of the face.
    pub open spec fn face_joins(&self, sets: Seq<Seq<VertexID>>, g0: int, g1: int, g2: int, f: FaceID) -> bool {
        let (a, b, c) = self.face_corners(f);
        &&& sets[g0].contains(a) || sets[g0].contains(b) || sets[g0].contains(c)
        &&& sets[g1].contains(a) || sets[g1].contains(b) || sets[g1].contains(c)
        &&& sets[g2].contains(a) || sets[g2].contains(b) || sets[g2].contains(c)
    }

    /// The faces after position `i` and before `j` that are not marked and touch the groups `g0`, `g1` and `g2`.
    pub open spec fn face_partners(&self, sets: Seq<Seq<VertexID>>, fs: Seq<FaceID>, marks: Seq<bool>, i: int,
        g0: int, g1: int, g2: int, j: int) -> Seq<FaceID>
        decreases j - i,
    {
        if j <= i + 1 {
            seq![]
        } else {
            let prev = self.face_partners(sets, fs, marks, i, g0, g1, g2, j - 1);
            if !marks[j - 1] && self.face_joins(sets, g0, g1, g2, fs[j - 1]) { prev.push(fs[j - 1]) } else { prev }
        }
    }

    /// The groups of faces formed from position `i` of the face list on, given which faces already belong to a
    /// group.
    pub open spec fn face_groups(&self, sets: Seq<Seq<VertexID>>, fs: Seq<FaceID>, marks: Seq<bool>, i: int)
        -> Seq<Seq<FaceID>>
        decreases fs.len() - i,
    {
        if i < 0 || i >= fs.len() {
            seq![]
        } else if marks[i] {
            self.face_groups(sets, fs, marks, i + 1)
        } else {
            let f = fs[i];
            let (a, b, c) = self.face_corners(f);
            match (first_group(sets, a), first_group(sets, b), first_group(sets, c)) {
                (Some(g0), Some(g1), Some(g2)) => {
                    let partners = self.face_partners(sets, fs, marks, i, g0, g1, g2, fs.len() as int);
                    let rest = self.face_groups(sets, fs, claimed(marks, i, |k: int| self.face_joins(sets, g0, g1, g2, fs[k])), i + 1);
                    if partners.len() == 0 { rest } else { seq![partners.push(f)] + rest }
                },
                _ => self.face_groups(sets, fs, marks, i + 1),
            }
        }
    }

    /// Whether one of the groups `g0`, `g1` and `g2` holds a vertex of the face, for each of them.
    fn face_touches(&self, sets: &Vec<Vec<VertexID>>, g0: usize, g1: usize, g2: usize, f: FaceID) -> (b: bool)
        requires
            self.wf(),
            self.faces_have_corners(),
            self.fc_live(f),
            g0 < sets.len(),
            g1 < sets.len(),
            g2 < sets.len(),
        ensures
            b == self.face_joins(vertex_groups(sets@), g0 as int, g1 as int, g2 as int, f),
    {
        proof {
            assert(vertex_groups(sets@)[g0 as int] == sets@[g0 as int]@);
            assert(vertex_groups(sets@)[g1 as int] == sets@[g1 as int]@);
            assert(vertex_groups(sets@)[g2 as int] == sets@[g2 as int]@);
            self.lemma_wf();
        }
        let (a, b, c) = self.face_vertices(f);
        let s0 = &sets[g0];
        let s1 = &sets[g1];
        let s2 = &sets[g2];
        (holds_vertex(s0, a) || holds_vertex(s0, b) || holds_vertex(s0, c))
            && (holds_vertex(s1, a) || holds_vertex(s1, b) || holds_vertex(s1, c))
            && (holds_vertex(s2, a) || holds_vertex(s2, b) || holds_vertex(s2, c))
    }

    /// The faces after position `i` that are not marked and touch the groups `g0`, `g1` and `g2`; marks them.
    fn collect_face_partners(&self, sets: &Vec<Vec<VertexID>>, fs: &Vec<FaceID>, marks: &mut Vec<bool>, i: usize,
        g0: usize, g1: usize, g2: usize) -> (to_merge: Vec<FaceID>)
        requires
            self.wf(),
            self.faces_have_corners(),
            lists_in_order(fs@, self.faces().dom()),
            old(marks).len() == fs.len(),
            i < fs.len(),
            g0 < sets.len(),
            g1 < sets.len(),
            g2 < sets.len(),
        ensures
            to_merge@ == self.face_partners(vertex_groups(sets@), fs@, old(marks)@, i as int, g0 as int, g1 as int, g2 as int, fs.len() as int),
            final(marks)@ == claimed(old(marks)@, i as int, |x: int| self.face_joins(vertex_groups(sets@), g0 as int, g1 as int, g2 as int, fs@[x])),
    {
        let ghost sv = vertex_groups(sets@);
        let ghost marks0 = marks@;
        let n = fs.len();
        let mut to_merge: Vec<FaceID> = Vec::new();
        let mut j: usize = i + 1;
        while j < n
            invariant
                self.wf(),
                self.faces_have_corners(),
                n == fs.len(),
                lists_in_order(fs@, self.faces().dom()),
                sv == vertex_groups(sets@),
                g0 < sets.len(),
                g1 < sets.len(),
                g2 < sets.len(),
                i < j <= n,
                marks.len() == n,
                marks0.len() == n,
                to_merge@ == self.face_partners(sv, fs@, marks0, i as int, g0 as int, g1 as int, g2 as int, j as int),
                forall|x: int| 0 <= x < n ==> #[trigger] marks@[x] == (marks0[x] || (i < x < j && self.face_joins(sv, g0 as int, g1 as int, g2 as int, fs@[x]))),
            decreases n - j,
        {
            if !marks[j] {
                let f = fs[j];
                proof { assert(self.fc_live(f)); }
                if self.face_touches(sets, g0, g1, g2, f) {
                    to_merge.push(f);
                    marks.set(j, true);
                }
            }
            j += 1;
        }
        proof {
            assert(marks@ =~= claimed(marks0, i as int, |x: int| self.face_joins(sv, g0 as int, g1 as int, g2 as int, fs@[x])));
        }
        to_merge
    }

    /// Groups the faces whose three vertices lie in the same three groups of vertices, as the module
    /// documentation says: the faces that would lie on top of each other once each group of vertices is merged.
    pub fn find_overlapping_faces(&self, set_of_vertices_to_merge: &Vec<Vec<VertexID>>) -> (r: Vec<Vec<FaceID>>)
        requires
            self.wf(),
            self.faces_have_corners(),
        ensures
            exists|fs: Seq<FaceID>| #[trigger] lists_in_order(fs, self.faces().dom())
                && r@.map_values(|v: Vec<FaceID>| v@)
                == self.face_groups(vertex_groups(set_of_vertices_to_merge@), fs, Seq::new(fs.len(), |k: int| false), 0),
            forall|k: int| 0 <= k < r.len() ==> #[trigger] self.is_overlap_group(vertex_groups(set_of_vertices_to_merge@), r[k]@),
    {
        let ghost sv = vertex_groups(set_of_vertices_to_merge@);
        let fs = self.face_iter();
        let n = fs.len();
        let ghost init = Seq::new(n as nat, |k: int| false);
        let mut marks: Vec<bool> = Vec::new();
        let mut k: usize = 0;
        while k < n
            invariant
                k <= n,
                marks@ =~= Seq::new(k as nat, |x: int| false),
            decreases n - k,
        {
            marks.push(false);
            k += 1;
        }
        let mut result: Vec<Vec<FaceID>> = Vec::new();
        let mut i: usize = 0;
        while i < n
            invariant
                self.wf(),
                self.faces_have_corners(),
                n == fs.len(),
                lists_in_order(fs@, self.faces().dom()),
                sv == vertex_groups(set_of_vertices_to_merge@),
                marks.len() == n,
                i <= n,
                result@.map_values(|v: Vec<FaceID>| v@) + self.face_groups(sv, fs@, marks@, i as int)
                    == self.face_groups(sv, fs@, init, 0),
            decreases n - i,
        {
            let ghost before = result@.map_values(|v: Vec<FaceID>| v@);
            let ghost marks0 = marks@;
            if !marks[i] {
                let f = fs[i];
                proof { assert(self.fc_live(f)); self.lemma_wf(); }
                let (a, b, c) = self.face_vertices(f);
                let g0 = find_group(set_of_vertices_to_merge, a);
                let g1 = find_group(set_of_vertices_to_merge, b);
                let g2 = find_group(set_of_vertices_to_merge, c);
                if g0.is_some() && g1.is_some() && g2.is_some() {
                    let g0 = g0.unwrap();
                    let g1 = g1.unwrap();
                    let g2 = g2.unwrap();
                    let mut to_merge = self.collect_face_partners(set_of_vertices_to_merge, &fs, &mut marks, i, g0, g1, g2);
                    let ghost partners = to_merge@;
                    proof {
                        assert(self.face_groups(sv, fs@, marks0, i as int) == (if partners.len() == 0 {
                            self.face_groups(sv, fs@, marks@, i + 1)
                        } else {
                            seq![partners.push(f)] + self.face_groups(sv, fs@, marks@, i + 1)
                        }));
                    }
                    if to_merge.len() > 0 {
                        to_merge.push(f);
                        result.push(to_merge);
                        proof {
                            assert(result@.map_values(|v: Vec<FaceID>| v@) =~= before.push(partners.push(f)));
                            assert(before.push(partners.push(f)) + self.face_groups(sv, fs@, marks@, i + 1)
                                =~= before + (seq![partners.push(f)] + self.face_groups(sv, fs@, marks@, i + 1)));
                        }
                    }
                } else {
                    proof {
                        assert(self.face_groups(sv, fs@, marks0, i as int) == self.face_groups(sv, fs@, marks@, i + 1));
                    }
                }
            } else {
                proof {
                    assert(self.face_groups(sv, fs@, marks0, i as int) == self.face_groups(sv, fs@, marks@, i + 1));
                }
            }
            i += 1;
        }
        proof {
            assert(result@.map_values(|v: Vec<FaceID>| v@) + self.face_groups(sv, fs@, marks@, n as int)
                =~= result@.map_values(|v: Vec<FaceID>| v@));
            self.lemma_face_groups_overlap(sv, fs@, init, 0);
            assert forall|k: int| 0 <= k < result.len() implies #[trigger] self.is_overlap_group(sv, result[k]@) by {
                assert(result@.map_values(|v: Vec<FaceID>| v@)[k] == result[k]@);
            }
        }
        result
    }
}

} // verus!
