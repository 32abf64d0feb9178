//! What a group of overlapping faces or edges is: at least two of them, each touching every one of the groups
//! of vertices that hold the corners or ends of the last of them.
use vstd::prelude::*;
use crate::ids::{FaceID, HalfEdgeID, VertexID};
use super::Mesh;
use super::overlap::{first_group, claimed};

verus! {

/// A group that holds the vertex comes first among those that do.
pub proof fn lemma_first_group_holds(sets: Seq<Seq<VertexID>>, v: VertexID)
    ensures
        first_group(sets, v) matches Some(g) ==> 0 <= g < sets.len() && sets[g].contains(v),
    decreases sets.len(),
{
    if sets.len() > 0 {
        lemma_first_group_holds(sets.drop_last(), v);
    }
}

impl<T: Copy> Mesh<T> {
    /// The group of faces holds at least two faces, and each of them has a corner in each of the groups of vertices
    /// that first hold the three corners of its last face.
    pub open spec fn is_overlap_group(&self, sets: Seq<Seq<VertexID>>, group: Seq<FaceID>) -> bool {
        let (a, b, c) = self.face_corners(group.last());
        &&& group.len() >= 2
        &&& first_group(sets, a) is Some && first_group(sets, b) is Some && first_group(sets, c) is Some
        &&& forall|k: int| 0 <= k < group.len() ==> #[trigger] self.face_joins(sets,
            first_group(sets, a)->0, first_group(sets, b)->0, first_group(sets, c)->0, group[k])
    }

    /// The group of edges holds at least two edges, and each of them joins the groups of vertices that first hold
    /// the two ends of its last edge.
    pub open spec fn is_overlap_edge_group(&self, sets: Seq<Seq<VertexID>>, group: Seq<HalfEdgeID>) -> bool {
        let a = self.vertex_of(Some(group.last()))->0;
        let b = self.vertex_of(self.twin_of(Some(group.last())))->0;
        &&& group.len() >= 2
        &&& first_group(sets, a) is Some && first_group(sets, b) is Some
        &&& forall|k: int| 0 <= k < group.len() ==> #[trigger] self.edge_joins(sets,
            first_group(sets, a)->0, first_group(sets, b)->0, group[k])
    }

    /// Every edge that `edge_partners` collects joins the two groups.
    proof fn lemma_edge_partners_join(&self, sets: Seq<Seq<VertexID>>, es: Seq<HalfEdgeID>, marks: Seq<bool>, i: int,
        g0: int, g1: int, j: int)
        ensures
            forall|k: int| 0 <= k < self.edge_partners(sets, es, marks, i, g0, g1, j).len()
                ==> #[trigger] self.edge_joins(sets, g0, g1, self.edge_partners(sets, es, marks, i, g0, g1, j)[k]),
        decreases j - i,
    {
        if j > i + 1 {
            self.lemma_edge_partners_join(sets, es, marks, i, g0, g1, j - 1);
            let prev = self.edge_partners(sets, es, marks, i, g0, g1, j - 1);
            let cur = self.edge_partners(sets, es, marks, i, g0, g1, j);
            assert forall|k: int| 0 <= k < cur.len() implies #[trigger] self.edge_joins(sets, g0, g1, cur[k]) by {
                if k < prev.len() {
                    assert(cur[k] == prev[k]);
                }
            }
        }
    }

    /// Every group that [Mesh::find_overlapping_edges] forms is a group of overlapping edges as
    /// [Mesh::is_overlap_edge_group] says.
    pub proof fn lemma_edge_groups_overlap(&self, sets: Seq<Seq<VertexID>>, es: Seq<HalfEdgeID>, marks: Seq<bool>, i: int)
        ensures
            forall|k: int| 0 <= k < self.edge_groups(sets, es, marks, i).len()
                ==> #[trigger] self.is_overlap_edge_group(sets, self.edge_groups(sets, es, marks, i)[k]),
        decreases es.len() - i,
    {
        if i < 0 || i >= es.len() {
        } else if marks[i] {
            self.lemma_edge_groups_overlap(sets, es, marks, i + 1);
            assert(self.edge_groups(sets, es, marks, i) == self.edge_groups(sets, es, marks, i + 1));
        } else {
            let e = es[i];
            let a = self.vertex_of(Some(e))->0;
            let b = self.vertex_of(self.twin_of(Some(e)))->0;
            match (first_group(sets, a), first_group(sets, b)) {
                (Some(g0), Some(g1)) => {
                    let partners = self.edge_partners(sets, es, marks, i, g0, g1, es.len() as int);
                    let m2 = claimed(marks, i, |k: int| self.edge_joins(sets, g0, g1, es[k]));
                    self.lemma_edge_groups_overlap(sets, es, m2, i + 1);
                    let rest = self.edge_groups(sets, es, m2, i + 1);
                    if partners.len() > 0 {
                        let group = partners.push(e);
                        self.lemma_edge_partners_join(sets, es, marks, i, g0, g1, es.len() as int);
                        lemma_first_group_holds(sets, a);
                        lemma_first_group_holds(sets, b);
                        assert(group.last() == e);
                        assert forall|k: int| 0 <= k < group.len() implies #[trigger] self.edge_joins(sets, g0, g1, group[k]) by {
                            if k < partners.len() {
                                assert(group[k] == partners[k]);
                            }
                        }
                        assert(self.is_overlap_edge_group(sets, group));
                        let all = seq![group] + rest;
                        assert(self.edge_groups(sets, es, marks, i) == all);
                        assert forall|k: int| 0 <= k < all.len() implies #[trigger] self.is_overlap_edge_group(sets, all[k]) by {
                            if k > 0 {
                                assert(all[k] == rest[k - 1]);
                            }
                        }
                    } else {
                        assert(self.edge_groups(sets, es, marks, i) == rest);
                    }
                },
                _ => {
                    self.lemma_edge_groups_overlap(sets, es, marks, i + 1);
                    assert(self.edge_groups(sets, es, marks, i) == self.edge_groups(sets, es, marks, i + 1));
                },
            }
        }
    }

    /// Every face that `face_partners` collects touches the three groups.
    proof fn lemma_partners_join(&self, sets: Seq<Seq<VertexID>>, fs: Seq<FaceID>, marks: Seq<bool>, i: int,
        g0: int, g1: int, g2: int, j: int)
        ensures
            forall|k: int| 0 <= k < self.face_partners(sets, fs, marks, i, g0, g1, g2, j).len()
                ==> #[trigger] self.face_joins(sets, g0, g1, g2, self.face_partners(sets, fs, marks, i, g0, g1, g2, j)[k]),
        decreases j - i,
    {
        if j > i + 1 {
            self.lemma_partners_join(sets, fs, marks, i, g0, g1, g2, j - 1);
            let prev = self.face_partners(sets, fs, marks, i, g0, g1, g2, j - 1);
            let cur = self.face_partners(sets, fs, marks, i, g0, g1, g2, j);
            assert forall|k: int| 0 <= k < cur.len() implies #[trigger] self.face_joins(sets, g0, g1, g2, cur[k]) by {
                if k < prev.len() {
                    assert(cur[k] == prev[k]);
                }
            }
        }
    }

    /// Every group that [Mesh::find_overlapping_faces] forms is a group of overlapping faces as
    /// [Mesh::is_overlap_group] says.
    pub proof fn lemma_face_groups_overlap(&self, sets: Seq<Seq<VertexID>>, fs: Seq<FaceID>, marks: Seq<bool>, i: int)
        ensures
            forall|k: int| 0 <= k < self.face_groups(sets, fs, marks, i).len()
                ==> #[trigger] self.is_overlap_group(sets, self.face_groups(sets, fs, marks, i)[k]),
        decreases fs.len() - i,
    {
        if i < 0 || i >= fs.len() {
        } else if marks[i] {
            self.lemma_face_groups_overlap(sets, fs, marks, i + 1);
            assert(self.face_groups(sets, fs, marks, i) == self.face_groups(sets, fs, marks, i + 1));
        } else {
            let f = fs[i];
            let (a, b, c) = self.face_corners(f);
            match (first_group(sets, a), first_group(sets, b), first_group(sets, c)) {
                (Some(g0), Some(g1), Some(g2)) => {
                    let partners = self.face_partners(sets, fs, marks, i, g0, g1, g2, fs.len() as int);
                    let m2 = claimed(marks, i, |k: int| self.face_joins(sets, g0, g1, g2, fs[k]));
                    self.lemma_face_groups_overlap(sets, fs, m2, i + 1);
                    let rest = self.face_groups(sets, fs, m2, i + 1);
                    if partners.len() > 0 {
                        let group = partners.push(f);
                        self.lemma_partners_join(sets, fs, marks, i, g0, g1, g2, fs.len() as int);
                        lemma_first_group_holds(sets, a);
                        lemma_first_group_holds(sets, b);
                        lemma_first_group_holds(sets, c);
                        assert(group.last() == f);
                        assert forall|k: int| 0 <= k < group.len() implies #[trigger] self.face_joins(sets, g0, g1, g2, group[k]) by {
                            if k < partners.len() {
                                assert(group[k] == partners[k]);
                            }
                        }
                        assert(self.is_overlap_group(sets, group));
                        let all = seq![group] + rest;
                        assert(self.face_groups(sets, fs, marks, i) == all);
                        assert forall|k: int| 0 <= k < all.len() implies #[trigger] self.is_overlap_group(sets, all[k]) by {
                            if k > 0 {
                                assert(all[k] == rest[k - 1]);
                            }
                        }
                    } else {
                        assert(self.face_groups(sets, fs, marks, i) == rest);
                    }
                },
                _ => {
                    self.lemma_face_groups_overlap(sets, fs, marks, i + 1);
                    assert(self.face_groups(sets, fs, marks, i) == self.face_groups(sets, fs, marks, i + 1));
                },
            }
        }
    }
}

} // verus!
