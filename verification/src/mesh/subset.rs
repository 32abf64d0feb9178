//! Cloning the part of a mesh made of chosen faces.
use vstd::prelude::*;
use crate::ids::{FaceID, HalfEdgeID, VertexID, ID};
use super::Mesh;
use super::connectivity_info::{Face, HalfEdge, Vertex};
use super::iterators::lists_in_order;
use super::connected_components::{vec_contains, views};

verus! {

/// Whether the face is marked as included: `inc` holds, by face index, whether a face belongs to the subset.
pub open spec fn face_included(inc: Seq<bool>, f: FaceID) -> bool {
    f.index() < inc.len() && inc[f.index() as int]
}

impl<T: Copy> Mesh<T> {
    /// The face of `m` has been dropped from the subset: it is a face of `m` that is not included, with an index
    /// below the bound.
    pub open spec fn subset_dropped(m: Mesh<T>, inc: Seq<bool>, bound: int, c: Option<FaceID>) -> bool {
        c matches Some(f) && m.fc_live(f) && !face_included(inc, f) && f.index() < bound
    }

    /// The half-edge of `m` leaves the subset: of its face and its twin's face, each is absent or dropped, and
    /// one of them is dropped.
    pub open spec fn subset_gone(m: Mesh<T>, inc: Seq<bool>, bound: int, h: HalfEdgeID) -> bool {
        let a = m.face_of(Some(h));
        let b = m.face_of(m.twin_of(Some(h)));
        &&& a is None || Self::subset_dropped(m, inc, bound, a)
        &&& b is None || Self::subset_dropped(m, inc, bound, b)
        &&& Self::subset_dropped(m, inc, bound, a) || Self::subset_dropped(m, inc, bound, b)
    }

    /// The half-edges of `m` once the faces below the bound that are not included are dropped: a half-edge whose
    /// face is dropped loses face and next half-edge, and one that no face holds any more on either side goes.
    pub open spec fn subset_halfedges(m: Mesh<T>, inc: Seq<bool>, bound: int) -> Map<u32, HalfEdge> {
        let he = m.halfedges();
        Map::new(
            |k: u32| he.dom().contains(k) && !Self::subset_gone(m, inc, bound, HalfEdgeID::from_index(k)),
            |k: u32| if Self::subset_dropped(m, inc, bound, he[k].face) {
                HalfEdge { face: None, next: None, ..he[k] }
            } else {
                he[k]
            },
        )
    }

    /// The faces of `m` once the faces below the bound that are not included are dropped.
    pub open spec fn subset_faces(m: Mesh<T>, inc: Seq<bool>, bound: int) -> Map<u32, Face> {
        Map::new(
            |k: u32| m.faces().dom().contains(k) && !Self::subset_dropped(m, inc, bound, Some(FaceID::from_index(k))),
            |k: u32| m.faces()[k],
        )
    }

    /// `self` is `m` with the faces below the bound that are not included dropped, vertices untouched.
    pub open spec fn is_subset_stage_of(&self, m: Mesh<T>, inc: Seq<bool>, bound: int) -> bool {
        &&& self.wf()
        &&& self.halfedges() == Self::subset_halfedges(m, inc, bound)
        &&& self.faces() == Self::subset_faces(m, inc, bound)
        &&& self.vertices() == m.vertices()
    }

    /// What a mesh with the half-edges and faces of a stage of the subset says, half-edge by half-edge and face
    /// by face.
    pub proof fn lemma_subset_parts(s: Mesh<T>, m: Mesh<T>, inc: Seq<bool>, bound: int)
        requires
            m.wf(),
            s.wf(),
            s.halfedges() == Self::subset_halfedges(m, inc, bound),
            s.faces() == Self::subset_faces(m, inc, bound),
        ensures
            forall|x: HalfEdgeID| #[trigger] s.he_live(x) == (m.he_live(x) && !Self::subset_gone(m, inc, bound, x)),
            forall|x: HalfEdgeID| s.he_live(x) ==> #[trigger] s.he(x) == Some(
                if Self::subset_dropped(m, inc, bound, m.face_of(Some(x))) {
                    HalfEdge { face: None, next: None, ..m.he(x)->0 }
                } else {
                    m.he(x)->0
                }),
            forall|g: FaceID| #[trigger] s.fc_live(g) == (m.fc_live(g) && !Self::subset_dropped(m, inc, bound, Some(g))),
            forall|g: FaceID| s.fc_live(g) ==> #[trigger] s.fc(g) == m.fc(g),
    {
        m.lemma_wf();
        s.lemma_wf();
        assert forall|x: HalfEdgeID| #[trigger] s.he_live(x) == (m.he_live(x) && !Self::subset_gone(m, inc, bound, x)) by {
            HalfEdgeID::lemma_from_index(x.index());
            HalfEdgeID::lemma_index_injective(x, HalfEdgeID::from_index(x.index()));
        }
        assert forall|g: FaceID| #[trigger] s.fc_live(g) == (m.fc_live(g) && !Self::subset_dropped(m, inc, bound, Some(g))) by {
            FaceID::lemma_from_index(g.index());
            FaceID::lemma_index_injective(g, FaceID::from_index(g.index()));
        }
    }

    /// What a stage of the subset says, half-edge by half-edge, face by face and vertex by vertex.
    pub proof fn lemma_subset_stage(s: Mesh<T>, m: Mesh<T>, inc: Seq<bool>, bound: int)
        requires
            m.wf(),
            s.is_subset_stage_of(m, inc, bound),
        ensures
            forall|x: HalfEdgeID| #[trigger] s.he_live(x) == (m.he_live(x) && !Self::subset_gone(m, inc, bound, x)),
            forall|x: HalfEdgeID| s.he_live(x) ==> #[trigger] s.he(x) == Some(
                if Self::subset_dropped(m, inc, bound, m.face_of(Some(x))) {
                    HalfEdge { face: None, next: None, ..m.he(x)->0 }
                } else {
                    m.he(x)->0
                }),
            forall|g: FaceID| #[trigger] s.fc_live(g) == (m.fc_live(g) && !Self::subset_dropped(m, inc, bound, Some(g))),
            forall|g: FaceID| s.fc_live(g) ==> #[trigger] s.fc(g) == m.fc(g),
            forall|v: VertexID| #[trigger] s.vx_live(v) == m.vx_live(v),
            forall|v: VertexID| s.vx_live(v) ==> #[trigger] s.vx(v) == m.vx(v),
    {
        Self::lemma_subset_parts(s, m, inc, bound);
        m.lemma_wf();
        s.lemma_wf();
    }

    /// Moving the bound past faces that are all included changes nothing.
    proof fn lemma_subset_bound_past_included(s: Mesh<T>, m: Mesh<T>, inc: Seq<bool>, b1: int, b2: int)
        requires
            m.wf(),
            s.is_subset_stage_of(m, inc, b1),
            b1 <= b2,
            forall|g: FaceID| m.fc_live(g) && b1 <= g.index() < b2 ==> face_included(inc, g),
        ensures
            s.is_subset_stage_of(m, inc, b2),
    {
        assert forall|c: Option<FaceID>| #[trigger] Self::subset_dropped(m, inc, b1, c) == Self::subset_dropped(m, inc, b2, c) by {}
        assert(Self::subset_halfedges(m, inc, b1) =~= Self::subset_halfedges(m, inc, b2));
        assert(Self::subset_faces(m, inc, b1) =~= Self::subset_faces(m, inc, b2));
    }

    /// Drops face `f` from the subset: the face goes, its half-edges lose face and next half-edge, and each edge
    /// of it that no face holds any more goes.
    fn exclude_face(&mut self, f: FaceID, Ghost(m): Ghost<Mesh<T>>, Ghost(inc): Ghost<Seq<bool>>, Ghost(b1): Ghost<int>,
        Ghost(b2): Ghost<int>)
        requires
            m.valid(),
            old(self).is_subset_stage_of(m, inc, b1),
            m.fc_live(f),
            !face_included(inc, f),
            b1 <= f.index() < b2,
            forall|g: FaceID| m.fc_live(g) && b1 <= g.index() < b2 ==> g == f,
        ensures
            final(self).is_subset_stage_of(m, inc, b2),
    {
        let ghost s0 = *self;
        proof {
            m.lemma_valid_wf();
            m.lemma_wf();
            Self::lemma_subset_stage(s0, m, inc, b1);
            m.lemma_face_ok(f);
            let h1 = m.face_halfedge_of(f)->0;
            m.lemma_triangle(h1);
            let h2 = m.next_of(Some(h1))->0;
            let h3 = m.next_of(Some(h2))->0;
            m.lemma_triangle(h2);
            m.lemma_triangle(h3);
            assert(s0.fc_live(f));
            assert(s0.he_live(h1) && s0.he_live(h2) && s0.he_live(h3));
            assert(s0.face_is_triangle(f));
        }
        let ghost h1 = m.face_halfedge_of(f)->0;
        let ghost h2 = m.next_of(Some(h1))->0;
        let ghost h3 = m.next_of(Some(h2))->0;
        let w = self.walker_from_face(f);
        proof { w.lemma_reads(self); }
        let e1 = w.halfedge_id().unwrap();
        let (_, _, e2, _) = self.read_halfedge(e1);
        let e2 = e2.unwrap();
        let (_, _, e3, _) = self.read_halfedge(e2);
        let e3 = e3.unwrap();
        self.detach_face(f);
        proof {
            assert(e1 == h1 && e2 == h2 && e3 == h3);
        }
        let ghost t1 = m.twin_of(Some(h1))->0;
        let ghost t2 = m.twin_of(Some(h2))->0;
        let ghost t3 = m.twin_of(Some(h3))->0;
        let ghost pend = set![h1, h2, h3, t1, t2, t3];
        proof {
            let he = m.halfedges();
            self.lemma_wf();
            m.lemma_halfedge_ok(h1);
            m.lemma_halfedge_ok(h2);
            m.lemma_halfedge_ok(h3);
            assert forall|x: HalfEdgeID| m.he_live(x) && m.face_of(Some(x)) == Some(f) implies (x == h1 || x == h2 || x == h3) by {
                m.lemma_face_members(h1, x);
            }
            assert forall|c: Option<FaceID>| c != Some(f) implies #[trigger] Self::subset_dropped(m, inc, b1, c)
                == Self::subset_dropped(m, inc, b2, c) by {}
            assert(Self::subset_dropped(m, inc, b2, Some(f)) && !Self::subset_dropped(m, inc, b1, Some(f)));
            assert forall|k: u32| #[trigger] self.halfedges().dom().contains(k) == (he.dom().contains(k)
                && (!Self::subset_gone(m, inc, b2, HalfEdgeID::from_index(k)) || pend.contains(HalfEdgeID::from_index(k)))) by {
                let x = HalfEdgeID::from_index(k);
                HalfEdgeID::lemma_from_index(k);
                HalfEdgeID::lemma_index_injective(x, h1);
                HalfEdgeID::lemma_index_injective(x, h2);
                HalfEdgeID::lemma_index_injective(x, h3);
                if he.dom().contains(k) {
                    m.lemma_halfedge_ok(x);
                    let tx = m.twin_of(Some(x))->0;
                    if m.face_of(Some(tx)) == Some(f) {
                        assert(tx == h1 || tx == h2 || tx == h3);
                        m.lemma_halfedge_ok(tx);
                    }
                }
            }
            assert forall|k: u32| #[trigger] self.halfedges().dom().contains(k) implies self.halfedges()[k] == (
                if Self::subset_dropped(m, inc, b2, he[k].face) { HalfEdge { face: None, next: None, ..he[k] } } else { he[k] }) by {
                let x = HalfEdgeID::from_index(k);
                HalfEdgeID::lemma_from_index(k);
                HalfEdgeID::lemma_index_injective(x, h1);
                HalfEdgeID::lemma_index_injective(x, h2);
                HalfEdgeID::lemma_index_injective(x, h3);
                assert(s0.face_halfedge_of(f) == Some(h1));
                assert(s0.next_of(Some(h1)) == Some(h2));
                assert(s0.next_of(Some(h2)) == Some(h3));
                if he.dom().contains(k) {
                    assert(m.he(x) == Some(he[k]));
                    if x != h1 && x != h2 && x != h3 {
                        if m.face_of(Some(x)) == Some(f) {
                            m.lemma_face_members(h1, x);
                        }
                        assert(s0.halfedges()[k] == Self::subset_halfedges(m, inc, b1)[k]);
                    }
                }
            }
            assert(self.halfedges() =~= Map::new(
                |k: u32| he.dom().contains(k) && (!Self::subset_gone(m, inc, b2, HalfEdgeID::from_index(k))
                    || pend.contains(HalfEdgeID::from_index(k))),
                |k: u32| if Self::subset_dropped(m, inc, b2, he[k].face) {
                    HalfEdge { face: None, next: None, ..he[k] }
                } else {
                    he[k]
                },
            ));
            assert forall|k: u32| #[trigger] self.faces().dom().contains(k) == Self::subset_faces(m, inc, b2).dom().contains(k) by {
                FaceID::lemma_from_index(k);
                FaceID::lemma_index_injective(FaceID::from_index(k), f);
            }
            assert(self.faces() =~= Self::subset_faces(m, inc, b2));
            assert(self.is_subset_pending_of(m, inc, b2, pend));
        }
        self.drop_lonely_pair(e1, Ghost(m), Ghost(inc), Ghost(b2), Ghost(f), Ghost(pend));
        self.drop_lonely_pair(e2, Ghost(m), Ghost(inc), Ghost(b2), Ghost(f), Ghost(pend.remove(h1).remove(t1)));
        self.drop_lonely_pair(e3, Ghost(m), Ghost(inc), Ghost(b2), Ghost(f), Ghost(pend.remove(h1).remove(t1).remove(h2).remove(t2)));
        proof {
            assert(pend.remove(h1).remove(t1).remove(h2).remove(t2).remove(h3).remove(t3) =~= Set::empty());
            assert(self.halfedges() =~= Self::subset_halfedges(m, inc, b2));
        }
    }

    /// `self` is the stage at `b2`, but for the half-edges of `pend`, which the stage at `b2` drops and which are
    /// still there.
    pub open spec fn is_subset_pending_of(&self, m: Mesh<T>, inc: Seq<bool>, b2: int, pend: Set<HalfEdgeID>) -> bool {
        let he = m.halfedges();
        &&& self.wf()
        &&& self.halfedges() == Map::new(
            |k: u32| he.dom().contains(k) && (!Self::subset_gone(m, inc, b2, HalfEdgeID::from_index(k))
                || pend.contains(HalfEdgeID::from_index(k))),
            |k: u32| if Self::subset_dropped(m, inc, b2, he[k].face) {
                HalfEdge { face: None, next: None, ..he[k] }
            } else {
                he[k]
            },
        )
        &&& self.faces() == Self::subset_faces(m, inc, b2)
        &&& self.vertices() == m.vertices()
    }

    /// Drops the edge of `e`, a half-edge of the face `f` just dropped, if its twin has no face either.
    fn drop_lonely_pair(&mut self, e: HalfEdgeID, Ghost(m): Ghost<Mesh<T>>, Ghost(inc): Ghost<Seq<bool>>,
        Ghost(b2): Ghost<int>, Ghost(f): Ghost<FaceID>, Ghost(pend): Ghost<Set<HalfEdgeID>>)
        requires
            m.valid(),
            m.he_live(e),
            m.face_of(Some(e)) == Some(f),
            Self::subset_dropped(m, inc, b2, Some(f)),
            pend.contains(e),
            pend.contains(m.twin_of(Some(e))->0),
            forall|x: HalfEdgeID| #[trigger] pend.contains(x) ==> m.he_live(x),
            old(self).is_subset_pending_of(m, inc, b2, pend),
        ensures
            final(self).is_subset_pending_of(m, inc, b2, pend.remove(e).remove(m.twin_of(Some(e))->0)),
    {
        proof {
            m.lemma_valid_wf();
            m.lemma_wf();
            self.lemma_wf();
            m.lemma_halfedge_ok(e);
            m.lemma_triangle(e);
        }
        let ghost t = m.twin_of(Some(e))->0;
        let ghost s0 = *self;
        let ghost pend2 = pend.remove(e).remove(t);
        proof {
            HalfEdgeID::lemma_from_index(e.index());
            HalfEdgeID::lemma_index_injective(e, HalfEdgeID::from_index(e.index()));
            HalfEdgeID::lemma_from_index(t.index());
            HalfEdgeID::lemma_index_injective(t, HalfEdgeID::from_index(t.index()));
            HalfEdgeID::lemma_index_injective(t, e);
            assert(self.he_live(e) && self.he_live(t));
        }
        let (_, tw, _, _) = self.read_halfedge(e);
        let tw = tw.unwrap();
        let (_, _, _, tface) = self.read_halfedge(tw);
        proof { assert(tw == t); }
        if tface.is_none() {
            self.drop_halfedge(tw);
            proof { self.lemma_wf(); }
            self.drop_halfedge(e);
            proof {
                let he = m.halfedges();
                assert(Self::subset_gone(m, inc, b2, e) && Self::subset_gone(m, inc, b2, t));
                assert forall|k: u32| #[trigger] self.halfedges().dom().contains(k) == (he.dom().contains(k)
                    && (!Self::subset_gone(m, inc, b2, HalfEdgeID::from_index(k)) || pend2.contains(HalfEdgeID::from_index(k)))) by {
                    HalfEdgeID::lemma_from_index(k);
                }
            }
        }
        proof {
            let he = m.halfedges();
            assert(self.halfedges() =~= Map::new(
                |k: u32| he.dom().contains(k) && (!Self::subset_gone(m, inc, b2, HalfEdgeID::from_index(k))
                    || pend2.contains(HalfEdgeID::from_index(k))),
                |k: u32| if Self::subset_dropped(m, inc, b2, he[k].face) {
                    HalfEdge { face: None, next: None, ..he[k] }
                } else {
                    he[k]
                },
            ));
        }
    }

    /// The last half-edge of the list that points to `v`.
    pub open spec fn last_pointing(&self, hs: Seq<HalfEdgeID>, v: VertexID) -> Option<HalfEdgeID>
        decreases hs.len(),
    {
        if hs.len() == 0 {
            None
        } else if self.vertex_of(Some(hs.last())) == Some(v) {
            Some(hs.last())
        } else {
            self.last_pointing(hs.drop_last(), v)
        }
    }

    /// The vertices of the mesh, each naming the twin of the last half-edge of the list that points to it, or
    /// nothing where none does.
    pub open spec fn rehomed_vertices(&self, hs: Seq<HalfEdgeID>) -> Map<u32, Vertex<T>> {
        Map::new(
            |k: u32| self.vertices().dom().contains(k),
            |k: u32| Vertex {
                halfedge: match self.last_pointing(hs, VertexID::from_index(k)) {
                    Some(x) => self.twin_of(Some(x)),
                    None => None,
                },
                ..self.vertices()[k]
            },
        )
    }

    /// Every half-edge of the mesh points to a vertex of the mesh.
    pub open spec fn points_to_live(&self) -> bool {
        forall|h: HalfEdgeID| #[trigger] self.he_live(h) ==> (self.vertex_of(Some(h)) matches Some(v) && self.vx_live(v))
    }

    /// Points each vertex at the twin of the last half-edge, in the order of the ids, that points to it, or at
    /// nothing where none does.
    fn rehome_vertices(&mut self)
        requires
            old(self).wf(),
            old(self).points_to_live(),
        ensures
            final(self).wf(),
            final(self).halfedges() == old(self).halfedges(),
            final(self).faces() == old(self).faces(),
            exists|hs: Seq<HalfEdgeID>| #[trigger] lists_in_order(hs, old(self).halfedges().dom())
                && final(self).vertices() == old(self).rehomed_vertices(hs),
    {
        let ghost m = *self;
        proof { self.lemma_wf(); }
        let vs = self.vertex_iter();
        let mut i: usize = 0;
        while i < vs.len()
            invariant
                self.wf(),
                m.wf(),
                lists_in_order(vs@, m.vertices().dom()),
                i <= vs.len(),
                self.halfedges() == m.halfedges(),
                self.faces() == m.faces(),
                self.vertices().dom() == m.vertices().dom(),
                forall|k: u32| #[trigger] self.vertices().dom().contains(k) ==> self.vertices()[k] == (
                    if exists|j: int| 0 <= j < i && vs@[j].index() == k { Vertex { halfedge: None, ..m.vertices()[k] } } else { m.vertices()[k] }),
            decreases vs.len() - i,
        {
            let v = vs[i];
            proof { assert(self.vx_live(v)); }
            self.set_vertex_halfedge(v, None);
            proof {
                assert forall|k: u32| #[trigger] self.vertices().dom().contains(k) implies self.vertices()[k] == (
                    if exists|j: int| 0 <= j < i + 1 && vs@[j].index() == k { Vertex { halfedge: None, ..m.vertices()[k] } } else { m.vertices()[k] }) by {
                    if k == v.index() {
                        assert(vs@[i as int].index() == k);
                    } else if exists|j: int| 0 <= j < i + 1 && vs@[j].index() == k {
                        let j = choose|j: int| 0 <= j < i + 1 && vs@[j].index() == k;
                        assert(j != i);
                    }
                }
                assert(self.vertices().dom() =~= m.vertices().dom());
            }
            i += 1;
        }
        let hs = self.halfedge_iter();
        let mut i: usize = 0;
        while i < hs.len()
            invariant
                self.wf(),
                m.wf(),
                m.points_to_live(),
                lists_in_order(vs@, m.vertices().dom()),
                lists_in_order(hs@, m.halfedges().dom()),
                i <= hs.len(),
                self.halfedges() == m.halfedges(),
                self.faces() == m.faces(),
                self.vertices().dom() == m.vertices().dom(),
                forall|k: u32| #[trigger] self.vertices().dom().contains(k) ==> self.vertices()[k] == (Vertex {
                    halfedge: match m.last_pointing(hs@.take(i as int), VertexID::from_index(k)) {
                        Some(x) => m.twin_of(Some(x)),
                        None => None,
                    },
                    ..m.vertices()[k]
                }),
            decreases hs.len() - i,
        {
            let h = hs[i];
            proof {
                self.lemma_wf();
                m.lemma_wf();
                assert(m.he_live(h));
                assert(self.he(h) == m.he(h));
            }
            let (v, t, _, _) = self.read_halfedge(h);
            let v = v.unwrap();
            self.set_vertex_halfedge(v, t);
            proof {
                assert forall|k: u32| #[trigger] self.vertices().dom().contains(k) implies self.vertices()[k] == (Vertex {
                    halfedge: match m.last_pointing(hs@.take(i + 1), VertexID::from_index(k)) {
                        Some(x) => m.twin_of(Some(x)),
                        None => None,
                    },
                    ..m.vertices()[k]
                }) by {
                    assert(hs@.take(i + 1).drop_last() =~= hs@.take(i as int));
                    assert(hs@.take(i + 1).last() == h);
                    VertexID::lemma_from_index(k);
                    VertexID::lemma_index_injective(VertexID::from_index(k), v);
                }
                assert(self.vertices().dom() =~= m.vertices().dom());
            }
            i += 1;
        }
        proof {
            assert(hs@.take(hs.len() as int) =~= hs@);
            assert(self.vertices() =~= m.rehomed_vertices(hs@));
        }
    }

    /// Removes each vertex that names no half-edge.
    fn remove_unnamed_vertices(&mut self)
        requires
            old(self).wf(),
        ensures
            final(self).wf(),
            final(self).halfedges() == old(self).halfedges(),
            final(self).faces() == old(self).faces(),
            final(self).vertices() == Map::new(
                |k: u32| old(self).vertices().dom().contains(k) && old(self).vertices()[k].halfedge is Some,
                |k: u32| old(self).vertices()[k],
            ),
    {
        let ghost m = *self;
        proof { self.lemma_wf(); }
        let vs = self.vertex_iter();
        let mut i: usize = 0;
        while i < vs.len()
            invariant
                self.wf(),
                m.wf(),
                lists_in_order(vs@, m.vertices().dom()),
                i <= vs.len(),
                self.halfedges() == m.halfedges(),
                self.faces() == m.faces(),
                self.vertices() == Map::new(
                    |k: u32| m.vertices().dom().contains(k)
                        && ((exists|j: int| 0 <= j < i && vs@[j].index() == k) ==> m.vertices()[k].halfedge is Some),
                    |k: u32| m.vertices()[k],
                ),
            decreases vs.len() - i,
        {
            let v = vs[i];
            proof {
                self.lemma_wf();
                m.lemma_wf();
                assert(m.vx_live(v));
                if exists|j: int| 0 <= j < i && vs@[j].index() == v.index() {
                    let j = choose|j: int| 0 <= j < i && vs@[j].index() == v.index();
                    assert(vs@[j].index() < vs@[i as int].index());
                }
                assert(self.vx_live(v));
                assert(self.vertex_halfedge_of(v) == m.vertex_halfedge_of(v));
            }
            self.remove_vertex_if_lonely(v);
            proof {
                assert(self.vertices() =~= Map::new(
                    |k: u32| m.vertices().dom().contains(k)
                        && ((exists|j: int| 0 <= j < i + 1 && vs@[j].index() == k) ==> m.vertices()[k].halfedge is Some),
                    |k: u32| m.vertices()[k],
                ));
            }
            i += 1;
        }
        proof {
            assert(self.vertices() =~= Map::new(
                |k: u32| m.vertices().dom().contains(k) && m.vertices()[k].halfedge is Some,
                |k: u32| m.vertices()[k],
            ));
        }
    }

    /// The last half-edge of a list that points to a vertex is in the list.
    proof fn lemma_last_pointing_in(&self, hs: Seq<HalfEdgeID>, v: VertexID)
        ensures
            self.last_pointing(hs, v) matches Some(x) ==> hs.contains(x),
        decreases hs.len(),
    {
        if hs.len() > 0 && self.vertex_of(Some(hs.last())) != Some(v) {
            self.lemma_last_pointing_in(hs.drop_last(), v);
            if let Some(x) = self.last_pointing(hs.drop_last(), v) {
                let j = choose|j: int| 0 <= j < hs.drop_last().len() && hs.drop_last()[j] == x;
                assert(hs[j] == x);
            }
        } else if hs.len() > 0 {
            assert(hs[hs.len() - 1] == hs.last());
        }
    }

    /// Two meshes whose half-edges of the list point to the same vertices agree on the last one pointing to `v`.
    proof fn lemma_last_pointing_same(a: Mesh<T>, b: Mesh<T>, hs: Seq<HalfEdgeID>, v: VertexID)
        requires
            forall|j: int| 0 <= j < hs.len() ==> a.vertex_of(Some(#[trigger] hs[j])) == b.vertex_of(Some(hs[j])),
        ensures
            a.last_pointing(hs, v) == b.last_pointing(hs, v),
        decreases hs.len(),
    {
        if hs.len() > 0 {
            assert(a.vertex_of(Some(hs[hs.len() - 1])) == b.vertex_of(Some(hs[hs.len() - 1])));
            assert forall|j: int| 0 <= j < hs.drop_last().len() implies a.vertex_of(Some(#[trigger] hs.drop_last()[j]))
                == b.vertex_of(Some(hs.drop_last()[j])) by {
                assert(hs.drop_last()[j] == hs[j]);
            }
            Self::lemma_last_pointing_same(a, b, hs.drop_last(), v);
        }
    }

    /// `self` is the part of `m` made of the faces that `inc` includes: those faces; the half-edges of `m` that
    /// an included face holds on one side or the other, or that no face held on either side, those of a face
    /// that is not included without face and next half-edge; and the vertices that a half-edge of it points
    /// to, each naming the twin of the last such half-edge, in the order of the ids.
    pub open spec fn is_subset_of(&self, m: Mesh<T>, inc: Seq<bool>) -> bool {
        let all = 0x1_0000_0000int;
        &&& self.halfedges() == Self::subset_halfedges(m, inc, all)
        &&& self.faces() == Self::subset_faces(m, inc, all)
        &&& exists|hs: Seq<HalfEdgeID>| #[trigger] lists_in_order(hs, self.halfedges().dom()) && self.vertices() == Map::new(
            |k: u32| m.vertices().dom().contains(k) && self.last_pointing(hs, VertexID::from_index(k)) is Some,
            |k: u32| Vertex { halfedge: self.twin_of(self.last_pointing(hs, VertexID::from_index(k))), ..m.vertices()[k] },
        )
    }

    /// The last half-edge of a list that points to a vertex points to it.
    proof fn lemma_last_pointing_points(&self, hs: Seq<HalfEdgeID>, v: VertexID)
        ensures
            self.last_pointing(hs, v) matches Some(x) ==> self.vertex_of(Some(x)) == Some(v),
        decreases hs.len(),
    {
        if hs.len() > 0 {
            self.lemma_last_pointing_points(hs.drop_last(), v);
        }
    }

    /// A list that holds a half-edge pointing to a vertex has a last one that does.
    proof fn lemma_last_pointing_found(&self, hs: Seq<HalfEdgeID>, v: VertexID, x: HalfEdgeID)
        requires
            hs.contains(x),
            self.vertex_of(Some(x)) == Some(v),
        ensures
            self.last_pointing(hs, v) is Some,
        decreases hs.len(),
    {
        if self.vertex_of(Some(hs.last())) != Some(v) {
            let j = choose|j: int| 0 <= j < hs.len() && hs[j] == x;
            assert(hs.drop_last()[j] == x);
            self.lemma_last_pointing_found(hs.drop_last(), v, x);
        }
    }

    /// The part of a valid mesh made of some of its faces is valid.
    pub proof fn lemma_subset_keeps_valid(m: Mesh<T>, sub: Mesh<T>, inc: Seq<bool>)
        requires
            m.valid(),
            sub.wf(),
            sub.is_subset_of(m, inc),
        ensures
            sub.valid(),
    {
        let all = 0x1_0000_0000int;
        m.lemma_valid_wf();
        m.lemma_wf();
        sub.lemma_wf();
        Self::lemma_subset_parts(sub, m, inc, all);
        let hs = choose|hs: Seq<HalfEdgeID>| #[trigger] lists_in_order(hs, sub.halfedges().dom()) && sub.vertices() == Map::new(
            |k: u32| m.vertices().dom().contains(k) && sub.last_pointing(hs, VertexID::from_index(k)) is Some,
            |k: u32| Vertex { halfedge: sub.twin_of(sub.last_pointing(hs, VertexID::from_index(k))), ..m.vertices()[k] },
        );
        assert forall|v: VertexID| #[trigger] sub.vx_live(v) == (m.vx_live(v) && sub.last_pointing(hs, v) is Some) by {
            VertexID::lemma_from_index(v.index());
            VertexID::lemma_index_injective(v, VertexID::from_index(v.index()));
        }
        assert forall|v: VertexID| sub.vx_live(v) implies #[trigger] sub.vertex_halfedge_of(v) == sub.twin_of(sub.last_pointing(hs, v)) by {
            VertexID::lemma_from_index(v.index());
            VertexID::lemma_index_injective(v, VertexID::from_index(v.index()));
        }
        // A half-edge that stays keeps its twin, which stays too, and points to a vertex that stays.
        assert forall|x: HalfEdgeID| #[trigger] sub.he_live(x) implies {
            &&& sub.twin_of(Some(x)) == m.twin_of(Some(x))
            &&& sub.vertex_of(Some(x)) == m.vertex_of(Some(x))
            &&& sub.he_live(m.twin_of(Some(x))->0)
            &&& sub.vx_live(m.vertex_of(Some(x))->0)
        } by {
            m.lemma_halfedge_ok(x);
            let t = m.twin_of(Some(x))->0;
            m.lemma_halfedge_ok(t);
            let v = m.vertex_of(Some(x))->0;
            let j = choose|j: int| 0 <= j < hs.len() && #[trigger] hs[j].index() == x.index();
            HalfEdgeID::lemma_index_injective(hs[j], x);
            sub.lemma_last_pointing_found(hs, v, x);
        }
        assert forall|x: HalfEdgeID| #[trigger] sub.he_live(x) implies sub.halfedge_ok(x) by {
            m.lemma_halfedge_ok(x);
            let e = m.he(x)->0;
            if !Self::subset_dropped(m, inc, all, e.face) && e.next is Some {
                m.lemma_triangle(x);
                let n = e.next->0;
                let nn = m.next_of(Some(n))->0;
                m.lemma_halfedge_ok(n);
                m.lemma_halfedge_ok(nn);
                assert(sub.he_live(n) && sub.he_live(nn));
                let tn = m.twin_of(Some(n))->0;
                assert(sub.he_live(tn));
            }
        }
        assert forall|v: VertexID| sub.vx_live(v) implies #[trigger] sub.vertex_ok(v) by {
            sub.lemma_last_pointing_in(hs, v);
            sub.lemma_last_pointing_points(hs, v);
            let x = sub.last_pointing(hs, v)->0;
            let j = choose|j: int| 0 <= j < hs.len() && hs[j] == x;
            assert(sub.he_live(hs[j]));
            m.lemma_halfedge_ok(x);
        }
        assert forall|g: FaceID| sub.fc_live(g) implies #[trigger] sub.face_ok(g) by {
            m.lemma_face_ok(g);
            let h = m.face_halfedge_of(g)->0;
            assert(sub.he_live(h));
        }
        assert forall|a: HalfEdgeID, b: HalfEdgeID| #[trigger] sub.same_face_pair_ok(a, b) by {
            if sub.he_live(a) && sub.he_live(b) && sub.face_of(Some(a)) is Some && sub.face_of(Some(a)) == sub.face_of(Some(b)) {
                assert(m.same_face_pair_ok(a, b)) by {
                    reveal(Mesh::valid);
                }
                m.lemma_triangle(a);
                let na = m.next_of(Some(a))->0;
                assert(sub.he_live(na));
            }
        }
        reveal(Mesh::valid);
    }

    /// The bound below which the faces of the list before position `k` lie.
    pub open spec fn face_bound(fs: Seq<FaceID>, k: int) -> int {
        if k < fs.len() { fs[k].index() as int } else { 0x1_0000_0000int }
    }

    /// Clones the part of the mesh made of the faces that `is_included` marks, by face index: the other faces
    /// are removed, with each of their edges that no face holds any more, and then the vertices that no
    /// half-edge points to.
    pub fn clone_subset(&self, is_included: &Vec<bool>) -> (sub: Mesh<T>)
        requires
            self.valid(),
        ensures
            sub.wf(),
            sub.valid(),
            sub.is_subset_of(*self, is_included@),
    {
        let ghost m = *self;
        let ghost inc = is_included@;
        proof {
            self.lemma_valid_wf();
            self.lemma_wf();
        }
        let mut sub = self.duplicate();
        let fs = self.face_iter();
        let n = fs.len();
        proof {
            assert(Self::subset_halfedges(m, inc, 0) =~= m.halfedges());
            assert(Self::subset_faces(m, inc, 0) =~= m.faces());
            assert(sub.is_subset_stage_of(m, inc, 0));
            assert forall|g: FaceID| m.fc_live(g) && 0 <= g.index() < Self::face_bound(fs@, 0) implies face_included(inc, g) by {
                let j = choose|j: int| 0 <= j < fs.len() && #[trigger] fs@[j].index() == g.index();
                if j > 0 {
                    assert(fs@[0].index() < fs@[j].index());
                }
            }
            Self::lemma_subset_bound_past_included(sub, m, inc, 0, Self::face_bound(fs@, 0));
        }
        let mut k: usize = 0;
        while k < n
            invariant
                m.valid(),
                m.wf(),
                inc == is_included@,
                n == fs.len(),
                lists_in_order(fs@, m.faces().dom()),
                k <= n,
                sub.is_subset_stage_of(m, inc, Self::face_bound(fs@, k as int)),
            decreases n - k,
        {
            let f = fs[k];
            let ghost b1 = Self::face_bound(fs@, k as int);
            let ghost b2 = Self::face_bound(fs@, k + 1);
            proof {
                m.lemma_wf();
                assert(m.fc_live(f));
                assert forall|g: FaceID| m.fc_live(g) && b1 <= g.index() < b2 implies g == f by {
                    let j = choose|j: int| 0 <= j < fs.len() && #[trigger] fs@[j].index() == g.index();
                    if j < k {
                        assert(fs@[j].index() < fs@[k as int].index());
                    } else if j > k {
                        assert(fs@[k + 1].index() <= fs@[j].index());
                    }
                    FaceID::lemma_index_injective(g, f);
                }
            }
            let fi = f.get();
            if (fi as usize) < is_included.len() && is_included[fi as usize] {
                proof { Self::lemma_subset_bound_past_included(sub, m, inc, b1, b2); }
            } else {
                sub.exclude_face(f, Ghost(m), Ghost(inc), Ghost(b1), Ghost(b2));
            }
            k += 1;
        }
        let ghost all = 0x1_0000_0000int;
        proof {
            Self::lemma_subset_stage(sub, m, inc, all);
            m.lemma_valid_wf();
            assert forall|h: HalfEdgeID| #[trigger] sub.he_live(h) implies (sub.vertex_of(Some(h)) matches Some(v) && sub.vx_live(v)) by {
                m.lemma_halfedge_ok(h);
            }
        }
        let ghost s1 = sub;
        sub.rehome_vertices();
        let ghost s2 = sub;
        sub.remove_unnamed_vertices();
        proof {
            let hs = choose|hs: Seq<HalfEdgeID>| #[trigger] lists_in_order(hs, s1.halfedges().dom())
                && s2.vertices() == s1.rehomed_vertices(hs);
            s1.lemma_wf();
            s2.lemma_wf();
            sub.lemma_wf();
            assert forall|j: int| 0 <= j < hs.len() implies s1.vertex_of(Some(#[trigger] hs[j])) == sub.vertex_of(Some(hs[j])) by {
                assert(s1.he_live(hs[j]));
            }
            assert forall|x: HalfEdgeID| s1.he_live(x) implies #[trigger] s1.twin_of(Some(x)) == sub.twin_of(Some(x)) by {}
            assert forall|k: u32| m.vertices().dom().contains(k) implies {
                &&& (#[trigger] s2.vertices()[k]).halfedge is Some <==> sub.last_pointing(hs, VertexID::from_index(k)) is Some
                &&& s2.vertices()[k] == Vertex { halfedge: sub.twin_of(sub.last_pointing(hs, VertexID::from_index(k))), ..m.vertices()[k] }
            } by {
                sub.lemma_last_pointing_in(hs, VertexID::from_index(k));
                Self::lemma_last_pointing_same(s1, sub, hs, VertexID::from_index(k));
                if let Some(x) = sub.last_pointing(hs, VertexID::from_index(k)) {
                    let j = choose|j: int| 0 <= j < hs.len() && hs[j] == x;
                    assert(s1.he_live(hs[j]));
                    m.lemma_halfedge_ok(x);
                    assert(s1.twin_of(Some(x)) == sub.twin_of(Some(x)));
                }
            }
            assert(sub.vertices() =~= Map::new(
                |k: u32| m.vertices().dom().contains(k) && sub.last_pointing(hs, VertexID::from_index(k)) is Some,
                |k: u32| Vertex { halfedge: sub.twin_of(sub.last_pointing(hs, VertexID::from_index(k))), ..m.vertices()[k] },
            ));
            assert(lists_in_order(hs, sub.halfedges().dom()));
            Self::lemma_subset_keeps_valid(m, sub, inc);
        }
        sub
    }

    /// The marks, one per face slot below `n`, of the faces of the list.
    pub open spec fn membership(c: Seq<FaceID>, n: nat) -> Seq<bool> {
        Seq::new(n, |j: int| c.contains(FaceID::from_index(j as u32)))
    }

    /// Splits the mesh into the parts bounded by the half-edges that `cut` marks, by half-edge index: one clone of
    /// a subset for each connected component that [Mesh::connected_components_with_limit] finds.
    pub fn split(&self, cut: &Vec<bool>) -> (meshes: Vec<Mesh<T>>)
        requires
            self.valid(),
            cut@.len() == self.he_slot_count(),
        ensures
            exists|comps: Seq<Seq<FaceID>>, starts: Seq<FaceID>| {
                &&& #[trigger] self.are_components(comps, starts, cut@)
                &&& meshes.len() == comps.len()
                &&& forall|i: int| 0 <= i < meshes.len() ==> {
                    &&& (#[trigger] meshes@[i]).wf()
                    &&& meshes@[i].valid()
                    &&& meshes@[i].is_subset_of(*self, Self::membership(comps[i], self.fc_slot_count()))
                }
            },
    {
        proof {
            self.lemma_valid_wf();
            self.lemma_fc_slots_bound();
        }
        let components = self.connected_components_with_limit(cut);
        let ghost comps = views(components@);
        let ghost starts = choose|starts: Seq<FaceID>| #[trigger] self.are_components(comps, starts, cut@);
        let n = self.face_slot_count();
        let mut meshes: Vec<Mesh<T>> = Vec::new();
        let mut i: usize = 0;
        while i < components.len()
            invariant
                self.valid(),
                n == self.fc_slot_count(),
                n <= u32::MAX,
                comps == views(components@),
                i <= components.len(),
                meshes.len() == i,
                forall|j: int| 0 <= j < i ==> {
                    &&& (#[trigger] meshes@[j]).wf()
                    &&& meshes@[j].valid()
                    &&& meshes@[j].is_subset_of(*self, Self::membership(comps[j], self.fc_slot_count()))
                },
            decreases components.len() - i,
        {
            let comp = &components[i];
            let mut inc: Vec<bool> = Vec::new();
            let mut j: usize = 0;
            while j < n
                invariant
                    n <= u32::MAX,
                    j <= n,
                    inc@ == Self::membership(comp@, j as nat),
                decreases n - j,
            {
                let f = FaceID::new(j as u32);
                inc.push(vec_contains(comp, f));
                proof {
                    assert(inc@ =~= Self::membership(comp@, (j + 1) as nat));
                }
                j += 1;
            }
            proof {
                assert(comps[i as int] == comp@);
            }
            let sub = self.clone_subset(&inc);
            meshes.push(sub);
            i += 1;
        }
        meshes
    }
}

} // verus!
