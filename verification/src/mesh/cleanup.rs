//! Merging of vertices and edges that lie on top of each other.
use vstd::prelude::*;
use crate::ids::{FaceID, HalfEdgeID, VertexID, ID};
use crate::error::Error;
use super::Mesh;
use super::connectivity_info::{HalfEdge, Vertex};
use super::iterators::lists_in_order;

verus! {

/// The decimal digit of a number below ten.
pub open spec fn decimal_digit(d: u32) -> char {
    if d == 0 { '0' } else if d == 1 { '1' } else if d == 2 { '2' } else if d == 3 { '3' } else if d == 4 { '4' }
    else if d == 5 { '5' } else if d == 6 { '6' } else if d == 7 { '7' } else if d == 8 { '8' } else { '9' }
}

/// The decimal digits of the number, most significant first, without leading zeros: what `u32`'s `Display`
/// writes.
pub open spec fn decimal_text(n: u32) -> Seq<char>
    decreases n,
{
    if n < 10 {
        seq![decimal_digit(n)]
    } else {
        decimal_text(n / 10).push(decimal_digit(n % 10))
    }
}

/// The message of a merge of two edges that would make the mesh non-manifold, naming the two half-edges.
/// Trusted: formats with std's `format!`, whose `{}` writes a `u32` in decimal; the contract says that the two
/// numbers stand, so written, between the fixed words of the message.
#[verifier::external_body]
fn non_manifold_merge_message(a: u32, b: u32) -> (m: String)
    ensures
        m@ == "Merging halfedges "@ + decimal_text(a) + " and "@ + decimal_text(b) + " will create a non-manifold mesh"@,
{
    format!("Merging halfedges {} and {} will create a non-manifold mesh", a, b)
}

impl<T: Copy> Mesh<T> {
    /// Every half-edge of the mesh points to a vertex.
    pub open spec fn all_point(&self) -> bool {
        forall|x: HalfEdgeID| self.he_live(x) ==> (#[trigger] self.vertex_of(Some(x))) is Some
    }

    /// The half-edges of the mesh, where those that pointed to `v2` point to `v1`.
    pub open spec fn vertex_merged(&self, v1: VertexID, v2: VertexID) -> Map<u32, HalfEdge> {
        let he = self.halfedges();
        Map::new(
            |k: u32| he.dom().contains(k),
            |k: u32| if he[k].vertex == Some(v2) { HalfEdge { vertex: Some(v1), ..he[k] } } else { he[k] },
        )
    }

    /// Merges the vertex `vertex_id2` into `vertex_id1`: every half-edge that pointed to `vertex_id2` points to
    /// `vertex_id1`, and `vertex_id2` is removed if it is in the mesh. Returns `vertex_id1`.
    pub fn merge_vertices(&mut self, vertex_id1: VertexID, vertex_id2: VertexID) -> (r: Result<VertexID, Error>)
        requires
            old(self).wf(),
            old(self).all_point(),
        ensures
            r == Ok::<VertexID, Error>(vertex_id1),
            final(self).wf(),
            final(self).halfedges() == old(self).vertex_merged(vertex_id1, vertex_id2),
            final(self).vertices() == old(self).vertices().remove(vertex_id2.index()),
            final(self).faces() == old(self).faces(),
    {
        let ghost m = *self;
        proof { self.lemma_wf(); }
        let ids = self.halfedge_iter();
        let mut i: usize = 0;
        while i < ids.len()
            invariant
                m.wf(),
                m.all_point(),
                self.wf(),
                lists_in_order(ids@, m.halfedges().dom()),
                i <= ids.len(),
                self.halfedges().dom() == m.halfedges().dom(),
                forall|k: u32| #[trigger] self.halfedges().dom().contains(k) ==> self.halfedges()[k] == (
                    if (exists|j: int| 0 <= j < i && ids@[j].index() == k) && m.halfedges()[k].vertex == Some(vertex_id2) {
                        HalfEdge { vertex: Some(vertex_id1), ..m.halfedges()[k] }
                    } else {
                        m.halfedges()[k]
                    }),
                self.vertices() == m.vertices(),
                self.faces() == m.faces(),
            decreases ids.len() - i,
        {
            let h = ids[i];
            proof {
                self.lemma_wf();
                m.lemma_wf();
                assert(m.he_live(h));
                assert(m.vertex_of(Some(h)) is Some);
            }
            let walker = self.walker_from_halfedge(h);
            proof { walker.lemma_reads(self); }
            let ghost before = self.halfedges();
            if walker.vertex_id().unwrap() == vertex_id2 {
                self.set_vertex(h, vertex_id1);
            }
            proof {
                assert forall|k: u32| #[trigger] self.halfedges().dom().contains(k) implies self.halfedges()[k] == (
                    if (exists|j: int| 0 <= j < i + 1 && ids@[j].index() == k) && m.halfedges()[k].vertex == Some(vertex_id2) {
                        HalfEdge { vertex: Some(vertex_id1), ..m.halfedges()[k] }
                    } else {
                        m.halfedges()[k]
                    }) by {
                    if k == h.index() {
                        assert(ids@[i as int].index() == k);
                        if exists|j: int| 0 <= j < i && ids@[j].index() == k {
                            let j = choose|j: int| 0 <= j < i && ids@[j].index() == k;
                            assert(ids@[j].index() < ids@[i as int].index());
                        }
                    } else {
                        if exists|j: int| 0 <= j < i + 1 && ids@[j].index() == k {
                            let j = choose|j: int| 0 <= j < i + 1 && ids@[j].index() == k;
                            assert(j != i);
                        }
                    }
                }
            }
            i += 1;
        }
        proof {
            assert forall|k: u32| #[trigger] self.halfedges().dom().contains(k) implies (exists|j: int| 0 <= j < ids.len() && ids@[j].index() == k) by {
                let j = choose|j: int| 0 <= j < ids.len() && #[trigger] ids@[j].index() == k;
            }
            assert(self.halfedges() =~= m.vertex_merged(vertex_id1, vertex_id2));
            self.lemma_wf();
        }
        if self.contains_vertex(vertex_id2) {
            self.drop_vertex(vertex_id2);
        } else {
            proof { assert(self.vertices().remove(vertex_id2.index()) =~= self.vertices()); }
        }
        Ok(vertex_id1)
    }

    /// Neither half-edge of the edge of `h` has a face.
    pub open spec fn is_alone(&self, h: HalfEdgeID) -> bool {
        self.face_of(Some(h)) is None && self.face_of(self.twin_of(Some(h))) is None
    }

    /// Both half-edges of the edge of `h` have a face.
    pub open spec fn is_interior(&self, h: HalfEdgeID) -> bool {
        self.face_of(Some(h)) is Some && self.face_of(self.twin_of(Some(h))) is Some
    }

    /// The half-edge of the edge of `h` that `merge_halfedges` stands on after telling what kind of edge it is:
    /// `h` itself if only its twin has a face, else the twin.
    pub open spec fn probe(&self, h: HalfEdgeID) -> HalfEdgeID {
        if self.face_of(Some(h)) is None && self.face_of(self.twin_of(Some(h))) is Some { h } else { self.twin_of(Some(h))->0 }
    }

    /// The half-edge of the edge of `h` that has a face: `h` if it has one, else its twin.
    pub open spec fn face_side(&self, h: HalfEdgeID) -> HalfEdgeID {
        if self.face_of(Some(h)) is Some { h } else { self.twin_of(Some(h))->0 }
    }

    /// Merging the edges of `h1` and `h2` would leave an edge with more than two faces.
    pub open spec fn merge_is_non_manifold(&self, h1: HalfEdgeID, h2: HalfEdgeID) -> bool {
        self.is_interior(h1) && !self.is_alone(h2) || self.is_interior(h2) && !self.is_alone(h1)
    }

    /// What `merge_halfedges` of `h1` and `h2` removes, keeps and re-points: the two half-edges that go, the two
    /// that become twins, and the two vertices that then name the second and the first of those.
    /// An edge on the boundary keeps the half-edge that has a face; an edge without faces gives up the half-edge
    /// on the side of an edge with faces, or keeps the half-edge that runs against the other edge.
    pub open spec fn merge_plan(&self, h1: HalfEdgeID, h2: HalfEdgeID)
        -> (Option<HalfEdgeID>, Option<HalfEdgeID>, Option<HalfEdgeID>, Option<HalfEdgeID>, Option<VertexID>, Option<VertexID>) {
        let (a1, i1) = (self.is_alone(h1), self.is_interior(h1));
        let (a2, i2) = (self.is_alone(h2), self.is_interior(h2));
        let (b1, b2) = (!a1 && !i1, !a2 && !i2);
        let (w1, w2) = (self.probe(h1), self.probe(h2));
        let (f1, f2) = (self.face_side(h1), self.face_side(h2));
        let (rem1, sur1, vx1) = if b1 { (self.twin_of(Some(f1)), Some(f1), self.vertex_of(Some(f1))) } else { (None, None, None) };
        let (rem2, sur2, vx2) = if b2 { (self.twin_of(Some(f2)), Some(f2), self.vertex_of(Some(f2))) } else { (None, None, None) };
        let (rem1, rem2, sur1, sur2, vx1, vx2) = if a1 {
            if i2 {
                (self.twin_of(Some(w1)), Some(w1), Some(w2), self.twin_of(Some(w2)), self.vertex_of(Some(w2)), self.vertex_of(self.twin_of(Some(w2))))
            } else {
                let c = if vx2 == self.vertex_of(Some(w1)) { self.twin_of(Some(w1))->0 } else { w1 };
                (self.twin_of(Some(c)), rem2, Some(c), sur2, self.vertex_of(Some(c)), vx2)
            }
        } else {
            (rem1, rem2, sur1, sur2, vx1, vx2)
        };
        if a2 {
            if i1 {
                (self.twin_of(Some(w2)), Some(w2), Some(w1), self.twin_of(Some(w1)), self.vertex_of(Some(w1)), self.vertex_of(self.twin_of(Some(w1))))
            } else {
                let c = if vx1 == self.vertex_of(Some(w2)) { self.twin_of(Some(w2))->0 } else { w2 };
                (rem1, self.twin_of(Some(c)), sur1, Some(c), vx1, self.vertex_of(Some(c)))
            }
        } else {
            (rem1, rem2, sur1, sur2, vx1, vx2)
        }
    }

    /// The two edges can be merged: they are distinct edges of the mesh, with paired twins, pointing to vertices
    /// of the mesh.
    pub open spec fn merge_ready(&self, h1: HalfEdgeID, h2: HalfEdgeID) -> bool {
        &&& self.he_live(h1) && self.he_live(h2)
        &&& self.twin_of(Some(h1)) matches Some(t1) && self.he_live(t1) && self.twin_of(Some(t1)) == Some(h1) && t1 != h1
        &&& self.twin_of(Some(h2)) matches Some(t2) && self.he_live(t2) && self.twin_of(Some(t2)) == Some(h2) && t2 != h2
        &&& h2 != h1 && Some(h2) != self.twin_of(Some(h1))
        &&& self.vertex_of(Some(h1)) matches Some(v) && self.vx_live(v)
        &&& self.vertex_of(Some(h2)) matches Some(v) && self.vx_live(v)
        &&& self.vertex_of(self.twin_of(Some(h1))) matches Some(v) && self.vx_live(v)
        &&& self.vertex_of(self.twin_of(Some(h2))) matches Some(v) && self.vx_live(v)
    }

    /// `self` is `m` after `merge_halfedges` of `h1` and `h2` as [Mesh::merge_plan] says: the two half-edges that
    /// go are removed, one after the other, the two that stay become twins, and the two vertices name them.
    pub open spec fn is_edge_merge_of(&self, m: Mesh<T>, h1: HalfEdgeID, h2: HalfEdgeID) -> bool {
        let (r1, r2, s1, s2, v1, v2) = m.merge_plan(h1, h2);
        exists|m1: Mesh<T>, m2: Mesh<T>| {
            &&& m1.wf() && m2.wf()
            &&& #[trigger] m1.is_halfedge_dropped_of(m, r1->0)
            &&& #[trigger] m2.is_halfedge_dropped_of(m1, r2->0)
            &&& self.halfedges() == m2.halfedges()
                .insert(s1->0.index(), HalfEdge { twin: s2, ..m2.halfedges()[s1->0.index()] })
                .insert(s2->0.index(), HalfEdge { twin: s1, ..m2.halfedges()[s2->0.index()] })
            &&& self.vertices() == m.vertices()
                .insert(v1->0.index(), Vertex { halfedge: s2, ..m.vertices()[v1->0.index()] })
                .insert(v2->0.index(), Vertex { halfedge: s1, ..m.vertices().insert(v1->0.index(), Vertex { halfedge: s2, ..m.vertices()[v1->0.index()] })[v2->0.index()] })
            &&& self.faces() == m.faces()
        }
    }

    /// Merges the edges of the two half-edges into one edge: of the four half-edges, two are removed and the other
    /// two become twins, as [Mesh::merge_plan] says. Returns the first half-edge that stays.
    ///
    /// Returns an error, and changes nothing, if an edge with two faces would be merged with an edge that has a face.
    pub fn merge_halfedges(&mut self, halfedge_id1: HalfEdgeID, halfedge_id2: HalfEdgeID) -> (r: Result<HalfEdgeID, Error>)
        requires
            old(self).wf(),
            old(self).merge_ready(halfedge_id1, halfedge_id2),
        ensures
            r is Err <==> old(self).merge_is_non_manifold(halfedge_id1, halfedge_id2),
            r is Err ==> *final(self) == *old(self),
            r matches Err(e) ==> (e matches Error::ActionWillResultInNonManifoldMesh(msg)
                && msg@ == "Merging halfedges "@ + decimal_text(halfedge_id1.index()) + " and "@
                    + decimal_text(halfedge_id2.index()) + " will create a non-manifold mesh"@),
            r matches Ok(s) ==> {
                &&& Some(s) == old(self).merge_plan(halfedge_id1, halfedge_id2).2
                &&& final(self).wf()
                &&& final(self).is_edge_merge_of(*old(self), halfedge_id1, halfedge_id2)
            },
    {
        let ghost m = *self;
        proof { self.lemma_wf(); }
        let mut walker1 = self.walker_from_halfedge(halfedge_id1);
        let mut walker2 = self.walker_from_halfedge(halfedge_id2);
        proof { walker1.lemma_reads(self); walker2.lemma_reads(self); }

        let edge1_alone = walker1.face_id().is_none() && walker1.as_twin().face_id().is_none();
        let edge1_interior = walker1.face_id().is_some() && walker1.as_twin().face_id().is_some();
        let edge1_boundary = !edge1_alone && !edge1_interior;

        let edge2_alone = walker2.face_id().is_none() && walker2.as_twin().face_id().is_none();
        let edge2_interior = walker2.face_id().is_some() && walker2.as_twin().face_id().is_some();
        let edge2_boundary = !edge2_alone && !edge2_interior;

        proof {
            walker1.lemma_reads(self);
            walker2.lemma_reads(self);
            assert(edge1_alone == m.is_alone(halfedge_id1));
            assert(edge1_interior == m.is_interior(halfedge_id1));
            assert(walker1.current() == Some(m.probe(halfedge_id1)));
            assert(edge2_alone == m.is_alone(halfedge_id2));
            assert(edge2_interior == m.is_interior(halfedge_id2));
            assert(walker2.current() == Some(m.probe(halfedge_id2)));
        }

        if edge1_interior && !edge2_alone || edge2_interior && !edge1_alone {
            return Err(Error::ActionWillResultInNonManifoldMesh(non_manifold_merge_message(halfedge_id1.get(), halfedge_id2.get())));
        }

        let mut halfedge_to_remove1 = None;
        let mut halfedge_to_remove2 = None;
        let mut halfedge_to_survive1 = None;
        let mut halfedge_to_survive2 = None;
        let mut vertex_id1 = None;
        let mut vertex_id2 = None;

        if edge1_boundary {
            if walker1.face_id().is_none() {
                walker1.as_twin();
            };
            halfedge_to_remove1 = walker1.twin_id();
            halfedge_to_survive1 = walker1.halfedge_id();
            vertex_id1 = walker1.vertex_id();
        }
        if edge2_boundary {
            if walker2.face_id().is_none() {
                walker2.as_twin();
            };
            halfedge_to_remove2 = walker2.twin_id();
            halfedge_to_survive2 = walker2.halfedge_id();
            vertex_id2 = walker2.vertex_id();
        }
        if edge1_alone {
            if edge2_interior {
                halfedge_to_remove1 = walker1.twin_id();
                halfedge_to_remove2 = walker1.halfedge_id();

                halfedge_to_survive1 = walker2.halfedge_id();
                vertex_id1 = walker2.vertex_id();
                walker2.as_twin();
                halfedge_to_survive2 = walker2.halfedge_id();
                vertex_id2 = walker2.vertex_id();
            } else {
                if vertex_id2 == walker1.vertex_id() {
                    walker1.as_twin();
                }
                halfedge_to_remove1 = walker1.twin_id();
                halfedge_to_survive1 = walker1.halfedge_id();
                vertex_id1 = walker1.vertex_id();
            }
        }
        if edge2_alone {
            if edge1_interior {
                halfedge_to_remove1 = walker2.twin_id();
                halfedge_to_remove2 = walker2.halfedge_id();

                halfedge_to_survive1 = walker1.halfedge_id();
                vertex_id1 = walker1.vertex_id();
                walker1.as_twin();
                halfedge_to_survive2 = walker1.halfedge_id();
                vertex_id2 = walker1.vertex_id();
            } else {
                if vertex_id1 == walker2.vertex_id() {
                    walker2.as_twin();
                }
                halfedge_to_remove2 = walker2.twin_id();
                halfedge_to_survive2 = walker2.halfedge_id();
                vertex_id2 = walker2.vertex_id();
            }
        }
        proof {
            walker1.lemma_reads(self);
            walker2.lemma_reads(self);
            assert((halfedge_to_remove1, halfedge_to_remove2, halfedge_to_survive1, halfedge_to_survive2, vertex_id1, vertex_id2)
                == m.merge_plan(halfedge_id1, halfedge_id2));
        }
        let remove1 = halfedge_to_remove1.unwrap();
        let remove2 = halfedge_to_remove2.unwrap();
        let survive1 = halfedge_to_survive1.unwrap();
        let survive2 = halfedge_to_survive2.unwrap();
        let v1 = vertex_id1.unwrap();
        let v2 = vertex_id2.unwrap();
        proof {
            assert(m.he_live(remove1) && m.he_live(remove2) && m.he_live(survive1) && m.he_live(survive2));
            assert(remove1 != remove2 && remove1 != survive1 && remove1 != survive2);
            assert(remove2 != survive1 && remove2 != survive2 && survive1 != survive2);
            HalfEdgeID::lemma_index_injective(remove1, remove2);
            HalfEdgeID::lemma_index_injective(remove1, survive1);
            HalfEdgeID::lemma_index_injective(remove1, survive2);
            HalfEdgeID::lemma_index_injective(remove2, survive1);
            HalfEdgeID::lemma_index_injective(remove2, survive2);
        }

        self.drop_halfedge(remove1);
        let ghost m1 = *self;
        proof { self.lemma_wf(); }
        self.drop_halfedge(remove2);
        let ghost m2 = *self;
        proof { self.lemma_wf(); }
        self.set_twins(survive1, survive2);
        self.set_vertex_halfedge(v1, Some(survive2));
        proof { self.lemma_wf(); }
        self.set_vertex_halfedge(v2, Some(survive1));
        proof {
            assert(m1.is_halfedge_dropped_of(m, remove1));
            assert(m2.is_halfedge_dropped_of(m1, remove2));
        }
        Ok(survive1)
    }
}

} // verus!
