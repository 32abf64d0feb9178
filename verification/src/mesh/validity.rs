//! Validity of the connectivity of a mesh.
use vstd::prelude::*;
use crate::ids::{FaceID, HalfEdgeID, VertexID, ID};
use crate::error::Error;
use super::Mesh;
use super::iterators::lists_in_order;

verus! {

impl<T: Copy> Mesh<T> {
    /// The vertex names a half-edge of the mesh that starts in it.
    pub open spec fn vertex_ok(&self, v: VertexID) -> bool {
        match self.vertex_halfedge_of(v) {
            Some(h) => self.he_live(h) && self.vertex_of(self.twin_of(Some(h))) == Some(v),
            None => false,
        }
    }

    /// The half-edge has a twin that points back to it and to the other end of the edge, points to a vertex
    /// of the mesh, and has a face exactly when it has a next half-edge; the next half-edge starts where this one
    /// ends, lies in the same face, and three steps of `next` come back.
    pub open spec fn halfedge_ok(&self, h: HalfEdgeID) -> bool {
        let e = self.he(h)->0;
        &&& e.twin matches Some(t) && self.he_live(t) && self.twin_of(Some(t)) == Some(h)
            && self.vertex_of(Some(t)) != e.vertex
        &&& e.vertex matches Some(v) && self.vx_live(v)
        &&& (e.face is Some) == (e.next is Some)
        &&& (e.face matches Some(f) ==> self.fc_live(f))
        &&& (e.next matches Some(n) ==> {
            &&& self.he_live(n)
            &&& n != h
            &&& self.face_of(Some(n)) == e.face
            &&& self.vertex_of(self.twin_of(Some(n))) == e.vertex
            &&& self.next_of(Some(n)) != Some(h)
            &&& self.next_of(self.next_of(Some(n))) == Some(h)
        })
    }

    /// The face names a half-edge of the mesh that lies in it.
    pub open spec fn face_ok(&self, f: FaceID) -> bool {
        match self.face_halfedge_of(f) {
            Some(h) => self.he_live(h) && self.face_of(Some(h)) == Some(f),
            None => false,
        }
    }

    /// Two half-edges with the same face are one, two or three steps of `next` apart.
    pub open spec fn faces_are_triangles(&self) -> bool {
        forall|h: HalfEdgeID, g: HalfEdgeID| #[trigger] self.same_face_pair_ok(h, g)
    }

    /// If `h` and `g` are half-edges of the mesh with the same face, `g` is `h`, its next or its previous half-edge.
    pub open spec fn same_face_pair_ok(&self, h: HalfEdgeID, g: HalfEdgeID) -> bool {
        self.he_live(h) && self.he_live(g) && self.face_of(Some(h)) is Some && self.face_of(Some(h)) == self.face_of(Some(g))
            ==> g == h || Some(g) == self.next_of(Some(h)) || Some(g) == self.previous_of(Some(h))
    }

    /// The connectivity of the mesh is consistent: every vertex, half-edge and face is as the
    /// three predicates above say, and the half-edges of a face form one triangle.
    #[verifier::opaque]
    pub open spec fn valid(&self) -> bool {
        &&& self.wf()
        &&& self.faces_are_triangles()
        &&& forall|v: VertexID| self.vx_live(v) ==> #[trigger] self.vertex_ok(v)
        &&& forall|h: HalfEdgeID| self.he_live(h) ==> #[trigger] self.halfedge_ok(h)
        &&& forall|f: FaceID| self.fc_live(f) ==> #[trigger] self.face_ok(f)
    }

    /// The checks of [Mesh::is_valid] on a half-edge: it has a twin in the mesh that has it as twin and points
    /// to another vertex; it points to a vertex of the mesh; a face of the mesh comes with a next half-edge; a
    /// next half-edge is in the mesh, comes with a face, and its previous half-edge is this one.
    pub open spec fn halfedge_check(&self, h: HalfEdgeID) -> bool {
        &&& self.twin_of(Some(h)) matches Some(t) && self.he_live(t) && self.twin_of(Some(t)) == Some(h)
            && self.vertex_of(Some(t)) != self.vertex_of(Some(h))
        &&& self.vertex_of(Some(h)) matches Some(v) && self.vx_live(v)
        &&& (self.face_of(Some(h)) matches Some(f) ==> self.fc_live(f) && self.next_of(Some(h)) is Some)
        &&& (self.next_of(Some(h)) matches Some(n) ==> self.he_live(n) && self.face_of(Some(h)) is Some
            && self.previous_of(Some(n)) == Some(h))
    }

    /// How many half-edges of the list point to the vertex.
    pub open spec fn count_pointing(&self, s: Seq<HalfEdgeID>, v: VertexID) -> nat
        decreases s.len(),
    {
        if s.len() == 0 {
            0
        } else {
            self.count_pointing(s.drop_last(), v) + if self.vertex_of(Some(s.last())) == Some(v) { 1nat } else { 0nat }
        }
    }

    /// The checks of [Mesh::is_valid] on a pair of vertices: each is connected to the other exactly when the
    /// other is connected to it, and by at most one half-edge of the one-ring.
    pub open spec fn ring_pair_check(&self, v1: VertexID, v2: VertexID) -> bool {
        &&& self.connects(v1, v2) == self.connects(v2, v1)
        &&& self.count_pointing(self.one_ring(v1), v2) <= 1
    }

    /// The message of the first check of [Mesh::is_valid] that fails.
    pub open spec fn validity_message(&self) -> Seq<char> {
        if !(forall|v: VertexID| #[trigger] self.vx_live(v) ==> self.vertex_ok(v)) {
            "A vertex does not point to a half-edge of the mesh that starts in it"@
        } else if !(forall|h: HalfEdgeID| #[trigger] self.he_live(h) ==> self.halfedge_check(h)) {
            "A half-edge has a missing or inconsistent twin, vertex, face or next half-edge"@
        } else if !(forall|f: FaceID| #[trigger] self.fc_live(f) ==> self.face_ok(f)) {
            "A face does not point to a half-edge of the mesh that lies in it"@
        } else {
            "Two vertices are connected one way but not the other, or by multiple edges"@
        }
    }

    /// Everything that [Mesh::is_valid] checks of the connectivity.
    pub open spec fn passes_checks(&self) -> bool {
        &&& forall|v: VertexID| #[trigger] self.vx_live(v) ==> self.vertex_ok(v)
        &&& forall|h: HalfEdgeID| #[trigger] self.he_live(h) ==> self.halfedge_check(h)
        &&& forall|f: FaceID| #[trigger] self.fc_live(f) ==> self.face_ok(f)
        &&& forall|v1: VertexID, v2: VertexID| self.vx_live(v1) && self.vx_live(v2) ==> #[trigger] self.ring_pair_check(v1, v2)
    }

    fn check_vertices(&self) -> (b: bool)
        requires
            self.wf(),
        ensures
            b == forall|v: VertexID| #[trigger] self.vx_live(v) ==> self.vertex_ok(v),
    {
        proof { self.lemma_wf(); }
        let ids = self.vertex_iter();
        let mut i: usize = 0;
        while i < ids.len()
            invariant
                self.wf(),
                lists_in_order(ids@, self.vertices().dom()),
                i <= ids.len(),
                forall|j: int| 0 <= j < i ==> self.vertex_ok(#[trigger] ids[j]),
            decreases ids.len() - i,
        {
            let v = ids[i];
            proof { self.lemma_wf(); assert(self.vx_live(v)); }
            let walker = self.walker_from_vertex(v);
            proof { walker.lemma_reads(self); }
            match walker.halfedge_id() {
                Some(h) => {
                    if !self.contains_halfedge(h) {
                        return false;
                    }
                    let walker = walker.into_twin();
                    proof { walker.lemma_reads(self); }
                    if walker.vertex_id() != Some(v) {
                        return false;
                    }
                },
                None => {
                    return false;
                },
            }
            i += 1;
        }
        proof {
            assert forall|v: VertexID| #[trigger] self.vx_live(v) implies self.vertex_ok(v) by {
                let j = choose|j: int| 0 <= j < ids.len() && #[trigger] ids[j].index() == v.index();
                VertexID::lemma_index_injective(ids[j], v);
            }
        }
        true
    }

    fn check_halfedges(&self) -> (b: bool)
        requires
            self.wf(),
        ensures
            b == forall|h: HalfEdgeID| #[trigger] self.he_live(h) ==> self.halfedge_check(h),
    {
        proof { self.lemma_wf(); }
        let ids = self.halfedge_iter();
        let mut i: usize = 0;
        while i < ids.len()
            invariant
                self.wf(),
                lists_in_order(ids@, self.halfedges().dom()),
                i <= ids.len(),
                forall|j: int| 0 <= j < i ==> self.halfedge_check(#[trigger] ids[j]),
            decreases ids.len() - i,
        {
            let h = ids[i];
            proof { assert(self.he_live(h)); }
            let walker = self.walker_from_halfedge(h);
            proof { walker.lemma_reads(self); }
            match walker.twin_id() {
                Some(t) => {
                    if !self.contains_halfedge(t) {
                        return false;
                    }
                    let tw = self.walker_from_halfedge(t);
                    proof { tw.lemma_reads(self); }
                    if tw.twin_id() != Some(h) {
                        return false;
                    }
                    if tw.vertex_id() == walker.vertex_id() {
                        return false;
                    }
                },
                None => {
                    return false;
                },
            }
            match walker.vertex_id() {
                Some(v) => {
                    if !self.contains_vertex(v) {
                        return false;
                    }
                },
                None => {
                    return false;
                },
            }
            if let Some(f) = walker.face_id() {
                if !self.contains_face(f) {
                    return false;
                }
                if walker.next_id().is_none() {
                    return false;
                }
            }
            if let Some(n) = walker.next_id() {
                if !self.contains_halfedge(n) {
                    return false;
                }
                if walker.face_id().is_none() {
                    return false;
                }
                let nw = self.walker_from_halfedge(n);
                proof { nw.lemma_reads(self); }
                if nw.previous_id() != Some(h) {
                    return false;
                }
            }
            i += 1;
        }
        proof {
            assert forall|h: HalfEdgeID| #[trigger] self.he_live(h) implies self.halfedge_check(h) by {
                let j = choose|j: int| 0 <= j < ids.len() && #[trigger] ids[j].index() == h.index();
                HalfEdgeID::lemma_index_injective(ids[j], h);
            }
        }
        true
    }

    /// Whether the half-edge is as `halfedge_ok` says.
    fn check_halfedge_ok(&self, h: HalfEdgeID) -> (b: bool)
        requires
            self.wf(),
            self.he_live(h),
        ensures
            b == self.halfedge_ok(h),
    {
        proof { self.lemma_wf(); }
        let e = self.stored_halfedge(h).unwrap();
        let t = match e.twin {
            Some(t) => t,
            None => { return false; },
        };
        if !self.contains_halfedge(t) {
            return false;
        }
        let te = self.stored_halfedge(t).unwrap();
        if te.twin != Some(h) || te.vertex == e.vertex {
            return false;
        }
        match e.vertex {
            Some(v) => {
                if !self.contains_vertex(v) {
                    return false;
                }
            },
            None => { return false; },
        }
        if e.face.is_some() != e.next.is_some() {
            return false;
        }
        if let Some(f) = e.face {
            if !self.contains_face(f) {
                return false;
            }
        }
        if let Some(n) = e.next {
            if !self.contains_halfedge(n) || n == h {
                return false;
            }
            let ne = self.stored_halfedge(n).unwrap();
            if ne.face != e.face || ne.next == Some(h) {
                return false;
            }
            let twin_vertex = match ne.twin {
                Some(nt) => match self.stored_halfedge(nt) {
                    Some(nte) => nte.vertex,
                    None => None,
                },
                None => None,
            };
            if twin_vertex != e.vertex {
                return false;
            }
            let after = match ne.next {
                Some(nn) => match self.stored_halfedge(nn) {
                    Some(nne) => nne.next,
                    None => None,
                },
                None => None,
            };
            if after != Some(h) {
                return false;
            }
        }
        true
    }

    /// Whether every half-edge of the mesh is as `halfedge_ok` says.
    fn check_halfedges_ok(&self) -> (b: bool)
        requires
            self.wf(),
        ensures
            b == forall|h: HalfEdgeID| #[trigger] self.he_live(h) ==> self.halfedge_ok(h),
    {
        proof { self.lemma_wf(); }
        let ids = self.halfedge_iter();
        let mut i: usize = 0;
        while i < ids.len()
            invariant
                self.wf(),
                lists_in_order(ids@, self.halfedges().dom()),
                i <= ids.len(),
                forall|j: int| 0 <= j < i ==> self.halfedge_ok(#[trigger] ids[j]),
            decreases ids.len() - i,
        {
            let h = ids[i];
            proof { assert(self.he_live(h)); }
            if !self.check_halfedge_ok(h) {
                return false;
            }
            i += 1;
        }
        proof {
            assert forall|h: HalfEdgeID| #[trigger] self.he_live(h) implies self.halfedge_ok(h) by {
                let j = choose|j: int| 0 <= j < ids.len() && #[trigger] ids[j].index() == h.index();
                HalfEdgeID::lemma_index_injective(ids[j], h);
            }
        }
        true
    }

    /// The half-edge, if it has a face, is the half-edge of that face or one or two steps of `next` after it.
    pub open spec fn on_face_triangle(&self, g: HalfEdgeID) -> bool {
        self.face_of(Some(g)) matches Some(f) ==> {
            let h0 = self.face_halfedge_of(f);
            Some(g) == h0 || Some(g) == self.next_of(h0) || Some(g) == self.next_of(self.next_of(h0))
        }
    }

    /// Given the checks of every vertex, half-edge and face, whether the half-edges of each face form one triangle.
    fn check_triangles(&self) -> (b: bool)
        requires
            self.wf(),
            forall|h: HalfEdgeID| #[trigger] self.he_live(h) ==> self.halfedge_ok(h),
            forall|f: FaceID| #[trigger] self.fc_live(f) ==> self.face_ok(f),
        ensures
            b == self.faces_are_triangles(),
    {
        proof { self.lemma_wf(); }
        let ids = self.halfedge_iter();
        let mut i: usize = 0;
        while i < ids.len()
            invariant
                self.wf(),
                forall|h: HalfEdgeID| #[trigger] self.he_live(h) ==> self.halfedge_ok(h),
                forall|f: FaceID| #[trigger] self.fc_live(f) ==> self.face_ok(f),
                lists_in_order(ids@, self.halfedges().dom()),
                i <= ids.len(),
                forall|j: int| 0 <= j < i ==> self.on_face_triangle(#[trigger] ids[j]),
            decreases ids.len() - i,
        {
            let g = ids[i];
            proof { assert(self.he_live(g)); assert(self.halfedge_ok(g)); }
            let e = self.stored_halfedge(g).unwrap();
            if let Some(f) = e.face {
                proof { self.lemma_wf(); assert(self.fc_live(f)); assert(self.face_ok(f)); }
                let h0 = self.stored_face_halfedge(f).unwrap();
                proof { assert(self.he_live(h0)); assert(self.halfedge_ok(h0)); }
                let e0 = self.stored_halfedge(h0).unwrap();
                let n0 = e0.next.unwrap();
                proof { assert(self.halfedge_ok(n0)); }
                let en = self.stored_halfedge(n0).unwrap();
                if !(g == h0 || g == n0 || Some(g) == en.next) {
                    proof {
                        assert(!self.same_face_pair_ok(h0, g));
                    }
                    return false;
                }
            }
            i += 1;
        }
        proof {
            assert forall|g: HalfEdgeID| #[trigger] self.he_live(g) implies self.on_face_triangle(g) by {
                let j = choose|j: int| 0 <= j < ids.len() && #[trigger] ids[j].index() == g.index();
                HalfEdgeID::lemma_index_injective(ids[j], g);
            }
            assert forall|h: HalfEdgeID, g: HalfEdgeID| #[trigger] self.same_face_pair_ok(h, g) by {
                if self.he_live(h) && self.he_live(g) && self.face_of(Some(h)) is Some && self.face_of(Some(h)) == self.face_of(Some(g)) {
                    let f = self.face_of(Some(h))->0;
                    assert(self.on_face_triangle(h));
                    assert(self.on_face_triangle(g));
                    assert(self.halfedge_ok(h));
                    assert(self.fc_live(f));
                    assert(self.face_ok(f));
                    let h0 = self.face_halfedge_of(f)->0;
                    assert(self.he_live(h0));
                    assert(self.halfedge_ok(h0));
                    let n0 = self.next_of(Some(h0))->0;
                    assert(self.halfedge_ok(n0));
                    let p0 = self.next_of(Some(n0))->0;
                    assert(self.halfedge_ok(p0));
                }
            }
        }
        true
    }

    /// Whether the mesh is valid: the connectivity of every vertex, half-edge and face is consistent and the
    /// half-edges of each face form one triangle. This decides what the editing functions require of a mesh.
    pub fn has_valid_connectivity(&self) -> (b: bool)
        requires
            self.wf(),
        ensures
            b == self.valid(),
    {
        proof { reveal(Mesh::valid); }
        if !self.check_vertices() || !self.check_halfedges_ok() || !self.check_faces() {
            return false;
        }
        self.check_triangles()
    }

    fn check_faces(&self) -> (b: bool)
        requires
            self.wf(),
        ensures
            b == forall|f: FaceID| #[trigger] self.fc_live(f) ==> self.face_ok(f),
    {
        proof { self.lemma_wf(); }
        let ids = self.face_iter();
        let mut i: usize = 0;
        while i < ids.len()
            invariant
                self.wf(),
                lists_in_order(ids@, self.faces().dom()),
                i <= ids.len(),
                forall|j: int| 0 <= j < i ==> self.face_ok(#[trigger] ids[j]),
            decreases ids.len() - i,
        {
            let f = ids[i];
            proof { self.lemma_wf(); assert(self.fc_live(f)); }
            let walker = self.walker_from_face(f);
            proof { walker.lemma_reads(self); }
            match walker.halfedge_id() {
                Some(h) => {
                    if !self.contains_halfedge(h) {
                        return false;
                    }
                    if walker.face_id() != Some(f) {
                        return false;
                    }
                },
                None => {
                    return false;
                },
            }
            i += 1;
        }
        proof {
            assert forall|f: FaceID| #[trigger] self.fc_live(f) implies self.face_ok(f) by {
                let j = choose|j: int| 0 <= j < ids.len() && #[trigger] ids[j].index() == f.index();
                FaceID::lemma_index_injective(ids[j], f);
            }
        }
        true
    }

    fn check_pair(&self, v1: VertexID, v2: VertexID) -> (b: bool)
        requires
            self.wf(),
            self.vx_live(v1),
            self.vx_live(v2),
            self.vertex_ok(v1),
            self.vertex_ok(v2),
        ensures
            b == self.ring_pair_check(v1, v2),
    {
        proof { self.lemma_wf(); }
        if self.connecting_edge(v1, v2).is_some() != self.connecting_edge(v2, v1).is_some() {
            return false;
        }
        let ring = self.vertex_halfedge_iter(v1);
        let mut found = false;
        let mut i: usize = 0;
        while i < ring.len()
            invariant
                ring@ == self.one_ring(v1),
                i <= ring.len(),
                self.count_pointing(ring@.take(i as int), v2) == if found { 1nat } else { 0nat },
            decreases ring.len() - i,
        {
            let walker = self.walker_from_halfedge(ring[i]);
            proof {
                walker.lemma_reads(self);
                assert(ring@.take(i + 1).drop_last() =~= ring@.take(i as int));
                assert(ring@.take(i + 1).last() == ring[i as int]);
            }
            if walker.vertex_id() == Some(v2) {
                if found {
                    proof {
                        self.lemma_count_prefix(ring@, v2, i as int + 1);
                    }
                    return false;
                }
                found = true;
            }
            i += 1;
        }
        proof {
            assert(ring@.take(ring.len() as int) =~= ring@);
        }
        true
    }

    /// Counting on a longer list counts at least as many.
    proof fn lemma_count_prefix(&self, s: Seq<HalfEdgeID>, v: VertexID, i: int)
        requires
            0 <= i <= s.len(),
        ensures
            self.count_pointing(s.take(i), v) <= self.count_pointing(s, v),
        decreases s.len() - i,
    {
        if i < s.len() {
            self.lemma_count_prefix(s, v, i + 1);
            assert(s.take(i + 1).drop_last() =~= s.take(i));
        } else {
            assert(s.take(i) =~= s);
        }
    }

    fn check_rings(&self) -> (b: bool)
        requires
            self.wf(),
            forall|v: VertexID| #[trigger] self.vx_live(v) ==> self.vertex_ok(v),
        ensures
            b == forall|v1: VertexID, v2: VertexID| self.vx_live(v1) && self.vx_live(v2) ==> #[trigger] self.ring_pair_check(v1, v2),
    {
        proof { self.lemma_wf(); }
        let ids = self.vertex_iter();
        let mut i: usize = 0;
        while i < ids.len()
            invariant
                self.wf(),
                forall|v: VertexID| #[trigger] self.vx_live(v) ==> self.vertex_ok(v),
                lists_in_order(ids@, self.vertices().dom()),
                i <= ids.len(),
                forall|a: int, c: int| 0 <= a < i && 0 <= c < ids.len() ==> #[trigger] self.ring_pair_check(ids[a], ids[c]),
            decreases ids.len() - i,
        {
            let mut k: usize = 0;
            proof { assert(self.vx_live(ids[i as int])); }
            while k < ids.len()
                invariant
                    self.wf(),
                    forall|v: VertexID| #[trigger] self.vx_live(v) ==> self.vertex_ok(v),
                    lists_in_order(ids@, self.vertices().dom()),
                    i < ids.len(),
                    k <= ids.len(),
                    forall|a: int, c: int| 0 <= a < i && 0 <= c < ids.len() ==> #[trigger] self.ring_pair_check(ids[a], ids[c]),
                    forall|c: int| 0 <= c < k ==> #[trigger] self.ring_pair_check(ids[i as int], ids[c]),
                decreases ids.len() - k,
            {
                proof {
                    assert(self.vx_live(ids[i as int]));
                    assert(self.vx_live(ids[k as int]));
                }
                if !self.check_pair(ids[i], ids[k]) {
                    return false;
                }
                k += 1;
            }
            i += 1;
        }
        proof {
            assert forall|v1: VertexID, v2: VertexID| self.vx_live(v1) && self.vx_live(v2) implies #[trigger] self.ring_pair_check(v1, v2) by {
                let a = choose|a: int| 0 <= a < ids.len() && #[trigger] ids[a].index() == v1.index();
                let c = choose|c: int| 0 <= c < ids.len() && #[trigger] ids[c].index() == v2.index();
                VertexID::lemma_index_injective(ids[a], v1);
                VertexID::lemma_index_injective(ids[c], v2);
                assert(self.ring_pair_check(ids[a], ids[c]));
            }
        }
        true
    }

    ///
    /// Tests whether the connectivity of the mesh is valid, as [Mesh::passes_checks] says. Only the
    /// connectivity is checked: degenerate triangles, which need the positions, are not looked for.
    /// Intended only to be used in development and unit tests.
    ///
    /// # Errors
    ///
    /// If the mesh is not valid, an [Error::MeshIsInvalid] error with a description of the problem is returned.
    ///
    pub fn is_valid(&self) -> (r: Result<(), Error>)
        requires
            self.wf(),
        ensures
            r is Ok <==> self.passes_checks(),
            r matches Err(e) ==> (e matches Error::MeshIsInvalid(msg) && msg@ == self.validity_message()),
    {
        if !self.check_vertices() {
            return Err(Error::MeshIsInvalid("A vertex does not point to a half-edge of the mesh that starts in it".to_owned()));
        }
        if !self.check_halfedges() {
            return Err(Error::MeshIsInvalid("A half-edge has a missing or inconsistent twin, vertex, face or next half-edge".to_owned()));
        }
        if !self.check_faces() {
            return Err(Error::MeshIsInvalid("A face does not point to a half-edge of the mesh that lies in it".to_owned()));
        }
        if !self.check_rings() {
            return Err(Error::MeshIsInvalid("Two vertices are connected one way but not the other, or by multiple edges".to_owned()));
        }
        Ok(())
    }

    /// A valid mesh passes the checks of [Mesh::is_valid] exactly when every pair of its vertices passes the
    /// pair checks: the checks on its vertices, half-edges and faces always pass.
    pub proof fn lemma_valid_checks(&self)
        requires
            self.valid(),
        ensures
            self.passes_checks() <==> forall|v1: VertexID, v2: VertexID| self.vx_live(v1) && self.vx_live(v2)
                ==> #[trigger] self.ring_pair_check(v1, v2),
    {
        reveal(Mesh::valid);
        self.lemma_wf();
        assert forall|h: HalfEdgeID| #[trigger] self.he_live(h) implies self.halfedge_check(h) by {
            assert(self.halfedge_ok(h));
        }
    }

    /// In a mesh that passes the checks of [Mesh::is_valid], a vertex connects to another exactly when that one
    /// connects back to it, so [Mesh::connecting_edge] finds an edge one way exactly when it finds one the other way.
    pub proof fn lemma_connects_symmetric(&self, v1: VertexID, v2: VertexID)
        requires
            self.passes_checks(),
            self.vx_live(v1),
            self.vx_live(v2),
        ensures
            self.connects(v1, v2) == self.connects(v2, v1),
    {
        assert(self.ring_pair_check(v1, v2));
    }

    /// A valid mesh is consistent.
    pub proof fn lemma_valid_wf(&self)
        requires
            self.valid(),
        ensures
            self.wf(),
    {
        reveal(Mesh::valid);
    }

    /// In a valid mesh, each vertex names a half-edge that starts in it.
    pub proof fn lemma_vertex_ok(&self, v: VertexID)
        requires
            self.valid(),
            self.vx_live(v),
        ensures
            self.vertex_ok(v),
            self.vx(v) is Some,
            self.vertex_halfedge_of(v) is Some,
            self.he_live(self.vertex_halfedge_of(v)->0),
    {
        reveal(Mesh::valid);
        self.lemma_wf();
    }

    /// In a valid mesh, a half-edge with the same face as `h` is `h`, its next or its previous half-edge.
    pub proof fn lemma_face_members(&self, h: HalfEdgeID, g: HalfEdgeID)
        requires
            self.valid(),
            self.he_live(h),
            self.he_live(g),
            self.face_of(Some(h)) is Some,
            self.face_of(Some(h)) == self.face_of(Some(g)),
        ensures
            g == h || Some(g) == self.next_of(Some(h)) || Some(g) == self.previous_of(Some(h)),
    {
        reveal(Mesh::valid);
        assert(self.same_face_pair_ok(h, g));
    }

    /// In a valid mesh, each half-edge is as `halfedge_ok` says.
    pub proof fn lemma_halfedge_ok(&self, h: HalfEdgeID)
        requires
            self.valid(),
            self.he_live(h),
        ensures
            self.halfedge_ok(h),
            self.he(h) is Some,
    {
        reveal(Mesh::valid);
        self.lemma_wf();
    }

    /// In a valid mesh, each face names a half-edge that lies in it.
    pub proof fn lemma_face_ok(&self, f: FaceID)
        requires
            self.valid(),
            self.fc_live(f),
        ensures
            self.face_ok(f),
            self.fc(f) is Some,
    {
        reveal(Mesh::valid);
        self.lemma_wf();
    }

    /// In a valid mesh, a half-edge with a face lies on a triangle of three distinct half-edges of that face,
    /// and its twin lies in another face or in none.
    pub proof fn lemma_triangle(&self, h: HalfEdgeID)
        requires
            self.valid(),
            self.he_live(h),
            self.face_of(Some(h)) is Some,
        ensures
            ({
                let n = self.next_of(Some(h))->0;
                let p = self.next_of(Some(n))->0;
                let t = self.twin_of(Some(h))->0;
                &&& self.next_of(Some(h)) is Some
                &&& self.next_of(Some(n)) is Some
                &&& self.twin_of(Some(h)) is Some
                &&& self.he_live(n) && self.he_live(p) && self.he_live(t)
                &&& self.next_of(Some(p)) == Some(h)
                &&& h != n && n != p && p != h
                &&& self.face_of(Some(n)) == self.face_of(Some(h)) && self.face_of(Some(p)) == self.face_of(Some(h))
                &&& self.fc_live(self.face_of(Some(h))->0)
                &&& t != h && t != n && t != p
                &&& self.face_of(Some(t)) != self.face_of(Some(h))
                &&& self.twin_of(Some(t)) == Some(h)
                &&& self.vertex_of(Some(h)) is Some && self.vertex_of(Some(n)) is Some && self.vertex_of(Some(p)) is Some
                &&& self.vertex_of(Some(t)) is Some
                &&& self.vx_live(self.vertex_of(Some(h))->0) && self.vx_live(self.vertex_of(Some(t))->0)
                &&& self.vx_live(self.vertex_of(Some(n))->0) && self.vx_live(self.vertex_of(Some(p))->0)
                &&& self.vertex_of(self.twin_of(Some(n))) == self.vertex_of(Some(h))
                &&& self.vertex_of(self.twin_of(Some(p))) == self.vertex_of(Some(n))
                &&& self.vertex_of(Some(t)) == self.vertex_of(Some(p))
            }),
    {
        reveal(Mesh::valid);
        self.lemma_wf();
        let n = self.next_of(Some(h))->0;
        let p = self.next_of(Some(n))->0;
        let t = self.twin_of(Some(h))->0;
        assert(self.halfedge_ok(h));
        assert(self.halfedge_ok(n));
        assert(self.halfedge_ok(p));
        assert(self.halfedge_ok(t));
        if self.face_of(Some(t)) == self.face_of(Some(h)) {
            assert(self.same_face_pair_ok(h, t));
            if t == n {
                assert(self.vertex_of(self.twin_of(Some(p))) == self.vertex_of(Some(p)));
            } else if t == p {
                assert(self.vertex_of(self.twin_of(Some(n))) == self.vertex_of(Some(n)));
            }
        }
    }

    /// The walk around a vertex of a valid mesh, from a half-edge of the mesh, only reaches half-edges of the mesh.
    proof fn lemma_around_live(&self, c: HalfEdgeID, fuel: nat)
        requires
            self.valid(),
            self.he_live(c),
        ensures
            self.around_to_boundary(Some(c), fuel) matches Some(r) ==> (r matches Some(x) && self.he_live(x)),
        decreases fuel,
    {
        self.lemma_halfedge_ok(c);
        if self.face_of(Some(c)) is Some && fuel > 0 {
            let n = self.next_of(Some(c))->0;
            self.lemma_halfedge_ok(n);
            self.lemma_around_live(self.twin_of(Some(n))->0, (fuel - 1) as nat);
        }
    }

    /// A step around a vertex of a valid mesh leads to a half-edge of the mesh.
    pub proof fn lemma_ring_step_live(&self, h: HalfEdgeID)
        requires
            self.valid(),
            self.he_live(h),
        ensures
            self.ring_step(h) matches Some(x) ==> self.he_live(x),
    {
        self.lemma_halfedge_ok(h);
        if self.face_of(Some(h)) is Some {
            self.lemma_triangle(h);
            let p = self.previous_of(Some(h))->0;
            self.lemma_halfedge_ok(p);
        } else {
            let t = self.twin_of(Some(h))->0;
            self.lemma_around_live(t, self.walk_bound());
            if let Some(Some(c)) = self.around_to_boundary(Some(t), self.walk_bound()) {
                self.lemma_halfedge_ok(c);
            }
        }
    }

    /// The walk around a vertex of a valid mesh lists half-edges of the mesh.
    pub proof fn lemma_ring_walk_live(&self, start: HalfEdgeID, cur: HalfEdgeID, n: nat)
        requires
            self.valid(),
            self.he_live(cur),
        ensures
            forall|j: int| 0 <= j < self.ring_walk(start, cur, n).len() ==> self.he_live(#[trigger] self.ring_walk(start, cur, n)[j]),
        decreases n,
    {
        if n > 0 {
            self.lemma_ring_step_live(cur);
            if let Some(nx) = self.ring_step(cur) {
                if nx != start && n > 1 {
                    self.lemma_ring_walk_live(start, nx, (n - 1) as nat);
                    let rest = self.ring_walk(start, nx, (n - 1) as nat);
                    assert forall|j: int| 0 <= j < self.ring_walk(start, cur, n).len()
                        implies self.he_live(#[trigger] self.ring_walk(start, cur, n)[j]) by {
                        if j > 0 {
                            assert(self.ring_walk(start, cur, n)[j] == rest[j - 1]);
                        }
                    }
                }
            }
        }
    }

    /// The half-edges around a vertex of a valid mesh are half-edges of the mesh, with twins in the mesh.
    pub proof fn lemma_one_ring_live(&self, v: VertexID)
        requires
            self.valid(),
            self.vx_live(v),
        ensures
            forall|j: int| 0 <= j < self.one_ring(v).len() ==> {
                &&& self.he_live(#[trigger] self.one_ring(v)[j])
                &&& self.twin_of(Some(self.one_ring(v)[j])) is Some
                &&& self.he_live(self.twin_of(Some(self.one_ring(v)[j]))->0)
            },
    {
        self.lemma_vertex_ok(v);
        let start = self.vertex_halfedge_of(v)->0;
        self.lemma_ring_walk_live(start, start, self.walk_bound());
        assert forall|j: int| 0 <= j < self.one_ring(v).len() implies {
            &&& self.he_live(#[trigger] self.one_ring(v)[j])
            &&& self.twin_of(Some(self.one_ring(v)[j])) is Some
            &&& self.he_live(self.twin_of(Some(self.one_ring(v)[j]))->0)
        } by {
            self.lemma_halfedge_ok(self.one_ring(v)[j]);
        }
    }

    /// A consistent mesh with the same vertices, half-edges and faces as a valid mesh is valid.
    pub proof fn lemma_valid_same_maps(a: Mesh<T>, b: Mesh<T>)
        requires
            a.valid(),
            b.wf(),
            b.halfedges() == a.halfedges(),
            b.vertices() == a.vertices(),
            b.faces() == a.faces(),
        ensures
            b.valid(),
    {
        a.lemma_valid_wf();
        a.lemma_wf();
        b.lemma_wf();
        reveal(Mesh::valid);
        assert forall|x: HalfEdgeID| a.he_live(x) implies #[trigger] b.he(x) == a.he(x) by {}
        assert forall|x: HalfEdgeID, y: HalfEdgeID| #[trigger] b.same_face_pair_ok(x, y) by {
            if b.he_live(x) && b.he_live(y) {
                assert(a.same_face_pair_ok(x, y));
                assert(a.halfedge_ok(x));
            }
        }
        assert forall|v: VertexID| b.vx_live(v) implies #[trigger] b.vertex_ok(v) by {
            assert(a.vertex_ok(v));
            assert(a.halfedge_ok(a.vertex_halfedge_of(v)->0));
        }
        assert forall|x: HalfEdgeID| b.he_live(x) implies #[trigger] b.halfedge_ok(x) by {
            assert(a.halfedge_ok(x));
            assert(a.halfedge_ok(a.twin_of(Some(x))->0));
            if let Some(n) = a.next_of(Some(x)) {
                assert(a.halfedge_ok(n));
                assert(a.halfedge_ok(a.twin_of(Some(n))->0));
                assert(a.halfedge_ok(a.next_of(Some(n))->0));
            }
        }
        assert forall|g: FaceID| b.fc_live(g) implies #[trigger] b.face_ok(g) by {
            assert(a.face_ok(g));
        }
    }
}

} // verus!
