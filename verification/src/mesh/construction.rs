//! Building a mesh from triangle indices and vertex positions.
use vstd::prelude::*;
use std::collections::HashMap;
use crate::ids::{FaceID, HalfEdgeID, VertexID, ID};
use super::Mesh;
use super::connectivity_info::{ConnectivityInfo, HalfEdge, Vertex};

verus! {

broadcast use vstd::std_specs::hash::group_hash_axioms;

/// The key of the unordered pair of vertices of an edge.
pub open spec fn edge_key(a: VertexID, b: VertexID) -> u64 {
    pair_key(a.index(), b.index())
}

/// The key of the unordered pair of two vertex indices: the smaller one in the high half, the larger one in the
/// low half.
pub open spec fn pair_key(a: u32, b: u32) -> u64 {
    if a < b {
        (a as u64 * 0x1_0000_0000 + b as u64) as u64
    } else {
        (b as u64 * 0x1_0000_0000 + a as u64) as u64
    }
}

/// A number below 2^64 has one high and one low 32-bit half.
proof fn lemma_high_low(x1: u32, y1: u32, x2: u32, y2: u32)
    ensures
        x1 * 0x1_0000_0000int + y1 == x2 * 0x1_0000_0000int + y2 <==> x1 == x2 && y1 == y2,
{
    if x1 < x2 {
        assert(x1 * 0x1_0000_0000int + 0x1_0000_0000int <= x2 * 0x1_0000_0000int) by (nonlinear_arith)
            requires x1 < x2;
    } else if x2 < x1 {
        assert(x2 * 0x1_0000_0000int + 0x1_0000_0000int <= x1 * 0x1_0000_0000int) by (nonlinear_arith)
            requires x2 < x1;
    }
}

/// Two pairs have the same key exactly when they hold the same two indices.
pub proof fn lemma_pair_key(a: u32, b: u32, c: u32, d: u32)
    ensures
        pair_key(a, b) == pair_key(c, d) <==> (a == c && b == d) || (a == d && b == c),
{
    let (x1, y1) = if a < b { (a, b) } else { (b, a) };
    let (x2, y2) = if c < d { (c, d) } else { (d, c) };
    lemma_high_low(x1, y1, x2, y2);
    assert(a as u64 * 0x1_0000_0000 + b as u64 <= u64::MAX) by (nonlinear_arith)
        requires a <= u32::MAX, b <= u32::MAX;
    assert(b as u64 * 0x1_0000_0000 + a as u64 <= u64::MAX) by (nonlinear_arith)
        requires a <= u32::MAX, b <= u32::MAX;
    assert(c as u64 * 0x1_0000_0000 + d as u64 <= u64::MAX) by (nonlinear_arith)
        requires c <= u32::MAX, d <= u32::MAX;
    assert(d as u64 * 0x1_0000_0000 + c as u64 <= u64::MAX) by (nonlinear_arith)
        requires c <= u32::MAX, d <= u32::MAX;
}

/// The vertex that half-edge `h` of the faces built from the indices points to.
pub open spec fn built_head(indices: Seq<u32>, h: int) -> u32 {
    let k = h / 3;
    if h % 3 == 0 {
        indices[3 * k + 1]
    } else if h % 3 == 1 {
        indices[3 * k]
    } else {
        indices[3 * k + 2]
    }
}

/// The vertex that half-edge `h` of the faces built from the indices leaves.
pub open spec fn built_tail(indices: Seq<u32>, h: int) -> u32 {
    let k = h / 3;
    if h % 3 == 0 {
        indices[3 * k]
    } else if h % 3 == 1 {
        indices[3 * k + 2]
    } else {
        indices[3 * k + 1]
    }
}

/// The key of the edge of half-edge `h` of the faces built from the indices.
pub open spec fn built_key(indices: Seq<u32>, h: int) -> u64 {
    pair_key(built_tail(indices, h), built_head(indices, h))
}

/// The vertex is one of the first `n` indices.
pub open spec fn corner_before(indices: Seq<u32>, v: u32, n: int) -> bool {
    exists|i: int| 0 <= i < n && #[trigger] indices[i] == v
}

/// The vertex is a corner of one of the faces that the indices describe.
pub open spec fn is_corner(indices: Seq<u32>, v: u32) -> bool {
    exists|i: int| 0 <= i < (indices.len() / 3) * 3 && #[trigger] indices[i] == v
}

/// The indices below `n` are `n` of them.
pub proof fn lemma_index_set_len(n: nat)
    requires
        n <= 0x1_0000_0000,
    ensures
        Set::new(|i: u32| i < n).finite(),
        Set::new(|i: u32| i < n).len() == n,
    decreases n,
{
    if n == 0 {
        assert(Set::new(|i: u32| i < n) =~= Set::<u32>::empty());
    } else {
        lemma_index_set_len((n - 1) as nat);
        assert(Set::new(|i: u32| i < n) =~= Set::new(|i: u32| i < (n - 1) as nat).insert((n - 1) as u32));
    }
}

/// No two half-edges of the faces that the indices describe run from the same vertex to the same vertex: an
/// edge is used by at most two faces, and by two only in opposite directions.
pub open spec fn edges_run_once(indices: Seq<u32>) -> bool {
    let n = (indices.len() / 3) * 3;
    forall|p: int, q: int| #![trigger built_tail(indices, p), built_tail(indices, q)]
        0 <= p < n && 0 <= q < n && p != q
        ==> !(built_tail(indices, p) == built_tail(indices, q) && built_head(indices, p) == built_head(indices, q))
}

/// The indices describe faces that [Mesh::new] builds into a valid mesh: every vertex is a corner of some face,
/// each half-edge of a face runs between two different vertices, and the edges run once
/// ([edges_run_once]).
pub open spec fn indices_build_valid(indices: Seq<u32>, no_vertices: nat) -> bool {
    let n = (indices.len() / 3) * 3;
    &&& forall|v: u32| v < no_vertices ==> #[trigger] is_corner(indices, v)
    &&& forall|p: int| 0 <= p < n ==> #[trigger] built_tail(indices, p) != built_head(indices, p)
    &&& edges_run_once(indices)
}

/// Another half-edge of the faces lies on the same edge as half-edge `p`.
pub open spec fn has_partner(indices: Seq<u32>, p: int) -> bool {
    exists|q: int| 0 <= q < (indices.len() / 3) * 3 && q != p && #[trigger] built_key(indices, q) == built_key(indices, p)
}

/// How many of the first `n` half-edges of the faces have no partner on their edge.
pub open spec fn built_unpaired_count(indices: Seq<u32>, n: int) -> nat
    decreases n,
{
    if n <= 0 {
        0
    } else {
        built_unpaired_count(indices, n - 1) + if has_partner(indices, n - 1) { 0nat } else { 1nat }
    }
}

/// Where the edges run once, two half-edges of the faces with the same key run in opposite
/// directions.
pub proof fn lemma_built_partner(indices: Seq<u32>, p: int, q: int)
    requires
        edges_run_once(indices),
        0 <= p < (indices.len() / 3) * 3,
        0 <= q < (indices.len() / 3) * 3,
        p != q,
        built_key(indices, p) == built_key(indices, q),
    ensures
        built_tail(indices, q) == built_head(indices, p),
        built_head(indices, q) == built_tail(indices, p),
{
    lemma_pair_key(built_tail(indices, p), built_head(indices, p), built_tail(indices, q), built_head(indices, q));
}

/// Where the edges run once, at most two half-edges of the faces share a key.
pub proof fn lemma_built_key_pairs(indices: Seq<u32>, p: int, q: int, r: int)
    requires
        edges_run_once(indices),
        0 <= p < (indices.len() / 3) * 3,
        0 <= q < (indices.len() / 3) * 3,
        0 <= r < (indices.len() / 3) * 3,
        p != q,
        p != r,
        built_key(indices, p) == built_key(indices, q),
        built_key(indices, p) == built_key(indices, r),
    ensures
        q == r,
{
    lemma_built_partner(indices, p, q);
    lemma_built_partner(indices, p, r);
}

fn sort_key(a: VertexID, b: VertexID) -> (k: u64)
    ensures
        k == edge_key(a, b),
{
    let (x, y) = if a.get() < b.get() { (a.get(), b.get()) } else { (b.get(), a.get()) };
    assert(x as u64 * 0x1_0000_0000 + y as u64 <= u64::MAX) by (nonlinear_arith)
        requires x <= u32::MAX, y <= u32::MAX;
    x as u64 * 0x1_0000_0000 + y as u64
}

impl<T: Copy> Mesh<T> {
    /// Face `k` was built from the indices `3k, 3k+1, 3k+2`: its half-edge is half-edge `3k`, which
    /// points to the second vertex; half-edge `3k+2` points to the third and half-edge `3k+1` to the first,
    /// in that order around the face.
    pub open spec fn face_built(&self, indices: Seq<u32>, k: int) -> bool {
        let h1 = HalfEdgeID::from_index((3 * k) as u32);
        let h3 = HalfEdgeID::from_index((3 * k + 1) as u32);
        let h2 = HalfEdgeID::from_index((3 * k + 2) as u32);
        let f = FaceID::from_index(k as u32);
        &&& self.fc_live(f)
        &&& self.face_halfedge_of(f) == Some(h1)
        &&& self.shape(h1) == Some(HalfEdge { vertex: Some(VertexID::from_index(indices[3 * k + 1])), twin: None, next: Some(h2), face: Some(f) })
        &&& self.shape(h2) == Some(HalfEdge { vertex: Some(VertexID::from_index(indices[3 * k + 2])), twin: None, next: Some(h3), face: Some(f) })
        &&& self.shape(h3) == Some(HalfEdge { vertex: Some(VertexID::from_index(indices[3 * k])), twin: None, next: Some(h1), face: Some(f) })
    }

    /// The mesh is the one that [Mesh::new] builds from the indices and positions: its vertices are those of
    /// the positions, its faces those of the indices, each built as [Mesh::face_built] says; the half-edges
    /// past those of the faces lie on the boundary, and every half-edge has a twin in the mesh.
    pub open spec fn is_built_from(&self, indices: Seq<u32>, positions: Seq<T>) -> bool {
        &&& self.wf()
        &&& self.vertices().dom() == Set::new(|i: u32| i < positions.len() / 3)
        &&& forall|i: u32| i < positions.len() / 3 ==> #[trigger] self.vertices()[i].position
            == [positions[3 * i], positions[3 * i + 1], positions[3 * i + 2]]
        &&& self.faces().dom() == Set::new(|k: u32| k < indices.len() / 3)
        &&& forall|k: int| 0 <= k < indices.len() / 3 ==> #[trigger] self.face_built(indices, k)
        &&& forall|h: HalfEdgeID| #[trigger] self.he_live(h) && h.index() >= (indices.len() / 3) * 3
            ==> self.face_of(Some(h)) is None && self.next_of(Some(h)) is None && self.vertex_of(Some(h)) is Some
        &&& forall|h: HalfEdgeID| #[trigger] self.he_live(h) && h.index() < (indices.len() / 3) * 3 ==> self.face_of(Some(h)) is Some
        &&& self.twins_live()
        &&& self.twins_built(indices)
        &&& self.room().0 == u32::MAX - positions.len() / 3
        &&& self.room().1 == u32::MAX - self.halfedges().dom().len()
        &&& self.room().2 == u32::MAX - indices.len() / 3
    }

    /// The twins that [Mesh::new] gives: a half-edge past those of the faces is the twin of a half-edge of a
    /// face and points to the vertex that one leaves; where the edges run once, two half-edges of the faces on
    /// one edge are each other's twins, one alone on its edge has such a new twin, twins name each other back,
    /// and the half-edges are those of the faces and one more for each half-edge alone on its edge.
    pub open spec fn twins_built(&self, indices: Seq<u32>) -> bool {
        &&& forall|z: HalfEdgeID| #[trigger] self.he_live(z) && z.index() >= (indices.len() / 3) * 3 ==> {
            let h = self.twin_of(Some(z))->0;
            &&& self.twin_of(Some(z)) is Some
            &&& h.index() < (indices.len() / 3) * 3
            &&& self.twin_of(Some(h)) == Some(z)
            &&& self.vertex_of(Some(z)) == Some(VertexID::from_index(built_tail(indices, h.index() as int)))
        }
        &&& edges_run_once(indices) ==> {
            &&& forall|p: HalfEdgeID, q: int| #![trigger self.twin_of(Some(p)), built_key(indices, q)]
                p.index() < (indices.len() / 3) * 3 && 0 <= q < (indices.len() / 3) * 3 && q != p.index()
                && built_key(indices, q) == built_key(indices, p.index() as int)
                ==> self.twin_of(Some(p)) == Some(HalfEdgeID::from_index(q as u32))
            &&& forall|p: HalfEdgeID| #[trigger] self.he_live(p) && p.index() < (indices.len() / 3) * 3
                && !has_partner(indices, p.index() as int)
                ==> self.twin_of(Some(p)) is Some && self.twin_of(Some(p))->0.index() >= (indices.len() / 3) * 3
            &&& forall|h: HalfEdgeID| #[trigger] self.he_live(h) ==> self.twin_of(self.twin_of(Some(h))) == Some(h)
            &&& self.halfedges().dom() == Set::new(|i: u32| i < (indices.len() / 3) * 3
                + built_unpaired_count(indices, ((indices.len() / 3) * 3) as int))
            &&& self.halfedges().dom().len() == (indices.len() / 3) * 3 + built_unpaired_count(indices, ((indices.len() / 3) * 3) as int)
        }
    }

    /// Every half-edge of the mesh names a twin that is a half-edge of the mesh.
    pub open spec fn twins_live(&self) -> bool {
        forall|h: HalfEdgeID| #[trigger] self.he_live(h) ==> (self.twin_of(Some(h)) matches Some(t) && self.he_live(t))
    }

    /// Every twin that a half-edge of the mesh names is a half-edge of the mesh.
    pub open spec fn twin_fields_live(&self) -> bool {
        forall|h: HalfEdgeID| #[trigger] self.he_live(h) ==> (self.twin_of(Some(h)) matches Some(t) ==> self.he_live(t))
    }

    /// The pairing of twins while [Mesh::new] builds the faces: `done` holds the indices of the half-edges of the
    /// faces that were paired so far, and `twins` the first of them met on each edge.
    pub open spec fn twin_marks_ok(&self, indices: Seq<u32>, no_vertices: nat, twins: Map<u64, HalfEdgeID>, done: Set<u32>) -> bool {
        &&& forall|i: u32| #[trigger] done.contains(i) ==> i < (indices.len() / 3) * 3
        &&& forall|key: u64| #[trigger] twins.contains_key(key) ==> done.contains(twins[key].index())
            && built_key(indices, twins[key].index() as int) == key && self.he_live(twins[key])
        &&& forall|h: HalfEdgeID| #[trigger] self.he_live(h) && done.contains(h.index())
            ==> self.paired_so_far(indices, no_vertices, twins, done, h)
        &&& forall|h: HalfEdgeID| #[trigger] self.he_live(h) && !done.contains(h.index()) ==> self.twin_of(Some(h)) is None
    }

    /// A half-edge of a face that was paired: its edge is recorded; a twin it names was paired too and lies on
    /// the same edge; without twin, it is the one recorded for its edge; and where the edges run once, its
    /// twin names it back.
    pub open spec fn paired_so_far(&self, indices: Seq<u32>, no_vertices: nat, twins: Map<u64, HalfEdgeID>, done: Set<u32>,
        h: HalfEdgeID) -> bool {
        let key = built_key(indices, h.index() as int);
        let t = self.twin_of(Some(h));
        &&& twins.contains_key(key)
        &&& t is Some ==> done.contains(t->0.index()) && t->0 != h && self.he_live(t->0)
            && built_key(indices, t->0.index() as int) == key
        &&& t is None ==> twins[key] == h
        &&& edges_run_once(indices) && t is Some ==> self.twin_of(t) == Some(h)
    }

    /// Pairing one more half-edge keeps the pairing as [Mesh::twin_marks_ok] says.
    proof fn lemma_mark_step(indices: Seq<u32>, no_vertices: nat, m0: Mesh<T>, m1: Mesh<T>, t0: Map<u64, HalfEdgeID>,
        t1: Map<u64, HalfEdgeID>, done: Set<u32>, x: HalfEdgeID)
        requires
            m0.twin_marks_ok(indices, no_vertices, t0, done),
            m0.he_live(x),
            !done.contains(x.index()),
            x.index() < (indices.len() / 3) * 3,
            forall|y: HalfEdgeID| #[trigger] m1.he_live(y) == m0.he_live(y),
            t0.contains_key(built_key(indices, x.index() as int)) ==> {
                let t = t0[built_key(indices, x.index() as int)];
                &&& t1 == t0
                &&& m1.twin_of(Some(x)) == Some(t) || x == t
                &&& m1.twin_of(Some(t)) == Some(x)
                &&& forall|y: HalfEdgeID| y != x && y != t ==> #[trigger] m1.he(y) == m0.he(y)
            },
            !t0.contains_key(built_key(indices, x.index() as int)) ==> t1 == t0.insert(built_key(indices, x.index() as int), x)
                && forall|y: HalfEdgeID| #[trigger] m1.he(y) == m0.he(y),
        ensures
            m1.twin_marks_ok(indices, no_vertices, t1, done.insert(x.index())),
    {
        let key = built_key(indices, x.index() as int);
        let done2 = done.insert(x.index());
        assert(m0.twin_of(Some(x)) is None);
        if t0.contains_key(key) {
            let t = t0[key];
            assert(done.contains(t.index()));
            assert(t != x);
            HalfEdgeID::lemma_index_injective(t, x);
            assert forall|h: HalfEdgeID| #[trigger] m1.he_live(h) && done2.contains(h.index())
                implies m1.paired_so_far(indices, no_vertices, t1, done2, h) by {
                HalfEdgeID::lemma_index_injective(h, x);
                HalfEdgeID::lemma_index_injective(h, t);
                if h != x && h != t {
                    assert(m0.paired_so_far(indices, no_vertices, t0, done, h));
                    if let Some(y) = m0.twin_of(Some(h)) {
                        if edges_run_once(indices) {
                            if y == t {
                                lemma_built_key_pairs(indices, t.index() as int, h.index() as int, x.index() as int);
                            }
                            assert(y != x);
                            assert(m1.he(y) == m0.he(y));
                        }
                    }
                } else if h == t {
                    assert(m0.paired_so_far(indices, no_vertices, t0, done, t));
                }
            }
            assert forall|h: HalfEdgeID| #[trigger] m1.he_live(h) && !done2.contains(h.index()) implies m1.twin_of(Some(h)) is None by {
                assert(h != x && h != t);
            }
        } else {
            assert forall|k: u64| #[trigger] t1.contains_key(k) implies done2.contains(t1[k].index())
                && built_key(indices, t1[k].index() as int) == k && m1.he_live(t1[k]) by {
            }
            assert forall|h: HalfEdgeID| #[trigger] m1.he_live(h) && done2.contains(h.index())
                implies m1.paired_so_far(indices, no_vertices, t1, done2, h) by {
                HalfEdgeID::lemma_index_injective(h, x);
                if h != x {
                    assert(m0.paired_so_far(indices, no_vertices, t0, done, h));
                    if let Some(y) = m0.twin_of(Some(h)) {
                        assert(m1.he(y) == m0.he(y));
                    }
                }
            }
        }
    }

    /// Where the edges run once, a half-edge of a face that shares its edge with another is paired with it.
    proof fn lemma_partner_twin(faced: Mesh<T>, indices: Seq<u32>, no_vertices: nat, twins: Map<u64, HalfEdgeID>,
        p: HalfEdgeID, q: int)
        requires
            edges_run_once(indices),
            faced.twin_marks_ok(indices, no_vertices, twins, Set::new(|i: u32| i < 3 * (indices.len() / 3))),
            forall|h: HalfEdgeID| #[trigger] faced.he_live(h) <==> h.index() < 3 * (indices.len() / 3),
            3 * (indices.len() / 3) <= u32::MAX,
            p.index() < 3 * (indices.len() / 3),
            0 <= q < 3 * (indices.len() / 3),
            q != p.index(),
            built_key(indices, q) == built_key(indices, p.index() as int),
        ensures
            faced.twin_of(Some(p)) == Some(HalfEdgeID::from_index(q as u32)),
    {
        let done = Set::new(|i: u32| i < 3 * (indices.len() / 3));
        let qq = HalfEdgeID::from_index(q as u32);
        HalfEdgeID::lemma_from_index(q as u32);
        HalfEdgeID::lemma_index_injective(p, qq);
        assert(faced.he_live(p) && done.contains(p.index()));
        assert(faced.he_live(qq) && done.contains(qq.index()));
        assert(faced.paired_so_far(indices, no_vertices, twins, done, p));
        assert(faced.paired_so_far(indices, no_vertices, twins, done, qq));
        if let Some(y) = faced.twin_of(Some(p)) {
            lemma_built_key_pairs(indices, p.index() as int, q, y.index() as int);
            HalfEdgeID::lemma_index_injective(y, qq);
        } else {
            if let Some(y) = faced.twin_of(Some(qq)) {
                lemma_built_key_pairs(indices, q, p.index() as int, y.index() as int);
                HalfEdgeID::lemma_index_injective(y, p);
            }
        }
    }

    /// Where the edges run once, a half-edge of a face is left without twin by the pairing exactly when no other
    /// half-edge of the faces lies on its edge.
    proof fn lemma_unpaired(faced: Mesh<T>, indices: Seq<u32>, no_vertices: nat, twins: Map<u64, HalfEdgeID>, p: HalfEdgeID)
        requires
            edges_run_once(indices),
            faced.twin_marks_ok(indices, no_vertices, twins, Set::new(|i: u32| i < 3 * (indices.len() / 3))),
            forall|h: HalfEdgeID| #[trigger] faced.he_live(h) <==> h.index() < 3 * (indices.len() / 3),
            3 * (indices.len() / 3) <= u32::MAX,
            p.index() < 3 * (indices.len() / 3),
        ensures
            faced.twin_of(Some(p)) is None <==> !has_partner(indices, p.index() as int),
    {
        let done = Set::new(|i: u32| i < 3 * (indices.len() / 3));
        if has_partner(indices, p.index() as int) {
            let q = choose|q: int| 0 <= q < (indices.len() / 3) * 3 && q != p.index()
                && #[trigger] built_key(indices, q) == built_key(indices, p.index() as int);
            Self::lemma_partner_twin(faced, indices, no_vertices, twins, p, q);
        } else {
            assert(faced.he_live(p) && done.contains(p.index()));
            assert(faced.paired_so_far(indices, no_vertices, twins, done, p));
            if let Some(y) = faced.twin_of(Some(p)) {
                HalfEdgeID::lemma_index_injective(y, p);
                assert(built_key(indices, y.index() as int) == built_key(indices, p.index() as int));
                assert(has_partner(indices, p.index() as int));
            }
        }
    }

    /// Records `x` under the key of its edge, or, if the key already names a half-edge, makes the two twins.
    fn mark_twin(&mut self, twins: &mut HashMap<u64, HalfEdgeID>, x: HalfEdgeID, key: u64)
        requires
            old(self).wf(),
            old(self).he_live(x),
            old(self).twin_fields_live(),
            forall|k: u64| #[trigger] old(twins)@.contains_key(k) ==> old(self).he_live(old(twins)@[k]),
        ensures
            final(self).wf(),
            final(self).twin_fields_live(),
            forall|k: u64| #[trigger] final(twins)@.contains_key(k) ==> final(self).he_live(final(twins)@[k]),
            forall|k: u64| #[trigger] final(twins)@.contains_key(k) ==> old(twins)@.contains_key(k) || final(twins)@[k] == x,
            forall|y: HalfEdgeID| #[trigger] final(self).shape(y) == old(self).shape(y),
            final(self).halfedges().dom() == old(self).halfedges().dom(),
            final(self).same_vertices_faces(old(self)),
            final(self).vertices() == old(self).vertices(),
            final(self).faces() == old(self).faces(),
            final(self).slot_counts() == old(self).slot_counts(),
            final(self).room() == old(self).room(),
            forall|y: HalfEdgeID| #[trigger] old(self).twin_of(Some(y)) is Some ==> final(self).twin_of(Some(y)) is Some,
            old(self).twin_of(Some(x)) is Some || final(twins)@.contains_key(key) || final(self).twin_of(Some(x)) is Some,
            old(twins)@.contains_key(key) ==> {
                &&& final(twins)@ == old(twins)@
                &&& final(self).twin_of(Some(x)) == Some(old(twins)@[key]) || x == old(twins)@[key]
                &&& final(self).twin_of(Some(old(twins)@[key])) == Some(x)
                &&& forall|y: HalfEdgeID| y != x && y != old(twins)@[key] ==> #[trigger] final(self).he(y) == old(self).he(y)
            },
            !old(twins)@.contains_key(key) ==> final(twins)@ == old(twins)@.insert(key, x)
                && forall|y: HalfEdgeID| #[trigger] final(self).he(y) == old(self).he(y),
    {
        proof { self.lemma_wf(); }
        match twins.get(&key) {
            Some(t) => {
                let t = *t;
                self.set_twins(x, t);
                proof {
                    self.lemma_wf();
                    assert(self.halfedges().dom() =~= old(self).halfedges().dom());
                    assert forall|h: HalfEdgeID| #[trigger] self.he_live(h) implies (self.twin_of(Some(h)) matches Some(u) ==> self.he_live(u)) by {
                        HalfEdgeID::lemma_index_injective(h, x);
                        HalfEdgeID::lemma_index_injective(h, t);
                        HalfEdgeID::lemma_index_injective(x, t);
                        if h.index() != x.index() && h.index() != t.index() {
                            assert(self.he(h) == old(self).he(h));
                            assert(old(self).he_live(h));
                        }
                    }
                    assert forall|y: HalfEdgeID| #[trigger] old(self).twin_of(Some(y)) is Some implies self.twin_of(Some(y)) is Some by {
                        HalfEdgeID::lemma_index_injective(y, x);
                        HalfEdgeID::lemma_index_injective(y, t);
                    }
                    assert forall|y: HalfEdgeID| y != x && y != t implies #[trigger] self.he(y) == old(self).he(y) by {
                        HalfEdgeID::lemma_index_injective(y, x);
                        HalfEdgeID::lemma_index_injective(y, t);
                    }
                    HalfEdgeID::lemma_index_injective(x, t);
                }
            },
            None => {
                twins.insert(key, x);
            },
        }
    }

    /// A half-edge of a built face: it points to the head of its edge, and with its next and previous half-edges
    /// makes the triangle of its face, whose half-edges are exactly those three.
    proof fn lemma_built_triangle(&self, indices: Seq<u32>, no_faces: int, h: HalfEdgeID)
        requires
            forall|j: int| 0 <= j < no_faces ==> #[trigger] self.face_built(indices, j),
            0 <= h.index() < 3 * no_faces,
            no_faces * 3 <= indices.len(),
            3 * no_faces <= u32::MAX,
        ensures
            ({
                let p = h.index() as int;
                let n = self.next_of(Some(h))->0;
                let q = self.next_of(Some(n))->0;
                &&& self.he(h) is Some
                &&& self.face_of(Some(h)) == Some(FaceID::from_index((p / 3) as u32))
                &&& self.vertex_of(Some(h)) == Some(VertexID::from_index(built_head(indices, p)))
                &&& self.next_of(Some(h)) is Some && self.next_of(Some(n)) is Some
                &&& n.index() < 3 * no_faces && q.index() < 3 * no_faces
                &&& n.index() / 3 == p / 3 && q.index() / 3 == p / 3
                &&& n != h && q != h && n != q
                &&& self.next_of(Some(q)) == Some(h)
                &&& built_tail(indices, n.index() as int) == built_head(indices, p)
                &&& built_head(indices, q.index() as int) == built_tail(indices, p)
                &&& self.vertex_of(Some(q)) == Some(VertexID::from_index(built_tail(indices, p)))
                &&& self.he(n) is Some && self.he(q) is Some
            }),
    {
        let k = h.index() / 3;
        assert(self.face_built(indices, k as int));
        let a = HalfEdgeID::from_index((3 * k) as u32);
        let b = HalfEdgeID::from_index((3 * k + 1) as u32);
        let c = HalfEdgeID::from_index((3 * k + 2) as u32);
        HalfEdgeID::lemma_from_index((3 * k) as u32);
        HalfEdgeID::lemma_from_index((3 * k + 1) as u32);
        HalfEdgeID::lemma_from_index((3 * k + 2) as u32);
        HalfEdgeID::lemma_index_injective(h, a);
        HalfEdgeID::lemma_index_injective(h, b);
        HalfEdgeID::lemma_index_injective(h, c);
        HalfEdgeID::lemma_index_injective(a, b);
        HalfEdgeID::lemma_index_injective(a, c);
        HalfEdgeID::lemma_index_injective(b, c);
        assert((3 * k) as int / 3 == k && (3 * k) as int % 3 == 0);
        assert((3 * k + 1) as int / 3 == k && (3 * k + 1) as int % 3 == 1);
        assert((3 * k + 2) as int / 3 == k && (3 * k + 2) as int % 3 == 2);
    }

    /// A built mesh whose faces' half-edges are all paired, where the indices build a valid mesh, is valid.
    #[verifier::rlimit(50)]
    proof fn lemma_built_valid(m: Mesh<T>, faced: Mesh<T>, indices: Seq<u32>, no_vertices: nat, twins: Map<u64, HalfEdgeID>)
        requires
            m.wf(),
            indices_build_valid(indices, no_vertices),
            3 * (indices.len() / 3) <= u32::MAX,
            forall|i: int| 0 <= i < (indices.len() / 3) * 3 ==> #[trigger] indices[i] < no_vertices,
            m.vertices().dom() == Set::new(|i: u32| i < no_vertices),
            m.faces().dom() == Set::new(|k: u32| k < indices.len() / 3),
            forall|i: int| 0 <= i < indices.len() / 3 ==> #[trigger] m.face_built(indices, i),
            forall|i: int| 0 <= i < indices.len() / 3 ==> #[trigger] faced.face_built(indices, i),
            forall|j: u32| j < no_vertices ==> (#[trigger] m.vertices()[j]).halfedge is Some ==> {
                let h = m.vertices()[j].halfedge->0;
                h.index() < 3 * (indices.len() / 3) && built_tail(indices, h.index() as int) == j
            },
            forall|j: u32| j < no_vertices && #[trigger] corner_before(indices, j, (3 * (indices.len() / 3)) as int)
                ==> m.vertices()[j].halfedge is Some,
            forall|h: HalfEdgeID| #[trigger] faced.he_live(h) <==> h.index() < 3 * (indices.len() / 3),
            forall|h: HalfEdgeID| h.index() < 3 * (indices.len() / 3) ==> #[trigger] m.he_live(h),
            forall|h: HalfEdgeID| #[trigger] m.he_live(h) ==> m.twin_of(Some(h)) is Some,
            forall|h: HalfEdgeID| #[trigger] m.he_live(h) && h.index() >= 3 * (indices.len() / 3)
                ==> m.face_of(Some(h)) is None && m.next_of(Some(h)) is None,
            forall|h: HalfEdgeID| #[trigger] m.he_live(h) && h.index() < 3 * (indices.len() / 3) ==> faced.he_live(h)
                && m.shape(h) == faced.shape(h)
                && (faced.twin_of(Some(h)) is Some ==> m.twin_of(Some(h)) == faced.twin_of(Some(h)))
                && (faced.twin_of(Some(h)) is None && m.twin_of(Some(h)) is Some ==> {
                    let z = m.twin_of(Some(h))->0;
                    &&& z.index() >= 3 * (indices.len() / 3)
                    &&& m.he_live(z)
                    &&& m.twin_of(Some(z)) == Some(h)
                    &&& m.vertex_of(Some(z)) == faced.vertex_of(faced.previous_of(Some(h)))
                }),
            forall|z: HalfEdgeID| #[trigger] m.he_live(z) && z.index() >= 3 * (indices.len() / 3) ==> {
                let h = m.twin_of(Some(z))->0;
                &&& h.index() < 3 * (indices.len() / 3)
                &&& faced.he_live(h)
                &&& faced.twin_of(Some(h)) is None
                &&& m.twin_of(Some(h)) == Some(z)
            },
            faced.twin_marks_ok(indices, no_vertices, twins, Set::new(|i: u32| i < 3 * (indices.len() / 3))),
        ensures
            m.valid(),
    {
        let nf = indices.len() / 3;
        let done = Set::new(|i: u32| i < 3 * nf);
        m.lemma_wf();
        // The twin of a half-edge of a face points to the vertex the half-edge leaves.
        assert forall|h: HalfEdgeID| h.index() < 3 * nf implies {
            let t = m.twin_of(Some(h))->0;
            &&& m.twin_of(Some(h)) is Some && m.he_live(t)
            &&& m.twin_of(Some(t)) == Some(h)
            &&& m.vertex_of(Some(t)) == Some(VertexID::from_index(built_tail(indices, h.index() as int)))
            &&& #[trigger] m.vertex_of(Some(h)) == Some(VertexID::from_index(built_head(indices, h.index() as int)))
        } by {
            assert(m.he_live(h));
            m.lemma_built_triangle(indices, nf as int, h);
            faced.lemma_built_triangle(indices, nf as int, h);
            assert(faced.he_live(h));
            if let Some(y) = faced.twin_of(Some(h)) {
                assert(done.contains(h.index()));
                assert(faced.paired_so_far(indices, no_vertices, twins, done, h));
                lemma_built_partner(indices, h.index() as int, y.index() as int);
                assert(faced.he_live(y));
                assert(m.he_live(y));
                faced.lemma_built_triangle(indices, nf as int, y);
                m.lemma_built_triangle(indices, nf as int, y);
            }
        }
        assert forall|h: HalfEdgeID| #[trigger] m.he_live(h) implies m.halfedge_ok(h) by {
            if h.index() < 3 * nf {
                m.lemma_built_triangle(indices, nf as int, h);
                let p = h.index() as int;
                let n = m.next_of(Some(h))->0;
                VertexID::lemma_from_index(built_head(indices, p));
                VertexID::lemma_from_index(built_tail(indices, p));
                FaceID::lemma_from_index((p / 3) as u32);
                assert(m.vertex_of(Some(n)) == Some(VertexID::from_index(built_head(indices, n.index() as int))));
                assert(m.fc_live(FaceID::from_index((p / 3) as u32)));
                m.lemma_built_triangle(indices, nf as int, n);
            } else {
                let t = m.twin_of(Some(h))->0;
                assert(m.vertex_of(Some(t)) == Some(VertexID::from_index(built_head(indices, t.index() as int))));
                m.lemma_built_triangle(indices, nf as int, t);
                faced.lemma_built_triangle(indices, nf as int, t);
                VertexID::lemma_from_index(built_head(indices, t.index() as int));
                VertexID::lemma_from_index(built_tail(indices, t.index() as int));
            }
        }
        assert forall|a: HalfEdgeID, b: HalfEdgeID| #[trigger] m.same_face_pair_ok(a, b) by {
            if m.he_live(a) && m.he_live(b) && m.face_of(Some(a)) is Some && m.face_of(Some(a)) == m.face_of(Some(b)) {
                m.lemma_built_triangle(indices, nf as int, a);
                m.lemma_built_triangle(indices, nf as int, b);
                FaceID::lemma_from_index((a.index() / 3) as u32);
                FaceID::lemma_from_index((b.index() / 3) as u32);
                let n = m.next_of(Some(a))->0;
                let q = m.next_of(Some(n))->0;
                HalfEdgeID::lemma_index_injective(a, b);
                HalfEdgeID::lemma_index_injective(n, b);
                HalfEdgeID::lemma_index_injective(q, b);
                HalfEdgeID::lemma_index_injective(a, n);
                HalfEdgeID::lemma_index_injective(a, q);
                HalfEdgeID::lemma_index_injective(n, q);
            }
        }
        assert forall|u: VertexID| m.vx_live(u) implies #[trigger] m.vertex_ok(u) by {
            let j = u.index();
            assert(is_corner(indices, j));
            assert(corner_before(indices, j, (3 * nf) as int));
            let h = m.vertices()[j].halfedge->0;
            VertexID::lemma_from_index(j);
            VertexID::lemma_index_injective(u, VertexID::from_index(j));
        }
        assert forall|f: FaceID| m.fc_live(f) implies #[trigger] m.face_ok(f) by {
            let k = f.index();
            assert(m.face_built(indices, k as int));
            FaceID::lemma_from_index(k);
            HalfEdgeID::lemma_from_index((3 * k) as u32);
            assert(m.he_live(HalfEdgeID::from_index((3 * k) as u32)));
            FaceID::lemma_index_injective(f, FaceID::from_index(k));
        }
        reveal(Mesh::valid);
    }

    /// A half-edge of a built face has a face, and its previous half-edge points to a vertex.
    proof fn lemma_built_halfedge(&self, indices: Seq<u32>, no_faces: int, h: HalfEdgeID)
        requires
            forall|j: int| 0 <= j < no_faces ==> #[trigger] self.face_built(indices, j),
            h.index() < 3 * no_faces,
        ensures
            self.face_of(Some(h)) is Some,
            self.vertex_of(Some(h)) is Some,
            self.vertex_of(self.previous_of(Some(h))) is Some,
            self.he(h) is Some,
    {
        let k = h.index() / 3;
        assert(self.face_built(indices, k as int));
        let a = HalfEdgeID::from_index((3 * k) as u32);
        let b = HalfEdgeID::from_index((3 * k + 1) as u32);
        let c = HalfEdgeID::from_index((3 * k + 2) as u32);
        HalfEdgeID::lemma_from_index((3 * k) as u32);
        HalfEdgeID::lemma_from_index((3 * k + 1) as u32);
        HalfEdgeID::lemma_from_index((3 * k + 2) as u32);
        HalfEdgeID::lemma_index_injective(h, a);
        HalfEdgeID::lemma_index_injective(h, b);
        HalfEdgeID::lemma_index_injective(h, c);
    }

    /// Constructs a mesh from triangle indices and vertex positions.
    /// The position of vertex `x` is `(positions[3x], positions[3x+1], positions[3x+2])`, and face `x` connects
    /// the vertices `indices[3x]`, `indices[3x+1]` and `indices[3x+2]`.
    /// Half-edges of a face get their twin from the face that shares their edge; a half-edge that has none
    /// gets a new twin without face. Where the indices describe faces as [indices_build_valid] says, the mesh
    /// is valid.
    #[verifier::rlimit(40)]
    pub fn new(indices: Vec<u32>, positions: Vec<T>) -> (m: Self)
        requires
            positions.len() / 3 <= u32::MAX,
            (indices.len() / 3) * 6 <= u32::MAX,
            forall|i: int| 0 <= i < (indices.len() / 3) * 3 ==> #[trigger] indices[i] < positions.len() / 3,
        ensures
            m.wf(),
            m.vertices().dom() == Set::new(|i: u32| i < positions.len() / 3),
            forall|i: u32| i < positions.len() / 3 ==> #[trigger] m.vertices()[i].position
                == [positions[3 * i], positions[3 * i + 1], positions[3 * i + 2]],
            m.faces().dom() == Set::new(|k: u32| k < indices.len() / 3),
            forall|k: int| 0 <= k < indices.len() / 3 ==> #[trigger] m.face_built(indices@, k),
            forall|h: HalfEdgeID| #[trigger] m.he_live(h) && h.index() >= (indices.len() / 3) * 3
                ==> m.face_of(Some(h)) is None && m.next_of(Some(h)) is None && m.vertex_of(Some(h)) is Some,
            forall|h: HalfEdgeID| #[trigger] m.he_live(h) && h.index() < (indices.len() / 3) * 3 ==> m.face_of(Some(h)) is Some,
            m.twins_live(),
            m.is_built_from(indices@, positions@),
            m.twins_built(indices@),
            indices_build_valid(indices@, (positions.len() / 3) as nat) ==> m.valid(),
            m.halfedges().dom().len() <= 2 * ((indices.len() / 3) * 3),
    {
        let no_vertices = positions.len() / 3;
        let no_faces = indices.len() / 3;
        let mut mesh = Mesh { connectivity_info: ConnectivityInfo::new(no_vertices, no_faces) };

        // Create vertices
        let mut i: usize = 0;
        while i < no_vertices
            invariant
                no_vertices == positions.len() / 3,
                no_vertices <= u32::MAX,
                i <= no_vertices,
                mesh.connectivity_info.wf(),
                mesh.connectivity_info.vertices.slots().len() == i,
                mesh.connectivity_info.vertices.free_indices().len() == 0,
                mesh.connectivity_info.vertices@.dom() == Set::new(|j: u32| j < i),
                forall|j: u32| j < i ==> #[trigger] mesh.connectivity_info.vertices@[j].position
                    == [positions[3 * j], positions[3 * j + 1], positions[3 * j + 2]],
                forall|j: u32| j < i ==> (#[trigger] mesh.connectivity_info.vertices@[j]).halfedge is None,
                mesh.connectivity_info.halfedges@ == Map::<u32, HalfEdge>::empty(),
                mesh.connectivity_info.halfedges.slots().len() == 0,
                mesh.connectivity_info.halfedges.free_indices().len() == 0,
                mesh.connectivity_info.faces@ == Map::<u32, super::connectivity_info::Face>::empty(),
                mesh.connectivity_info.faces.slots().len() == 0,
                mesh.connectivity_info.faces.free_indices().len() == 0,
            decreases no_vertices - i,
        {
            let p = [positions[3 * i], positions[3 * i + 1], positions[3 * i + 2]];
            let v = mesh.connectivity_info.new_vertex(p);
            proof {
                assert(mesh.connectivity_info.vertices@.dom() =~= Set::new(|j: u32| j < i + 1));
            }
            i += 1;
        }

        // Create faces and twin connectivity
        let mut twins: HashMap<u64, HalfEdgeID> = HashMap::new();
        let mut k: usize = 0;
        while k < no_faces
            invariant
                no_vertices == positions.len() / 3,
                no_faces == indices.len() / 3,
                no_faces * 6 <= u32::MAX,
                k <= no_faces,
                forall|i: int| 0 <= i < (indices.len() / 3) * 3 ==> #[trigger] indices[i] < positions.len() / 3,
                mesh.wf(),
                mesh.connectivity_info.vertices.slots().len() == no_vertices,
                mesh.connectivity_info.vertices.free_indices().len() == 0,
                mesh.connectivity_info.vertices@.dom() == Set::new(|j: u32| j < no_vertices),
                forall|j: u32| j < no_vertices ==> #[trigger] mesh.connectivity_info.vertices@[j].position
                    == [positions[3 * j], positions[3 * j + 1], positions[3 * j + 2]],
                mesh.connectivity_info.halfedges.slots().len() == 3 * k,
                mesh.connectivity_info.halfedges.free_indices().len() == 0,
                mesh.connectivity_info.halfedges@.dom() == Set::new(|j: u32| j < 3 * k),
                mesh.connectivity_info.faces.slots().len() == k,
                mesh.connectivity_info.faces.free_indices().len() == 0,
                mesh.connectivity_info.faces@.dom() == Set::new(|j: u32| j < k),
                forall|j: int| 0 <= j < k ==> #[trigger] mesh.face_built(indices@, j),
                forall|key: u64| #[trigger] twins@.contains_key(key) ==> mesh.he_live(twins@[key]),
                mesh.twin_fields_live(),
                mesh.twin_marks_ok(indices@, no_vertices as nat, twins@, Set::new(|i: u32| i < 3 * k)),
                forall|j: u32| j < no_vertices ==> (#[trigger] mesh.connectivity_info.vertices@[j]).halfedge is Some ==> {
                    let h = mesh.connectivity_info.vertices@[j].halfedge->0;
                    h.index() < 3 * k && built_tail(indices@, h.index() as int) == j
                },
                forall|j: u32| j < no_vertices && #[trigger] corner_before(indices@, j, 3 * k)
                    ==> mesh.connectivity_info.vertices@[j].halfedge is Some,
            decreases no_faces - k,
        {
            let v0 = VertexID::new(indices[3 * k]);
            let v1 = VertexID::new(indices[3 * k + 1]);
            let v2 = VertexID::new(indices[3 * k + 2]);
            let ghost before = mesh;
            proof {
                before.lemma_wf();
                assert(mesh.connectivity_info.vertices.is_live(v0.index()));
                assert(mesh.connectivity_info.vertices.is_live(v1.index()));
                assert(mesh.connectivity_info.vertices.is_live(v2.index()));
            }
            let face = mesh.connectivity_info.create_face(v0, v1, v2);
            proof {
                mesh.lemma_wf();
                let h1 = HalfEdgeID::from_index((3 * k) as u32);
                let h3 = HalfEdgeID::from_index((3 * k + 1) as u32);
                let h2 = HalfEdgeID::from_index((3 * k + 2) as u32);
                HalfEdgeID::lemma_from_index((3 * k) as u32);
                HalfEdgeID::lemma_from_index((3 * k + 1) as u32);
                HalfEdgeID::lemma_from_index((3 * k + 2) as u32);
                FaceID::lemma_from_index(k as u32);
                assert(before.connectivity_info.halfedges.nth_id(0) == 3 * k);
                assert(before.connectivity_info.halfedges.nth_id(1) == 3 * k + 1);
                assert(before.connectivity_info.halfedges.nth_id(2) == 3 * k + 2);
                assert(before.connectivity_info.faces.nth_id(0) == k);
                assert(mesh.connectivity_info.halfedges@.dom() =~= Set::new(|j: u32| j < 3 * (k + 1)));
                assert(mesh.connectivity_info.faces@.dom() =~= Set::new(|j: u32| j < k + 1));
                assert(mesh.connectivity_info.vertices@.dom() =~= Set::new(|j: u32| j < no_vertices));
                assert forall|j: u32| j < no_vertices implies #[trigger] mesh.connectivity_info.vertices@[j].position
                    == [positions[3 * j], positions[3 * j + 1], positions[3 * j + 2]] by {
                    assert(mesh.connectivity_info.vertices@[j].position == before.connectivity_info.vertices@[j].position);
                }
                assert forall|j: int| 0 <= j < k + 1 implies #[trigger] mesh.face_built(indices@, j) by {
                    if j < k {
                        assert(before.face_built(indices@, j));
                        let a = HalfEdgeID::from_index((3 * j) as u32);
                        let b = HalfEdgeID::from_index((3 * j + 1) as u32);
                        let c = HalfEdgeID::from_index((3 * j + 2) as u32);
                        HalfEdgeID::lemma_from_index((3 * j) as u32);
                        HalfEdgeID::lemma_from_index((3 * j + 1) as u32);
                        HalfEdgeID::lemma_from_index((3 * j + 2) as u32);
                        FaceID::lemma_from_index(j as u32);
                        assert(mesh.he(a) == before.he(a));
                        assert(mesh.he(b) == before.he(b));
                        assert(mesh.he(c) == before.he(c));
                        assert(mesh.fc(FaceID::from_index(j as u32)) == before.fc(FaceID::from_index(j as u32)));
                    }
                }
                assert forall|h: HalfEdgeID| #[trigger] mesh.he_live(h) implies (mesh.twin_of(Some(h)) matches Some(t) ==> mesh.he_live(t)) by {
                    if h.index() < 3 * k {
                        assert(before.he_live(h));
                        assert(mesh.he(h) == before.he(h));
                    }
                }
                let vs = mesh.connectivity_info.vertices@;
                assert forall|j: u32| j < no_vertices && (#[trigger] vs[j]).halfedge is Some implies {
                    let h = vs[j].halfedge->0;
                    h.index() < 3 * (k + 1) && built_tail(indices@, h.index() as int) == j
                } by {
                    assert((3 * k) as int / 3 == k && (3 * k) as int % 3 == 0);
                    assert((3 * k + 1) as int / 3 == k && (3 * k + 1) as int % 3 == 1);
                    assert((3 * k + 2) as int / 3 == k && (3 * k + 2) as int % 3 == 2);
                    assert(before.connectivity_info.vertices@.dom().contains(j));
                    if j != v0.index() && j != v1.index() && j != v2.index() {
                        assert(vs[j] == before.connectivity_info.vertices@[j]);
                    }
                }
                assert forall|j: u32| j < no_vertices && #[trigger] corner_before(indices@, j, 3 * (k + 1)) implies vs[j].halfedge is Some by {
                    let i = choose|i: int| 0 <= i < 3 * (k + 1) && #[trigger] indices@[i] == j;
                    if i < 3 * k {
                        assert(corner_before(indices@, j, 3 * k));
                    }
                    assert(before.connectivity_info.vertices@.dom().contains(j));
                }
                let done = Set::new(|i: u32| i < 3 * k);
                assert forall|h: HalfEdgeID| #[trigger] mesh.he_live(h) && done.contains(h.index())
                    implies mesh.paired_so_far(indices@, no_vertices as nat, twins@, done, h) by {
                    assert(before.he_live(h));
                    assert(mesh.he(h) == before.he(h));
                    assert(before.paired_so_far(indices@, no_vertices as nat, twins@, done, h));
                    if let Some(t) = before.twin_of(Some(h)) {
                        assert(mesh.he(t) == before.he(t));
                    }
                }
                assert forall|h: HalfEdgeID| #[trigger] mesh.he_live(h) && !done.contains(h.index()) implies mesh.twin_of(Some(h)) is None by {
                    if h.index() < 3 * k {
                        assert(before.he_live(h));
                    }
                }
                assert(mesh.twin_marks_ok(indices@, no_vertices as nat, twins@, done));
            }
            let mut walker = mesh.walker_from_face(face);
            proof { walker.lemma_reads(&mesh); }
            let a = walker.halfedge_id().unwrap();
            let va = walker.vertex_id().unwrap();
            walker.as_next();
            proof { walker.lemma_reads(&mesh); }
            let b = walker.halfedge_id().unwrap();
            let vb = walker.vertex_id().unwrap();
            walker.as_next();
            proof { walker.lemma_reads(&mesh); }
            let c = walker.halfedge_id().unwrap();
            let vc = walker.vertex_id().unwrap();
            let ghost built = mesh;
            let ghost done0 = Set::new(|i: u32| i < 3 * k);
            proof {
                let h1 = HalfEdgeID::from_index((3 * k) as u32);
                let h3 = HalfEdgeID::from_index((3 * k + 1) as u32);
                let h2 = HalfEdgeID::from_index((3 * k + 2) as u32);
                assert(mesh.face_built(indices@, k as int));
                HalfEdgeID::lemma_from_index((3 * k) as u32);
                HalfEdgeID::lemma_from_index((3 * k + 1) as u32);
                HalfEdgeID::lemma_from_index((3 * k + 2) as u32);
                assert(a == h1 && b == h2 && c == h3);
                assert((3 * k) as int / 3 == k && (3 * k) as int % 3 == 0);
                assert((3 * k + 1) as int / 3 == k && (3 * k + 1) as int % 3 == 1);
                assert((3 * k + 2) as int / 3 == k && (3 * k + 2) as int % 3 == 2);
                assert(built_key(indices@, b.index() as int) == edge_key(va, vb));
                assert(built_key(indices@, c.index() as int) == edge_key(vb, vc));
                assert(built_key(indices@, a.index() as int) == edge_key(vc, va));
            }
            let ghost (m0, t0) = (mesh, twins@);
            mesh.mark_twin(&mut twins, b, sort_key(va, vb));
            proof {
                Self::lemma_mark_step(indices@, no_vertices as nat, m0, mesh, t0, twins@, done0, b);
            }
            let ghost (m1, t1) = (mesh, twins@);
            let ghost done1 = done0.insert(b.index());
            mesh.mark_twin(&mut twins, c, sort_key(vb, vc));
            proof {
                Self::lemma_mark_step(indices@, no_vertices as nat, m1, mesh, t1, twins@, done1, c);
            }
            let ghost (m2, t2) = (mesh, twins@);
            let ghost done2 = done1.insert(c.index());
            mesh.mark_twin(&mut twins, a, sort_key(vc, va));
            proof {
                Self::lemma_mark_step(indices@, no_vertices as nat, m2, mesh, t2, twins@, done2, a);
                assert(done2.insert(a.index()) =~= Set::new(|i: u32| i < 3 * (k + 1)));
            }
            proof {
                assert forall|j: int| 0 <= j < k + 1 implies #[trigger] mesh.face_built(indices@, j) by {
                    assert(built.face_built(indices@, j));
                }
            }
            k += 1;
        }

        // Give each half-edge without twin a new twin without face
        let ghost faced = mesh;
        let n_face_halfedges = 3 * no_faces;
        let mut j: usize = 0;
        let ghost mut added: nat = 0;
        while j < n_face_halfedges
            invariant
                no_vertices == positions.len() / 3,
                no_faces == indices.len() / 3,
                no_faces * 6 <= u32::MAX,
                n_face_halfedges == 3 * no_faces,
                j <= n_face_halfedges,
                mesh.wf(),
                mesh.vertices() == faced.vertices(),
                mesh.faces() == faced.faces(),
                mesh.connectivity_info.halfedges.slots().len() == 3 * no_faces + added,
                mesh.connectivity_info.halfedges.free_indices().len() == 0,
                mesh.connectivity_info.halfedges@.dom() == Set::new(|i: u32| i < 3 * no_faces + added),
                added <= j,
                forall|i: int| 0 <= i < no_faces ==> #[trigger] mesh.face_built(indices@, i),
                forall|i: int| 0 <= i < no_faces ==> #[trigger] faced.face_built(indices@, i),
                faced.twin_marks_ok(indices@, no_vertices as nat, twins@, Set::new(|i: u32| i < 3 * no_faces)),
                forall|h: HalfEdgeID| #[trigger] faced.he_live(h) <==> h.index() < 3 * no_faces,
                faced.faces().dom() == Set::new(|k: u32| k < no_faces),
                forall|j: u32| j < no_vertices ==> (#[trigger] faced.vertices()[j]).halfedge is Some ==> {
                    let h = faced.vertices()[j].halfedge->0;
                    h.index() < 3 * no_faces && built_tail(indices@, h.index() as int) == j
                },
                forall|j: u32| j < no_vertices && #[trigger] corner_before(indices@, j, (3 * no_faces) as int)
                    ==> faced.vertices()[j].halfedge is Some,
                forall|h: HalfEdgeID| #[trigger] mesh.he_live(h) && h.index() >= 3 * no_faces
                    ==> mesh.face_of(Some(h)) is None && mesh.next_of(Some(h)) is None && mesh.vertex_of(Some(h)) is Some
                        && mesh.twin_of(Some(h)) is Some,
                mesh.twin_fields_live(),
                forall|g: HalfEdgeID| #[trigger] mesh.he_live(g) && g.index() < j ==> mesh.twin_of(Some(g)) is Some,
                forall|g: HalfEdgeID| #[trigger] mesh.he_live(g) && g.index() < 3 * no_faces && faced.twin_of(Some(g)) is None
                    && mesh.twin_of(Some(g)) is Some ==> g.index() < j,
                edges_run_once(indices@) ==> added == built_unpaired_count(indices@, j as int),
                forall|h: HalfEdgeID| #[trigger] mesh.he_live(h) && h.index() < 3 * no_faces ==> faced.he_live(h)
                    && mesh.shape(h) == faced.shape(h)
                    && (faced.twin_of(Some(h)) is Some ==> mesh.twin_of(Some(h)) == faced.twin_of(Some(h)))
                    && (faced.twin_of(Some(h)) is None && mesh.twin_of(Some(h)) is Some ==> {
                        let z = mesh.twin_of(Some(h))->0;
                        &&& z.index() >= 3 * no_faces
                        &&& mesh.he_live(z)
                        &&& mesh.twin_of(Some(z)) == Some(h)
                        &&& mesh.vertex_of(Some(z)) == faced.vertex_of(faced.previous_of(Some(h)))
                    }),
                forall|z: HalfEdgeID| #[trigger] mesh.he_live(z) && z.index() >= 3 * no_faces ==> {
                    let h = mesh.twin_of(Some(z))->0;
                    &&& h.index() < 3 * no_faces
                    &&& faced.he_live(h)
                    &&& faced.twin_of(Some(h)) is None
                    &&& mesh.twin_of(Some(h)) == Some(z)
                },
            decreases n_face_halfedges - j,
        {
            let h = HalfEdgeID::new(j as u32);
            let ghost before = mesh;
            proof {
                mesh.lemma_wf();
                assert(mesh.he_live(h));
                mesh.lemma_built_halfedge(indices@, no_faces as int, h);
            }
            let info = mesh.connectivity_info.halfedge(h).unwrap();
            proof {
                assert(h.index() < 3 * no_faces);
                assert(mesh.he_live(h) && h.index() < 3 * no_faces);
            }
            if info.twin.is_none() {
                let mut walker = mesh.walker_from_halfedge(h);
                walker.as_previous();
                proof { walker.lemma_reads(&mesh); }
                let vertex = walker.vertex_id().unwrap();
                let nh = mesh.connectivity_info.new_halfedge(Some(vertex), None, None);
                proof {
                    mesh.lemma_wf();
                    assert(before.connectivity_info.halfedges.nth_id(0) == 3 * no_faces + added);
                    assert(mesh.connectivity_info.halfedges@.dom() =~= Set::new(|i: u32| i < 3 * no_faces + added + 1));
                    assert forall|i: int| 0 <= i < no_faces implies #[trigger] mesh.face_built(indices@, i) by {
                        assert(before.face_built(indices@, i));
                        let a = HalfEdgeID::from_index((3 * i) as u32);
                        let b = HalfEdgeID::from_index((3 * i + 1) as u32);
                        let c = HalfEdgeID::from_index((3 * i + 2) as u32);
                        HalfEdgeID::lemma_from_index((3 * i) as u32);
                        HalfEdgeID::lemma_from_index((3 * i + 1) as u32);
                        HalfEdgeID::lemma_from_index((3 * i + 2) as u32);
                        assert(mesh.he(a) == before.he(a));
                        assert(mesh.he(b) == before.he(b));
                        assert(mesh.he(c) == before.he(c));
                    }
                }
                let ghost mid = mesh;
                mesh.set_twins(h, nh);
                proof {
                    HalfEdgeID::lemma_index_injective(h, nh);
                    assert(mesh.twin_of(Some(h)) == Some(nh));
                    mid.lemma_wf();
                    assert(mid.he_live(nh));
                    assert(mid.halfedges()[nh.index()].vertex == Some(vertex));
                    assert(mesh.shape(nh) == mid.shape(nh));
                    assert(mesh.vertex_of(Some(nh)) == Some(vertex));
                    assert(faced.twin_of(Some(h)) is None);
                    assert(Some(vertex) == faced.vertex_of(faced.previous_of(Some(h)))) by {
                        before.lemma_built_triangle(indices@, no_faces as int, h);
                        faced.lemma_built_triangle(indices@, no_faces as int, h);
                    }
                    assert forall|g: HalfEdgeID| #[trigger] mesh.he_live(g) && g.index() < 3 * no_faces implies faced.he_live(g)
                        && mesh.shape(g) == faced.shape(g)
                        && (faced.twin_of(Some(g)) is Some ==> mesh.twin_of(Some(g)) == faced.twin_of(Some(g)))
                        && (faced.twin_of(Some(g)) is None && mesh.twin_of(Some(g)) is Some ==> {
                            let z = mesh.twin_of(Some(g))->0;
                            &&& z.index() >= 3 * no_faces
                            &&& mesh.he_live(z)
                            &&& mesh.twin_of(Some(z)) == Some(g)
                            &&& mesh.vertex_of(Some(z)) == faced.vertex_of(faced.previous_of(Some(g)))
                        }) by {
                        HalfEdgeID::lemma_index_injective(g, h);
                        HalfEdgeID::lemma_index_injective(g, nh);
                        assert(before.he_live(g));
                        assert(mesh.shape(g) == before.shape(g));
                        if g != h {
                            assert(mesh.he(g) == before.he(g));
                            if before.twin_of(Some(g)) is Some && faced.twin_of(Some(g)) is None {
                                let z = before.twin_of(Some(g))->0;
                                HalfEdgeID::lemma_index_injective(z, h);
                                HalfEdgeID::lemma_index_injective(z, nh);
                                assert(mesh.he(z) == before.he(z));
                            }
                        }
                    }
                    assert forall|z: HalfEdgeID| #[trigger] mesh.he_live(z) && z.index() >= 3 * no_faces implies {
                        let g = mesh.twin_of(Some(z))->0;
                        &&& g.index() < 3 * no_faces
                        &&& faced.he_live(g)
                        &&& faced.twin_of(Some(g)) is None
                        &&& mesh.twin_of(Some(g)) == Some(z)
                    } by {
                        HalfEdgeID::lemma_index_injective(z, h);
                        HalfEdgeID::lemma_index_injective(z, nh);
                        if z != nh {
                            assert(before.he_live(z));
                            assert(mesh.he(z) == before.he(z));
                            let g = before.twin_of(Some(z))->0;
                            HalfEdgeID::lemma_index_injective(g, h);
                            HalfEdgeID::lemma_index_injective(g, nh);
                            assert(mesh.he(g) == before.he(g));
                        }
                    }
                }
                proof {
                    mesh.lemma_wf();
                    added = added + 1;
                    assert(mesh.halfedges().dom() =~= mid.halfedges().dom());
                    assert forall|i: int| 0 <= i < no_faces implies #[trigger] mesh.face_built(indices@, i) by {
                        assert(mid.face_built(indices@, i));
                    }
                    assert forall|g: HalfEdgeID| #[trigger] mesh.he_live(g) && g.index() >= 3 * no_faces
                        implies mesh.face_of(Some(g)) is None && mesh.next_of(Some(g)) is None && mesh.vertex_of(Some(g)) is Some
                            && mesh.twin_of(Some(g)) is Some by {
                        assert(mesh.shape(g) == mid.shape(g));
                        HalfEdgeID::lemma_index_injective(g, nh);
                        HalfEdgeID::lemma_index_injective(g, h);
                        if g.index() != nh.index() && g.index() != h.index() {
                            assert(before.he_live(g));
                            assert(mesh.he(g) == before.he(g));
                        }
                    }
                    assert forall|x: HalfEdgeID| #[trigger] mesh.he_live(x) implies (mesh.twin_of(Some(x)) matches Some(u) ==> mesh.he_live(u)) by {
                        HalfEdgeID::lemma_index_injective(x, nh);
                        HalfEdgeID::lemma_index_injective(x, h);
                        if x.index() != nh.index() && x.index() != h.index() {
                            assert(before.he_live(x));
                            assert(mesh.he(x) == before.he(x));
                        }
                    }
                    assert forall|g: HalfEdgeID| #[trigger] mesh.he_live(g) && g.index() < j + 1 implies mesh.twin_of(Some(g)) is Some by {
                        HalfEdgeID::lemma_index_injective(g, nh);
                        HalfEdgeID::lemma_index_injective(g, h);
                        if g.index() != nh.index() && g.index() != h.index() {
                            assert(before.he_live(g));
                            assert(mesh.he(g) == before.he(g));
                        }
                    }
                    assert forall|g: HalfEdgeID| #[trigger] mesh.he_live(g) && g.index() < 3 * no_faces && faced.twin_of(Some(g)) is None
                        && mesh.twin_of(Some(g)) is Some implies g.index() < j + 1 by {
                        HalfEdgeID::lemma_index_injective(g, nh);
                        HalfEdgeID::lemma_index_injective(g, h);
                        if g.index() != nh.index() && g.index() != h.index() {
                            assert(before.he_live(g));
                            assert(mesh.he(g) == before.he(g));
                        }
                    }
                    if edges_run_once(indices@) {
                        Self::lemma_unpaired(faced, indices@, no_vertices as nat, twins@, h);
                    }
                }
            } else {
                proof {
                    if edges_run_once(indices@) {
                        Self::lemma_unpaired(faced, indices@, no_vertices as nat, twins@, h);
                        assert(mesh.twin_of(Some(h)) == faced.twin_of(Some(h)));
                    }
                }
            }
            j += 1;
        }
        proof {
            mesh.lemma_wf();
            crate::id_map::lemma_u32_prefix_set((3 * no_faces + added) as nat);
            assert(mesh.halfedges().dom().len() <= 2 * ((indices.len() / 3) * 3));
            assert(mesh.connectivity_info.vertices@.dom() =~= Set::new(|i: u32| i < positions.len() / 3));
            assert forall|g: HalfEdgeID| #[trigger] mesh.he_live(g) && g.index() < (indices.len() / 3) * 3 implies mesh.face_of(Some(g)) is Some by {
                mesh.lemma_built_halfedge(indices@, no_faces as int, g);
            }
            assert forall|g: HalfEdgeID| #[trigger] mesh.he_live(g) implies (mesh.twin_of(Some(g)) matches Some(t) && mesh.he_live(t)) by {
            }
            let nf3 = 3 * no_faces;
            assert forall|z: HalfEdgeID| #[trigger] mesh.he_live(z) && z.index() >= nf3 implies {
                let h = mesh.twin_of(Some(z))->0;
                &&& mesh.twin_of(Some(z)) is Some
                &&& h.index() < nf3
                &&& mesh.twin_of(Some(h)) == Some(z)
                &&& mesh.vertex_of(Some(z)) == Some(VertexID::from_index(built_tail(indices@, h.index() as int)))
            } by {
                let h = mesh.twin_of(Some(z))->0;
                assert(mesh.he_live(h));
                faced.lemma_built_triangle(indices@, no_faces as int, h);
            }
            if edges_run_once(indices@) {
                assert forall|p: HalfEdgeID, q: int| #![trigger mesh.twin_of(Some(p)), built_key(indices@, q)]
                    p.index() < nf3 && 0 <= q < nf3 && q != p.index()
                    && built_key(indices@, q) == built_key(indices@, p.index() as int)
                    implies mesh.twin_of(Some(p)) == Some(HalfEdgeID::from_index(q as u32)) by {
                    Self::lemma_partner_twin(faced, indices@, no_vertices as nat, twins@, p, q);
                    assert(mesh.he_live(p)) by {
                        assert(Set::new(|i: u32| i < 3 * no_faces + added).contains(p.index()));
                    }
                }
                assert forall|p: HalfEdgeID| #[trigger] mesh.he_live(p) && p.index() < nf3 && !has_partner(indices@, p.index() as int)
                    implies mesh.twin_of(Some(p)) is Some && mesh.twin_of(Some(p))->0.index() >= nf3 by {
                    Self::lemma_unpaired(faced, indices@, no_vertices as nat, twins@, p);
                }
                mesh.lemma_he_slots_bound();
                lemma_index_set_len((3 * no_faces + added) as nat);
                assert forall|h: HalfEdgeID| #[trigger] mesh.he_live(h) implies mesh.twin_of(mesh.twin_of(Some(h))) == Some(h) by {
                    if h.index() < nf3 {
                        if let Some(y) = faced.twin_of(Some(h)) {
                            let done = Set::new(|i: u32| i < 3 * no_faces);
                            assert(faced.paired_so_far(indices@, no_vertices as nat, twins@, done, h));
                            assert(mesh.he_live(y)) by {
                                assert(Set::new(|i: u32| i < 3 * no_faces + added).contains(y.index()));
                            }
                        }
                    }
                }
            }
            mesh.lemma_room();
            lemma_index_set_len(no_vertices as nat);
            lemma_index_set_len(no_faces as nat);
            assert(mesh.faces().dom() == Set::new(|k: u32| k < no_faces));
            if indices_build_valid(indices@, no_vertices as nat) {
                assert forall|g: HalfEdgeID| g.index() < 3 * no_faces implies #[trigger] mesh.he_live(g) by {
                    assert(Set::new(|i: u32| i < 3 * no_faces + added).contains(g.index()));
                }
                assert(mesh.faces().dom() == Set::new(|k: u32| k < indices.len() / 3));
                Self::lemma_built_valid(mesh, faced, indices@, no_vertices as nat, twins@);
            }
        }
        mesh
    }
}

} // verus!
