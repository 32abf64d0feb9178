//! Appending one mesh to another, and merging the two where they overlap.
use vstd::prelude::*;
use crate::ids::{FaceID, HalfEdgeID, VertexID, ID};
use crate::error::Error;
use super::Mesh;
use super::connectivity_info::{Face, HalfEdge, Vertex};

verus! {

/// The id that `map` gives to the id `o`, `None` where it gives none.
pub open spec fn lift<K: ID>(map: Seq<Option<K>>, o: Option<K>) -> Option<K> {
    match o {
        Some(x) => if x.index() < map.len() { map[x.index() as int] } else { None },
        None => None,
    }
}

fn lookup<K: ID>(map: &Vec<Option<K>>, o: Option<K>) -> (r: Option<K>)
    ensures
        r == lift(map@, o),
{
    match o {
        Some(x) => {
            let i = x.get() as usize;
            if i < map.len() {
                map[i]
            } else {
                None
            }
        },
        None => None,
    }
}

/// `map` gives each index of `src` a fresh id, outside `old_dom`, and no two indices the same one.
pub open spec fn is_fresh_copy<K: ID, V>(map: Seq<Option<K>>, src: Set<u32>, old_dom: Set<u32>) -> bool {
    &&& map.len() <= u32::MAX
    &&& forall|j: u32| #[trigger] src.contains(j) ==> j < map.len()
    &&& forall|j: int| 0 <= j < map.len() ==> (#[trigger] map[j] is Some <==> src.contains(j as u32))
    &&& forall|j: int| 0 <= j < map.len() && map[j] is Some ==> !old_dom.contains(#[trigger] map[j]->0.index())
    &&& forall|j1: int, j2: int| 0 <= j1 < map.len() && 0 <= j2 < map.len() && j1 != j2 && map[j1] is Some
        && map[j2] is Some ==> #[trigger] map[j1]->0.index() != #[trigger] map[j2]->0.index()
}

/// `new` is `old` with the entries of `src` added under the ids that `map` gives, each as `copy` makes it.
pub open spec fn is_extended_by<K: ID, V>(new: Map<u32, V>, old: Map<u32, V>, src: Map<u32, V>, map: Seq<Option<K>>,
    copy: spec_fn(V) -> V) -> bool {
    &&& is_fresh_copy::<K, V>(map, src.dom(), old.dom())
    &&& forall|k: u32| #[trigger] old.dom().contains(k) ==> new.dom().contains(k) && new[k] == old[k]
    &&& forall|j: u32| #[trigger] src.dom().contains(j) ==> new.dom().contains(map[j as int]->0.index())
        && new[map[j as int]->0.index()] == copy(src[j])
    &&& forall|k: u32| #[trigger] new.dom().contains(k) ==> old.dom().contains(k)
        || exists|j: int| 0 <= j < map.len() && map[j] is Some && #[trigger] map[j]->0.index() == k
}

impl<T: Copy> Mesh<T> {
    /// A half-edge of `other` as the appended copy holds it: every id it names is replaced by its copy's.
    pub open spec fn copied_halfedge(hm: Seq<Option<HalfEdgeID>>, vm: Seq<Option<VertexID>>, fm: Seq<Option<FaceID>>,
        e: HalfEdge) -> HalfEdge {
        HalfEdge { vertex: lift(vm, e.vertex), twin: lift(hm, e.twin), next: lift(hm, e.next), face: lift(fm, e.face) }
    }

    /// `self` is `m` with a copy of `other` added under the fresh ids of `hm`, `vm` and `fm`: the old entries stay
    /// as they were, and each half-edge, vertex and face of `other` has a copy that names the copies of what it
    /// names, vertices keeping their positions.
    pub open spec fn is_append_with(&self, m: Mesh<T>, other: Mesh<T>, hm: Seq<Option<HalfEdgeID>>,
        vm: Seq<Option<VertexID>>, fm: Seq<Option<FaceID>>) -> bool {
        &&& is_extended_by(self.halfedges(), m.halfedges(), other.halfedges(), hm,
            |e: HalfEdge| Self::copied_halfedge(hm, vm, fm, e))
        &&& is_extended_by(self.vertices(), m.vertices(), other.vertices(), vm,
            |v: Vertex<T>| Vertex { halfedge: lift(hm, v.halfedge), position: v.position })
        &&& is_extended_by(self.faces(), m.faces(), other.faces(), fm,
            |f: Face| Face { halfedge: lift(hm, f.halfedge) })
    }

    /// The half-edges of `other` as blank records, one per half-edge slot, `None` for a freed slot.
    fn blank_halfedges(other: &Mesh<T>) -> (r: Vec<Option<HalfEdge>>)
        requires
            other.wf(),
        ensures
            r.len() == other.he_slot_count(),
            forall|j: int| 0 <= j < r.len() ==> #[trigger] r@[j] == if other.halfedges().dom().contains(j as u32) {
                Some(HalfEdge { vertex: None, twin: None, next: None, face: None })
            } else {
                None
            },
    {
        let n = other.halfedge_slot_count();
        proof { other.lemma_he_slots_bound(); }
        let mut r: Vec<Option<HalfEdge>> = Vec::new();
        let mut j: usize = 0;
        while j < n
            invariant
                other.wf(),
                n == other.he_slot_count(),
                n <= u32::MAX,
                j <= n,
                r.len() == j,
                forall|i: int| 0 <= i < j ==> #[trigger] r@[i] == if other.halfedges().dom().contains(i as u32) {
                    Some(HalfEdge { vertex: None, twin: None, next: None, face: None })
                } else {
                    None
                },
            decreases n - j,
        {
            let h = HalfEdgeID::new(j as u32);
            if other.contains_halfedge(h) {
                r.push(Some(HalfEdge { vertex: None, twin: None, next: None, face: None }));
            } else {
                r.push(None);
            }
            j += 1;
        }
        r
    }

    /// The vertices of `other` as their copies hold them, one per vertex slot, `None` for a freed slot.
    fn copied_vertices(other: &Mesh<T>, hm: &Vec<Option<HalfEdgeID>>) -> (r: Vec<Option<Vertex<T>>>)
        requires
            other.wf(),
        ensures
            r.len() == other.vx_slot_count(),
            forall|j: int| 0 <= j < r.len() ==> #[trigger] r@[j] == if other.vertices().dom().contains(j as u32) {
                Some(Vertex { halfedge: lift(hm@, other.vertices()[j as u32].halfedge), position: other.vertices()[j as u32].position })
            } else {
                None
            },
    {
        let n = other.vertex_slot_count();
        proof { other.connectivity_info.vertices.lemma_len(); }
        let mut r: Vec<Option<Vertex<T>>> = Vec::new();
        let mut j: usize = 0;
        while j < n
            invariant
                other.wf(),
                n == other.vx_slot_count(),
                n <= u32::MAX,
                j <= n,
                r.len() == j,
                forall|i: int| 0 <= i < j ==> #[trigger] r@[i] == if other.vertices().dom().contains(i as u32) {
                    Some(Vertex { halfedge: lift(hm@, other.vertices()[i as u32].halfedge), position: other.vertices()[i as u32].position })
                } else {
                    None
                },
            decreases n - j,
        {
            let v = VertexID::new(j as u32);
            if other.contains_vertex(v) {
                let rec = other.connectivity_info.vertices.get(v).unwrap();
                r.push(Some(Vertex { halfedge: lookup(hm, rec.halfedge), position: rec.position }));
            } else {
                r.push(None);
            }
            j += 1;
        }
        r
    }

    /// The faces of `other` as their copies hold them, one per face slot, `None` for a freed slot.
    fn copied_faces(other: &Mesh<T>, hm: &Vec<Option<HalfEdgeID>>) -> (r: Vec<Option<Face>>)
        requires
            other.wf(),
        ensures
            r.len() == other.fc_slot_count(),
            forall|j: int| 0 <= j < r.len() ==> #[trigger] r@[j] == if other.faces().dom().contains(j as u32) {
                Some(Face { halfedge: lift(hm@, other.faces()[j as u32].halfedge) })
            } else {
                None
            },
    {
        let n = other.face_slot_count();
        proof { other.lemma_fc_slots_bound(); }
        let mut r: Vec<Option<Face>> = Vec::new();
        let mut j: usize = 0;
        while j < n
            invariant
                other.wf(),
                n == other.fc_slot_count(),
                n <= u32::MAX,
                j <= n,
                r.len() == j,
                forall|i: int| 0 <= i < j ==> #[trigger] r@[i] == if other.faces().dom().contains(i as u32) {
                    Some(Face { halfedge: lift(hm@, other.faces()[i as u32].halfedge) })
                } else {
                    None
                },
            decreases n - j,
        {
            let f = FaceID::new(j as u32);
            if other.contains_face(f) {
                let rec = other.connectivity_info.faces.get(f).unwrap();
                r.push(Some(Face { halfedge: lookup(hm, rec.halfedge) }));
            } else {
                r.push(None);
            }
            j += 1;
        }
        r
    }

    /// Appends a copy of `other` to the mesh: every half-edge, vertex and face of `other` is copied under a fresh
    /// id, and the copies name each other as the originals do; the primitives of the mesh stay as they are.
    #[verifier::rlimit(30)]
    pub fn append(&mut self, other: &Mesh<T>)
        requires
            old(self).wf(),
            other.wf(),
            old(self).room().0 >= other.vx_slot_count(),
            old(self).room().1 >= other.he_slot_count(),
            old(self).room().2 >= other.fc_slot_count(),
        ensures
            final(self).wf(),
            final(self).is_append_of(*old(self), *other),
            old(self).valid() && other.valid() ==> final(self).valid(),
    {
        let ghost m = *self;
        proof {
            other.lemma_wf();
            other.lemma_he_slots();
        }
        let blanks = Self::blank_halfedges(other);
        let hm = self.connectivity_info.halfedges.insert_many(&blanks);
        let vs = Self::copied_vertices(other, &hm);
        let vm = self.connectivity_info.vertices.insert_many(&vs);
        let fs = Self::copied_faces(other, &hm);
        let fm = self.connectivity_info.faces.insert_many(&fs);
        let ghost m1 = *self;
        let n = other.halfedge_slot_count();
        proof { other.lemma_he_slots_bound(); }
        let mut j: usize = 0;
        while j < n
            invariant
                other.wf(),
                self.wf(),
                n == other.he_slot_count(),
                n <= u32::MAX,
                j <= n,
                hm.len() == n,
                self.vertices() == m1.vertices(),
                self.faces() == m1.faces(),
                self.halfedges().dom() == m1.halfedges().dom(),
                forall|i: int| 0 <= i < n ==> (#[trigger] hm@[i] is Some <==> other.halfedges().dom().contains(i as u32)),
                forall|i: int| 0 <= i < n && hm@[i] is Some ==> !m.halfedges().dom().contains(#[trigger] hm@[i]->0.index()),
                forall|i1: int, i2: int| 0 <= i1 < n && 0 <= i2 < n && i1 != i2 && hm@[i1] is Some
                    && hm@[i2] is Some ==> #[trigger] hm@[i1]->0.index() != #[trigger] hm@[i2]->0.index(),
                forall|k: u32| #[trigger] m.halfedges().dom().contains(k) ==> self.halfedges()[k] == m.halfedges()[k],
                forall|i: int| 0 <= i < j && hm@[i] is Some ==> self.halfedges()[#[trigger] hm@[i]->0.index()]
                    == Self::copied_halfedge(hm@, vm@, fm@, other.halfedges()[i as u32]),
                m1.halfedges().dom().subset_of(self.halfedges().dom()),
                forall|i: int| 0 <= i < n && hm@[i] is Some ==> self.halfedges().dom().contains(#[trigger] hm@[i]->0.index()),
            decreases n - j,
        {
            let h = HalfEdgeID::new(j as u32);
            if let Some(id) = hm[j] {
                let (v, t, nx, f) = other.read_halfedge(h);
                let rec = HalfEdge { vertex: lookup(&vm, v), twin: lookup(&hm, t), next: lookup(&hm, nx), face: lookup(&fm, f) };
                let ghost before = self.connectivity_info.halfedges;
                proof {
                    other.lemma_wf();
                    assert(other.he_live(h));
                    self.lemma_wf();
                    assert(id.index() < before.slots().len()) by {
                        self.lemma_he_slots();
                        assert(self.he_live(id));
                    }
                }
                self.connectivity_info.halfedges.set(id, rec);
                proof {
                    crate::id_map::IDMap::lemma_view_after_set(&before, &self.connectivity_info.halfedges, id.index(), rec);
                    assert(rec == Self::copied_halfedge(hm@, vm@, fm@, other.halfedges()[j as u32]));
                    assert forall|k: u32| #[trigger] m.halfedges().dom().contains(k) implies self.halfedges()[k] == m.halfedges()[k] by {
                        assert(k != id.index());
                    }
                    assert forall|i: int| 0 <= i < j + 1 && hm@[i] is Some implies self.halfedges()[#[trigger] hm@[i]->0.index()]
                        == Self::copied_halfedge(hm@, vm@, fm@, other.halfedges()[i as u32]) by {
                        if i < j {
                            assert(hm@[i]->0.index() != id.index());
                        }
                    }
                }
            }
            j += 1;
        }
        proof {
            assert(self.is_append_with(m, *other, hm@, vm@, fm@));
            self.lemma_wf();
            if m.valid() && other.valid() {
                Self::lemma_append_keeps_valid(m, *other, *self);
            }
        }
    }

    /// Where the mesh and the appended one are valid, each copied id is a live id of the result, and an id of
    /// the result is either an old one or a copy.
    proof fn lemma_append_parts(m: Mesh<T>, other: Mesh<T>, s: Mesh<T>, hm: Seq<Option<HalfEdgeID>>,
        vm: Seq<Option<VertexID>>, fm: Seq<Option<FaceID>>)
        requires
            m.wf(),
            other.wf(),
            s.wf(),
            s.is_append_with(m, other, hm, vm, fm),
        ensures
            forall|x: HalfEdgeID| #[trigger] other.he_live(x) ==> lift(hm, Some(x)) is Some
                && s.he_live(lift(hm, Some(x))->0) && !m.he_live(lift(hm, Some(x))->0)
                && s.he(lift(hm, Some(x))->0) == Some(Self::copied_halfedge(hm, vm, fm, other.he(x)->0)),
            forall|x: VertexID| #[trigger] other.vx_live(x) ==> lift(vm, Some(x)) is Some
                && s.vx_live(lift(vm, Some(x))->0) && !m.vx_live(lift(vm, Some(x))->0)
                && s.vx(lift(vm, Some(x))->0) == Some(Vertex { halfedge: lift(hm, other.vx(x)->0.halfedge), position: other.vx(x)->0.position }),
            forall|x: FaceID| #[trigger] other.fc_live(x) ==> lift(fm, Some(x)) is Some
                && s.fc_live(lift(fm, Some(x))->0) && !m.fc_live(lift(fm, Some(x))->0)
                && s.fc(lift(fm, Some(x))->0) == Some(Face { halfedge: lift(hm, other.fc(x)->0.halfedge) }),
            forall|x: HalfEdgeID| #[trigger] m.he_live(x) ==> s.he_live(x) && s.he(x) == m.he(x),
            forall|x: VertexID| #[trigger] m.vx_live(x) ==> s.vx_live(x) && s.vx(x) == m.vx(x),
            forall|x: FaceID| #[trigger] m.fc_live(x) ==> s.fc_live(x) && s.fc(x) == m.fc(x),
            forall|x: HalfEdgeID| #[trigger] s.he_live(x) ==> m.he_live(x)
                || exists|y: HalfEdgeID| other.he_live(y) && #[trigger] lift(hm, Some(y)) == Some(x),
            forall|x: VertexID| #[trigger] s.vx_live(x) ==> m.vx_live(x)
                || exists|y: VertexID| other.vx_live(y) && #[trigger] lift(vm, Some(y)) == Some(x),
            forall|x: FaceID| #[trigger] s.fc_live(x) ==> m.fc_live(x)
                || exists|y: FaceID| other.fc_live(y) && #[trigger] lift(fm, Some(y)) == Some(x),
            forall|a: HalfEdgeID, b: HalfEdgeID| other.he_live(a) && other.he_live(b) && #[trigger] lift(hm, Some(a)) == #[trigger] lift(hm, Some(b)) ==> a == b,
            forall|a: VertexID, b: VertexID| other.vx_live(a) && other.vx_live(b) && #[trigger] lift(vm, Some(a)) == #[trigger] lift(vm, Some(b)) ==> a == b,
            forall|a: FaceID, b: FaceID| other.fc_live(a) && other.fc_live(b) && #[trigger] lift(fm, Some(a)) == #[trigger] lift(fm, Some(b)) ==> a == b,
    {
        m.lemma_wf();
        other.lemma_wf();
        s.lemma_wf();
        assert forall|x: HalfEdgeID| #[trigger] other.he_live(x) implies lift(hm, Some(x)) is Some
            && s.he_live(lift(hm, Some(x))->0) && !m.he_live(lift(hm, Some(x))->0)
            && s.he(lift(hm, Some(x))->0) == Some(Self::copied_halfedge(hm, vm, fm, other.he(x)->0)) by {
            assert(other.halfedges().dom().contains(x.index()));
        }
        assert forall|x: VertexID| #[trigger] other.vx_live(x) implies lift(vm, Some(x)) is Some
            && s.vx_live(lift(vm, Some(x))->0) && !m.vx_live(lift(vm, Some(x))->0)
            && s.vx(lift(vm, Some(x))->0) == Some(Vertex { halfedge: lift(hm, other.vx(x)->0.halfedge), position: other.vx(x)->0.position }) by {
            assert(other.vertices().dom().contains(x.index()));
        }
        assert forall|x: FaceID| #[trigger] other.fc_live(x) implies lift(fm, Some(x)) is Some
            && s.fc_live(lift(fm, Some(x))->0) && !m.fc_live(lift(fm, Some(x))->0)
            && s.fc(lift(fm, Some(x))->0) == Some(Face { halfedge: lift(hm, other.fc(x)->0.halfedge) }) by {
            assert(other.faces().dom().contains(x.index()));
        }
        assert forall|x: HalfEdgeID| #[trigger] s.he_live(x) implies m.he_live(x)
            || exists|y: HalfEdgeID| other.he_live(y) && #[trigger] lift(hm, Some(y)) == Some(x) by {
            if !m.he_live(x) {
                let j = choose|j: int| 0 <= j < hm.len() && hm[j] is Some && #[trigger] hm[j]->0.index() == x.index();
                let y = HalfEdgeID::from_index(j as u32);
                HalfEdgeID::lemma_from_index(j as u32);
                HalfEdgeID::lemma_index_injective(hm[j]->0, x);
                assert(other.halfedges().dom().contains(j as u32));
                assert(other.he_live(y));
                assert(lift(hm, Some(y)) == Some(x));
            }
        }
        assert forall|x: VertexID| #[trigger] s.vx_live(x) implies m.vx_live(x)
            || exists|y: VertexID| other.vx_live(y) && #[trigger] lift(vm, Some(y)) == Some(x) by {
            if !m.vx_live(x) {
                let j = choose|j: int| 0 <= j < vm.len() && vm[j] is Some && #[trigger] vm[j]->0.index() == x.index();
                let y = VertexID::from_index(j as u32);
                VertexID::lemma_from_index(j as u32);
                VertexID::lemma_index_injective(vm[j]->0, x);
                assert(other.vertices().dom().contains(j as u32));
                assert(other.vx_live(y));
                assert(lift(vm, Some(y)) == Some(x));
            }
        }
        assert forall|x: FaceID| #[trigger] s.fc_live(x) implies m.fc_live(x)
            || exists|y: FaceID| other.fc_live(y) && #[trigger] lift(fm, Some(y)) == Some(x) by {
            if !m.fc_live(x) {
                let j = choose|j: int| 0 <= j < fm.len() && fm[j] is Some && #[trigger] fm[j]->0.index() == x.index();
                let y = FaceID::from_index(j as u32);
                FaceID::lemma_from_index(j as u32);
                FaceID::lemma_index_injective(fm[j]->0, x);
                assert(other.faces().dom().contains(j as u32));
                assert(other.fc_live(y));
                assert(lift(fm, Some(y)) == Some(x));
            }
        }
        assert forall|a: HalfEdgeID, b: HalfEdgeID| other.he_live(a) && other.he_live(b) && #[trigger] lift(hm, Some(a)) == #[trigger] lift(hm, Some(b)) implies a == b by {
            HalfEdgeID::lemma_index_injective(a, b);
            assert(other.halfedges().dom().contains(a.index()));
            assert(other.halfedges().dom().contains(b.index()));
        }
        assert forall|a: VertexID, b: VertexID| other.vx_live(a) && other.vx_live(b) && #[trigger] lift(vm, Some(a)) == #[trigger] lift(vm, Some(b)) implies a == b by {
            VertexID::lemma_index_injective(a, b);
            assert(other.vertices().dom().contains(a.index()));
            assert(other.vertices().dom().contains(b.index()));
        }
        assert forall|a: FaceID, b: FaceID| other.fc_live(a) && other.fc_live(b) && #[trigger] lift(fm, Some(a)) == #[trigger] lift(fm, Some(b)) implies a == b by {
            FaceID::lemma_index_injective(a, b);
            assert(other.faces().dom().contains(a.index()));
            assert(other.faces().dom().contains(b.index()));
        }
    }

    /// Appending a valid mesh to a valid mesh gives a valid mesh.
    #[verifier::rlimit(40)]
    pub proof fn lemma_append_keeps_valid(m: Mesh<T>, other: Mesh<T>, s: Mesh<T>)
        requires
            m.valid(),
            other.valid(),
            s.wf(),
            s.is_append_of(m, other),
        ensures
            s.valid(),
    {
        let (hm, vm, fm) = choose|hm: Seq<Option<HalfEdgeID>>, vm: Seq<Option<VertexID>>, fm: Seq<Option<FaceID>>|
            #[trigger] s.is_append_with(m, other, hm, vm, fm);
        m.lemma_valid_wf();
        other.lemma_valid_wf();
        Self::lemma_append_parts(m, other, s, hm, vm, fm);
        // A copied half-edge is as its original, under the copies of the ids it names.
        assert forall|y: HalfEdgeID| other.he_live(y) implies #[trigger] s.halfedge_ok(lift(hm, Some(y))->0) by {
            other.lemma_halfedge_ok(y);
            let e = other.he(y)->0;
            let t = e.twin->0;
            other.lemma_halfedge_ok(t);
            assert(other.vx_live(e.vertex->0));
            assert(other.vx_live(other.vertex_of(Some(t))->0));
            if let Some(f) = e.face {
                assert(other.fc_live(f));
            }
            if let Some(n) = e.next {
                other.lemma_halfedge_ok(n);
                let n2 = other.next_of(Some(n))->0;
                other.lemma_halfedge_ok(n2);
                let tn = other.twin_of(Some(n))->0;
                other.lemma_halfedge_ok(tn);
                assert(lift(hm, Some(n)) != lift(hm, Some(y)));
                assert(lift(hm, Some(n2)) != lift(hm, Some(y)));
            }
            assert(lift(hm, Some(t)) != lift(hm, Some(y)));
            assert(lift(vm, other.vertex_of(Some(t))) != lift(vm, e.vertex));
        }
        assert forall|h: HalfEdgeID| #[trigger] s.he_live(h) implies s.halfedge_ok(h) by {
            if m.he_live(h) {
                m.lemma_halfedge_ok(h);
                let e = m.he(h)->0;
                m.lemma_halfedge_ok(e.twin->0);
                if let Some(n) = e.next {
                    m.lemma_halfedge_ok(n);
                    m.lemma_halfedge_ok(m.next_of(Some(n))->0);
                    m.lemma_halfedge_ok(m.twin_of(Some(n))->0);
                }
                if let Some(f) = e.face {
                    assert(m.fc_live(f));
                }
                assert(m.vx_live(e.vertex->0));
            } else {
                let y = choose|y: HalfEdgeID| other.he_live(y) && #[trigger] lift(hm, Some(y)) == Some(h);
                assert(s.halfedge_ok(lift(hm, Some(y))->0));
            }
        }
        assert forall|a: HalfEdgeID, b: HalfEdgeID| #[trigger] s.same_face_pair_ok(a, b) by {
            if s.he_live(a) && s.he_live(b) && s.face_of(Some(a)) is Some && s.face_of(Some(a)) == s.face_of(Some(b)) {
                if m.he_live(a) {
                    assert(m.fc_live(m.face_of(Some(a))->0)) by { m.lemma_halfedge_ok(a); }
                    if !m.he_live(b) {
                        let yb = choose|y: HalfEdgeID| other.he_live(y) && #[trigger] lift(hm, Some(y)) == Some(b);
                        other.lemma_halfedge_ok(yb);
                        assert(other.fc_live(other.face_of(Some(yb))->0));
                        assert(false);
                    }
                    m.lemma_face_members(a, b);
                } else {
                    let ya = choose|y: HalfEdgeID| other.he_live(y) && #[trigger] lift(hm, Some(y)) == Some(a);
                    other.lemma_halfedge_ok(ya);
                    assert(other.fc_live(other.face_of(Some(ya))->0));
                    if m.he_live(b) {
                        m.lemma_halfedge_ok(b);
                        assert(m.fc_live(m.face_of(Some(b))->0));
                        assert(false);
                    }
                    let yb = choose|y: HalfEdgeID| other.he_live(y) && #[trigger] lift(hm, Some(y)) == Some(b);
                    other.lemma_halfedge_ok(yb);
                    assert(other.fc_live(other.face_of(Some(yb))->0));
                    assert(lift(fm, other.face_of(Some(ya))) == lift(fm, other.face_of(Some(yb))));
                    other.lemma_face_members(ya, yb);
                    other.lemma_triangle(ya);
                }
            }
        }
        assert forall|u: VertexID| s.vx_live(u) implies #[trigger] s.vertex_ok(u) by {
            if m.vx_live(u) {
                m.lemma_vertex_ok(u);
                let h0 = m.vertex_halfedge_of(u)->0;
                m.lemma_halfedge_ok(h0);
            } else {
                let y = choose|y: VertexID| other.vx_live(y) && #[trigger] lift(vm, Some(y)) == Some(u);
                other.lemma_vertex_ok(y);
                let h0 = other.vertex_halfedge_of(y)->0;
                other.lemma_halfedge_ok(h0);
                other.lemma_halfedge_ok(other.twin_of(Some(h0))->0);
            }
        }
        assert forall|f: FaceID| s.fc_live(f) implies #[trigger] s.face_ok(f) by {
            if m.fc_live(f) {
                m.lemma_face_ok(f);
            } else {
                let y = choose|y: FaceID| other.fc_live(y) && #[trigger] lift(fm, Some(y)) == Some(f);
                other.lemma_face_ok(y);
                let h0 = other.face_halfedge_of(y)->0;
                other.lemma_halfedge_ok(h0);
            }
        }
        reveal(Mesh::valid);
    }

    /// Appends a copy of `other` to the mesh, then merges the primitives that lie on top of each other, given the
    /// groups of vertices of the result that lie on top of each other ([Mesh::merge_overlapping_primitives]).
    ///
    /// # Error
    ///
    /// Returns the error of the merge.
    pub fn merge_with(&mut self, other: &Mesh<T>, set_of_vertices_to_merge: &Vec<Vec<VertexID>>) -> (r: Result<(), Error>)
        requires
            old(self).valid(),
            other.valid(),
            old(self).room().0 >= other.vx_slot_count(),
            old(self).room().1 >= other.he_slot_count(),
            old(self).room().2 >= other.fc_slot_count(),
        ensures
            final(self).wf(),
            exists|ma: Mesh<T>| {
                &&& #[trigger] ma.is_append_of(*old(self), *other)
                &&& ma.valid()
                &&& exists|fs: Seq<FaceID>, es: Seq<HalfEdgeID>, m1: Mesh<T>, m2: Mesh<T>, m3: Mesh<T>|
                    #[trigger] final(self).overlap_merge_phases(ma, super::overlap::vertex_groups(set_of_vertices_to_merge@),
                        r is Ok, fs, es, m1, m2, m3)
            },
    {
        proof {
            self.lemma_valid_wf();
            other.lemma_valid_wf();
        }
        self.append(other);
        let ghost ma = *self;
        self.merge_overlapping_primitives(set_of_vertices_to_merge)
    }

    /// `self` is `m` with a copy of `other` appended, as [Mesh::is_append_with] says for some fresh ids.
    pub open spec fn is_append_of(&self, m: Mesh<T>, other: Mesh<T>) -> bool {
        exists|hm: Seq<Option<HalfEdgeID>>, vm: Seq<Option<VertexID>>, fm: Seq<Option<FaceID>>|
            #[trigger] self.is_append_with(m, other, hm, vm, fm)
    }
}

} // verus!
