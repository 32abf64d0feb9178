//! The half-edge mesh.
use vstd::prelude::*;

pub mod connectivity_info;
pub mod traversal;
pub mod iterators;
pub mod connectivity;
pub mod validity;
pub mod edit;
pub mod construction;
pub mod removal;
pub mod orientation;
pub mod connected_components;
pub mod component_laws;
pub mod ring_laws;
pub mod ring_cycle;
pub mod export;
pub mod cleanup;
pub mod overlap;
pub mod overlap_laws;
pub mod face_split;
pub mod edge_split;
pub mod merge;
pub mod subset;
pub mod turning;
pub mod collapse;
pub mod vertex_split;
pub mod append;

use crate::ids::{FaceID, HalfEdgeID, VertexID, ID};
use connectivity_info::{ConnectivityInfo, Face, HalfEdge, Vertex};
use traversal::Walker;

verus! {

/// A triangle mesh in half-edge form, whose vertex positions have coordinates of type `T`.
pub struct Mesh<T> {
    connectivity_info: ConnectivityInfo<T>,
}

impl<T: Copy> Mesh<T> {
    /// The internal id maps are consistent.
    pub closed spec fn wf(&self) -> bool {
        self.connectivity_info.wf()
    }

    /// The storage of the mesh.
    pub closed spec fn ci(&self) -> ConnectivityInfo<T> {
        self.connectivity_info
    }

    /// The half-edges of the mesh are those of its storage.
    pub proof fn lemma_ci(&self)
        ensures
            forall|h: HalfEdgeID| #[trigger] self.he(h) == self.ci().he(h),
    {
    }

    /// The half-edge stored under the id, whether or not it was removed; `None` for an id that was never handed out.
    pub closed spec fn he(&self, h: HalfEdgeID) -> Option<HalfEdge> {
        self.connectivity_info.he(h)
    }

    /// The vertex stored under the id, whether or not it was removed; `None` for an id that was never handed out.
    pub closed spec fn vx(&self, v: VertexID) -> Option<Vertex<T>> {
        self.connectivity_info.vx(v)
    }

    /// The face stored under the id, whether or not it was removed; `None` for an id that was never handed out.
    pub closed spec fn fc(&self, f: FaceID) -> Option<Face> {
        self.connectivity_info.fc(f)
    }

    /// The half-edges of the mesh, by index.
    pub closed spec fn halfedges(&self) -> Map<u32, HalfEdge> {
        self.connectivity_info.halfedges@
    }

    /// The vertices of the mesh, by index.
    pub closed spec fn vertices(&self) -> Map<u32, Vertex<T>> {
        self.connectivity_info.vertices@
    }

    /// The faces of the mesh, by index.
    pub closed spec fn faces(&self) -> Map<u32, Face> {
        self.connectivity_info.faces@
    }

    pub open spec fn he_live(&self, h: HalfEdgeID) -> bool {
        self.halfedges().dom().contains(h.index())
    }

    pub open spec fn vx_live(&self, v: VertexID) -> bool {
        self.vertices().dom().contains(v.index())
    }

    pub open spec fn fc_live(&self, f: FaceID) -> bool {
        self.faces().dom().contains(f.index())
    }

    /// The half-edge reached by following `next` from the given one; `None` propagates.
    pub open spec fn next_of(&self, c: Option<HalfEdgeID>) -> Option<HalfEdgeID> {
        match c {
            Some(h) => match self.he(h) {
                Some(e) => e.next,
                None => None,
            },
            None => None,
        }
    }

    /// The half-edge reached by following `twin` from the given one; `None` propagates.
    pub open spec fn twin_of(&self, c: Option<HalfEdgeID>) -> Option<HalfEdgeID> {
        match c {
            Some(h) => match self.he(h) {
                Some(e) => e.twin,
                None => None,
            },
            None => None,
        }
    }

    /// The vertex that the given half-edge points to; `None` propagates.
    pub open spec fn vertex_of(&self, c: Option<HalfEdgeID>) -> Option<VertexID> {
        match c {
            Some(h) => match self.he(h) {
                Some(e) => e.vertex,
                None => None,
            },
            None => None,
        }
    }

    /// The face of the given half-edge; `None` propagates.
    pub open spec fn face_of(&self, c: Option<HalfEdgeID>) -> Option<FaceID> {
        match c {
            Some(h) => match self.he(h) {
                Some(e) => e.face,
                None => None,
            },
            None => None,
        }
    }

    /// The half-edge of the given vertex.
    pub open spec fn vertex_halfedge_of(&self, v: VertexID) -> Option<HalfEdgeID> {
        match self.vx(v) {
            Some(x) => x.halfedge,
            None => None,
        }
    }

    /// The half-edge of the given face.
    pub open spec fn face_halfedge_of(&self, f: FaceID) -> Option<HalfEdgeID> {
        match self.fc(f) {
            Some(x) => x.halfedge,
            None => None,
        }
    }

    /// The previous half-edge around a triangle: two steps of `next`.
    pub open spec fn previous_of(&self, c: Option<HalfEdgeID>) -> Option<HalfEdgeID> {
        self.next_of(self.next_of(c))
    }

    /// The slots of the three id maps, and so the stored entries, are only ever appended to.
    pub closed spec fn slot_counts(&self) -> (nat, nat, nat) {
        (
            self.connectivity_info.vertices.slots().len(),
            self.connectivity_info.halfedges.slots().len(),
            self.connectivity_info.faces.slots().len(),
        )
    }

    /// The id that the `n`-th of a run of vertex creations hands out.
    pub closed spec fn nth_vertex_id(&self, n: nat) -> VertexID {
        VertexID::from_index(self.connectivity_info.vertices.nth_id(n))
    }

    /// The id that the `n`-th of a run of half-edge creations hands out.
    pub closed spec fn nth_halfedge_id(&self, n: nat) -> HalfEdgeID {
        HalfEdgeID::from_index(self.connectivity_info.halfedges.nth_id(n))
    }

    /// The id that the `n`-th of a run of face creations hands out.
    pub closed spec fn nth_face_id(&self, n: nat) -> FaceID {
        FaceID::from_index(self.connectivity_info.faces.nth_id(n))
    }

    /// The ids that a run of creations hands out are fresh and distinct.
    pub proof fn lemma_nth_ids(&self)
        requires
            self.wf(),
        ensures
            forall|n: nat| n < self.room().0 ==> !self.vx_live(#[trigger] self.nth_vertex_id(n)),
            forall|n: nat| n < self.room().1 ==> !self.he_live(#[trigger] self.nth_halfedge_id(n)),
            forall|n: nat| n < self.room().2 ==> !self.fc_live(#[trigger] self.nth_face_id(n)),
            forall|n: nat, m: nat| n < self.room().0 && m < self.room().0 && n != m
                ==> #[trigger] self.nth_vertex_id(n) != #[trigger] self.nth_vertex_id(m)
                    && self.nth_vertex_id(n).index() != self.nth_vertex_id(m).index(),
            forall|n: nat, m: nat| n < self.room().1 && m < self.room().1 && n != m
                ==> #[trigger] self.nth_halfedge_id(n) != #[trigger] self.nth_halfedge_id(m)
                    && self.nth_halfedge_id(n).index() != self.nth_halfedge_id(m).index(),
            forall|n: nat, m: nat| n < self.room().2 && m < self.room().2 && n != m
                ==> #[trigger] self.nth_face_id(n) != #[trigger] self.nth_face_id(m)
                    && self.nth_face_id(n).index() != self.nth_face_id(m).index(),
    {
        assert forall|n: nat| n < self.room().0 implies !self.vx_live(#[trigger] self.nth_vertex_id(n)) by {
            self.connectivity_info.vertices.lemma_nth_id(n, n);
            VertexID::lemma_from_index(self.connectivity_info.vertices.nth_id(n));
        }
        assert forall|n: nat| n < self.room().1 implies !self.he_live(#[trigger] self.nth_halfedge_id(n)) by {
            self.connectivity_info.halfedges.lemma_nth_id(n, n);
            HalfEdgeID::lemma_from_index(self.connectivity_info.halfedges.nth_id(n));
        }
        assert forall|n: nat| n < self.room().2 implies !self.fc_live(#[trigger] self.nth_face_id(n)) by {
            self.connectivity_info.faces.lemma_nth_id(n, n);
            FaceID::lemma_from_index(self.connectivity_info.faces.nth_id(n));
        }
        assert forall|n: nat, m: nat| n < self.room().0 && m < self.room().0 && n != m
            implies #[trigger] self.nth_vertex_id(n) != #[trigger] self.nth_vertex_id(m)
                && self.nth_vertex_id(n).index() != self.nth_vertex_id(m).index() by {
            self.connectivity_info.vertices.lemma_nth_id(n, m);
            VertexID::lemma_from_index(self.connectivity_info.vertices.nth_id(n));
            VertexID::lemma_from_index(self.connectivity_info.vertices.nth_id(m));
        }
        assert forall|n: nat, m: nat| n < self.room().1 && m < self.room().1 && n != m
            implies #[trigger] self.nth_halfedge_id(n) != #[trigger] self.nth_halfedge_id(m)
                && self.nth_halfedge_id(n).index() != self.nth_halfedge_id(m).index() by {
            self.connectivity_info.halfedges.lemma_nth_id(n, m);
            HalfEdgeID::lemma_from_index(self.connectivity_info.halfedges.nth_id(n));
            HalfEdgeID::lemma_from_index(self.connectivity_info.halfedges.nth_id(m));
        }
        assert forall|n: nat, m: nat| n < self.room().2 && m < self.room().2 && n != m
            implies #[trigger] self.nth_face_id(n) != #[trigger] self.nth_face_id(m)
                && self.nth_face_id(n).index() != self.nth_face_id(m).index() by {
            self.connectivity_info.faces.lemma_nth_id(n, m);
            FaceID::lemma_from_index(self.connectivity_info.faces.nth_id(n));
            FaceID::lemma_from_index(self.connectivity_info.faces.nth_id(m));
        }
    }

    /// How many more vertices, half-edges and faces can be created before the `u32` ids run out, as
    /// [Mesh::room] says.
    pub fn room_left(&self) -> (r: (u32, u32, u32))
        requires
            self.wf(),
        ensures
            r.0 == self.room().0,
            r.1 == self.room().1,
            r.2 == self.room().2,
    {
        (
            self.connectivity_info.vertices.room_left(),
            self.connectivity_info.halfedges.room_left(),
            self.connectivity_info.faces.room_left(),
        )
    }

    /// The room is what the `u32` ids leave beside the stored vertices, half-edges and faces.
    pub proof fn lemma_room(&self)
        requires
            self.wf(),
        ensures
            self.room().0 == u32::MAX - self.vertices().dom().len(),
            self.room().1 == u32::MAX - self.halfedges().dom().len(),
            self.room().2 == u32::MAX - self.faces().dom().len(),
    {
        self.connectivity_info.vertices.lemma_len();
        self.connectivity_info.halfedges.lemma_len();
        self.connectivity_info.faces.lemma_len();
    }

    /// How many more vertices, half-edges and faces can be created before the `u32` ids run out.
    pub closed spec fn room(&self) -> (int, int, int) {
        (
            self.connectivity_info.vertices.room(),
            self.connectivity_info.halfedges.room(),
            self.connectivity_info.faces.room(),
        )
    }

    /// Facts that hold of every consistent mesh.
    pub proof fn lemma_wf(&self)
        requires
            self.wf(),
        ensures
            forall|h: HalfEdgeID| self.he_live(h) ==> (#[trigger] self.he(h)) is Some && self.halfedges()[h.index()] == self.he(h)->0,
            forall|v: VertexID| self.vx_live(v) ==> (#[trigger] self.vx(v)) is Some && self.vertices()[v.index()] == self.vx(v)->0,
            forall|f: FaceID| self.fc_live(f) ==> (#[trigger] self.fc(f)) is Some && self.faces()[f.index()] == self.fc(f)->0,
            self.halfedges().dom().finite(),
            self.vertices().dom().finite(),
            self.faces().dom().finite(),
    {
        self.connectivity_info.halfedges.lemma_len();
        self.connectivity_info.vertices.lemma_len();
        self.connectivity_info.faces.lemma_len();
    }

    /// An empty walker, standing on no half-edge.
    pub(crate) fn walker(&self) -> (w: Walker<'_, T>)
        ensures
            w.on(self),
            w.current() is None,
    {
        Walker::new(self)
    }

    /// Creates a walker at the half-edge pointed to by the given vertex.
    pub fn walker_from_vertex(&self, vertex_id: VertexID) -> (w: Walker<'_, T>)
        requires
            self.vx(vertex_id) is Some,
        ensures
            w.on(self),
            w.current() == self.vertex_halfedge_of(vertex_id),
    {
        let mut w = Walker::new(self);
        w.as_vertex_halfedge_walker(vertex_id, Ghost(self));
        w
    }

    /// Creates a walker at the given half-edge.
    pub fn walker_from_halfedge(&self, halfedge_id: HalfEdgeID) -> (w: Walker<'_, T>)
        ensures
            w.on(self),
            w.current() == Some(halfedge_id),
    {
        let mut w = Walker::new(self);
        w.as_halfedge_walker(halfedge_id, Ghost(self));
        w
    }

    /// Creates a walker at the half-edge pointed to by the given face.
    pub fn walker_from_face(&self, face_id: FaceID) -> (w: Walker<'_, T>)
        requires
            self.fc(face_id) is Some,
        ensures
            w.on(self),
            w.current() == self.face_halfedge_of(face_id),
    {
        let mut w = Walker::new(self);
        w.as_face_halfedge_walker(face_id, Ghost(self));
        w
    }

    /// The number of half-edge slots, live or freed.
    pub closed spec fn he_slot_count(&self) -> nat {
        self.connectivity_info.halfedges.slots().len()
    }

    /// A stored half-edge is exactly one whose index is below the slot count.
    pub proof fn lemma_he_slots(&self)
        ensures
            forall|h: HalfEdgeID| (#[trigger] self.he(h)) is Some <==> h.index() < self.he_slot_count(),
    {
    }

    /// The number of face slots, live or freed.
    pub closed spec fn fc_slot_count(&self) -> nat {
        self.connectivity_info.faces.slots().len()
    }

    /// A stored face lies below the number of face slots.
    pub proof fn lemma_fc_slots(&self)
        ensures
            forall|f: FaceID| (#[trigger] self.fc(f)) is Some <==> f.index() < self.fc_slot_count(),
    {
    }

    /// The number of half-edge slots, live or freed.
    pub fn halfedge_slot_count(&self) -> (n: usize)
        ensures
            n == self.he_slot_count(),
    {
        self.connectivity_info.halfedges.slot_count()
    }

    /// There are at most as many half-edge slots as `u32` indices.
    pub proof fn lemma_he_slots_bound(&self)
        requires
            self.wf(),
        ensures
            self.he_slot_count() <= u32::MAX,
    {
    }

    /// There are at most as many face slots as `u32` indices.
    pub proof fn lemma_fc_slots_bound(&self)
        requires
            self.wf(),
        ensures
            self.fc_slot_count() <= u32::MAX,
    {
    }

    /// The number of vertex slots, live or freed.
    pub fn vertex_slot_count(&self) -> (n: usize)
        ensures
            n == self.vx_slot_count(),
    {
        self.connectivity_info.vertices.slot_count()
    }

    /// The number of vertex slots, live or freed.
    pub closed spec fn vx_slot_count(&self) -> nat {
        self.connectivity_info.vertices.slots().len()
    }

    /// The number of face slots, live or freed.
    pub fn face_slot_count(&self) -> (n: usize)
        ensures
            n == self.fc_slot_count(),
    {
        self.connectivity_info.faces.slot_count()
    }

    /// The two meshes hand out the same ids when primitives are created.
    pub closed spec fn same_ids(&self, other: &Mesh<T>) -> bool {
        &&& self.connectivity_info.vertices.free_indices() == other.connectivity_info.vertices.free_indices()
        &&& self.connectivity_info.halfedges.free_indices() == other.connectivity_info.halfedges.free_indices()
        &&& self.connectivity_info.faces.free_indices() == other.connectivity_info.faces.free_indices()
        &&& self.slot_counts() == other.slot_counts()
    }

    /// Meshes that hand out the same ids have the same room.
    pub proof fn lemma_same_ids(&self, other: &Mesh<T>)
        requires
            self.same_ids(other),
        ensures
            self.room() == other.room(),
            forall|n: nat| #[trigger] self.nth_vertex_id(n) == other.nth_vertex_id(n),
            forall|n: nat| #[trigger] self.nth_halfedge_id(n) == other.nth_halfedge_id(n),
            forall|n: nat| #[trigger] self.nth_face_id(n) == other.nth_face_id(n),
    {
    }

    pub closed spec fn same_vertices_faces(&self, other: &Mesh<T>) -> bool {
        &&& self.connectivity_info.vertices == other.connectivity_info.vertices
        &&& self.connectivity_info.faces == other.connectivity_info.faces
    }

    /// The two meshes store the same vertices and half-edges, slot for slot.
    pub closed spec fn same_vertices_halfedges(&self, other: &Mesh<T>) -> bool {
        &&& self.connectivity_info.vertices == other.connectivity_info.vertices
        &&& self.connectivity_info.halfedges == other.connectivity_info.halfedges
    }

    /// The two meshes store the same half-edges and faces, slot for slot.
    pub closed spec fn same_halfedges_faces(&self, other: &Mesh<T>) -> bool {
        &&& self.connectivity_info.halfedges == other.connectivity_info.halfedges
        &&& self.connectivity_info.faces == other.connectivity_info.faces
    }

    /// The half-edge stored under the id, with its twin left out.
    pub open spec fn shape(&self, h: HalfEdgeID) -> Option<HalfEdge> {
        match self.he(h) {
            Some(e) => Some(HalfEdge { twin: None, ..e }),
            None => None,
        }
    }

    /// Creates a half-edge with the given vertex, next half-edge and face, and no twin.
    pub(crate) fn new_halfedge(&mut self, vertex: Option<VertexID>, next: Option<HalfEdgeID>, face: Option<FaceID>) -> (id: HalfEdgeID)
        requires
            old(self).wf(),
            old(self).room().1 >= 1,
        ensures
            final(self).wf(),
            id == old(self).nth_halfedge_id(0),
            !old(self).he_live(id),
            final(self).halfedges() == old(self).halfedges().insert(id.index(), HalfEdge { vertex, twin: None, next, face }),
            final(self).he(id) == Some(HalfEdge { vertex, twin: None, next, face }),
            forall|x: HalfEdgeID| x.index() != id.index() ==> #[trigger] final(self).he(x) == old(self).he(x),
            final(self).same_vertices_faces(old(self)),
            final(self).room().0 == old(self).room().0,
            final(self).room().1 == old(self).room().1 - 1,
            final(self).room().2 == old(self).room().2,
            forall|n: nat| #[trigger] final(self).nth_halfedge_id(n) == old(self).nth_halfedge_id(n + 1),
            forall|n: nat| #[trigger] final(self).nth_vertex_id(n) == old(self).nth_vertex_id(n),
            forall|n: nat| #[trigger] final(self).nth_face_id(n) == old(self).nth_face_id(n),
    {
        let id = self.connectivity_info.new_halfedge(vertex, next, face);
        proof {
            HalfEdgeID::lemma_index_injective(id, old(self).nth_halfedge_id(0));
            HalfEdgeID::lemma_from_index(old(self).connectivity_info.halfedges.nth_id(0));
        }
        id
    }

    /// Creates a face from an existing half-edge, which points to `v2`, and two new half-edges:
    /// the next one points to `v3`, the last one to `v1`. Returns the face.
    pub(crate) fn new_face_on(&mut self, v1: VertexID, v2: VertexID, v3: VertexID, h: HalfEdgeID) -> (id: FaceID)
        requires
            old(self).wf(),
            old(self).room().1 >= 2,
            old(self).room().2 >= 1,
            old(self).he_live(h),
            old(self).vx_live(v1),
            old(self).vx_live(v2),
            old(self).vx_live(v3),
        ensures
            ({
                let f = old(self).nth_face_id(0);
                let a3 = old(self).nth_halfedge_id(0);
                let a2 = old(self).nth_halfedge_id(1);
                let e = old(self).halfedges()[h.index()];
                &&& id == f
                &&& final(self).wf()
                &&& final(self).halfedges() == old(self).halfedges()
                    .insert(a3.index(), HalfEdge { vertex: Some(v1), twin: None, next: Some(h), face: Some(f) })
                    .insert(a2.index(), HalfEdge { vertex: Some(v3), twin: None, next: Some(a3), face: Some(f) })
                    .insert(h.index(), HalfEdge { next: Some(a2), face: Some(f), ..e })
                &&& forall|x: HalfEdgeID| x.index() != h.index() && x.index() != a2.index() && x.index() != a3.index()
                    ==> #[trigger] final(self).he(x) == old(self).he(x)
                &&& final(self).faces() == old(self).faces().insert(f.index(), Face { halfedge: Some(h) })
                &&& forall|g: FaceID| g.index() != f.index() ==> #[trigger] final(self).fc(g) == old(self).fc(g)
                &&& final(self).vertices() == old(self).vertices()
                    .insert(v1.index(), Vertex { halfedge: Some(h), ..old(self).vertices()[v1.index()] })
                    .insert(v2.index(), Vertex { halfedge: Some(a2), ..old(self).vertices().insert(v1.index(), Vertex { halfedge: Some(h), ..old(self).vertices()[v1.index()] })[v2.index()] })
                    .insert(v3.index(), Vertex { halfedge: Some(a3), ..old(self).vertices()
                        .insert(v1.index(), Vertex { halfedge: Some(h), ..old(self).vertices()[v1.index()] })
                        .insert(v2.index(), Vertex { halfedge: Some(a2), ..old(self).vertices().insert(v1.index(), Vertex { halfedge: Some(h), ..old(self).vertices()[v1.index()] })[v2.index()] })[v3.index()] })
                &&& forall|x: VertexID| x.index() != v1.index() && x.index() != v2.index() && x.index() != v3.index()
                    ==> #[trigger] final(self).vx(x) == old(self).vx(x)
                &&& final(self).room().0 == old(self).room().0
                &&& final(self).room().1 == old(self).room().1 - 2
                &&& final(self).room().2 == old(self).room().2 - 1
                &&& forall|n: nat| #[trigger] final(self).nth_halfedge_id(n) == old(self).nth_halfedge_id(n + 2)
                &&& forall|n: nat| #[trigger] final(self).nth_face_id(n) == old(self).nth_face_id(n + 1)
                &&& forall|n: nat| #[trigger] final(self).nth_vertex_id(n) == old(self).nth_vertex_id(n)
            }),
    {
        proof { self.lemma_wf(); }
        let ghost vb = self.connectivity_info.vertices;
        let id = self.connectivity_info.create_face_with_existing_halfedge(v1, v2, v3, h);
        proof {
            let a3 = old(self).nth_halfedge_id(0);
            let a2 = old(self).nth_halfedge_id(1);
            HalfEdgeID::lemma_from_index(old(self).connectivity_info.halfedges.nth_id(0));
            HalfEdgeID::lemma_from_index(old(self).connectivity_info.halfedges.nth_id(1));
            FaceID::lemma_from_index(old(self).connectivity_info.faces.nth_id(0));
            let s1 = connectivity_info::with_vertex_halfedge(vb.slots(), v1, Some(h));
            let s2 = connectivity_info::with_vertex_halfedge(s1, v2, Some(a2));
            let m0 = vb@;
            let m1 = m0.insert(v1.index(), Vertex { halfedge: Some(h), ..m0[v1.index()] });
            let m2 = m1.insert(v2.index(), Vertex { halfedge: Some(a2), ..m1[v2.index()] });
            let m3 = m2.insert(v3.index(), Vertex { halfedge: Some(a3), ..m2[v3.index()] });
            assert(self.connectivity_info.vertices@ =~= m3);
            assert forall|x: VertexID| x.index() != v1.index() && x.index() != v2.index() && x.index() != v3.index()
                implies #[trigger] self.vx(x) == old(self).vx(x) by {}
            assert forall|n: nat| #[trigger] self.nth_vertex_id(n) == old(self).nth_vertex_id(n) by {}
        }
        id
    }

    /// Sets the `next` of a stored half-edge.
    pub(crate) fn set_next(&mut self, h: HalfEdgeID, n: Option<HalfEdgeID>)
        requires
            old(self).wf(),
            old(self).he_live(h),
        ensures
            final(self).wf(),
            final(self).halfedges() == old(self).halfedges().insert(h.index(), HalfEdge { next: n, ..old(self).halfedges()[h.index()] }),
            final(self).he(h) == Some(HalfEdge { next: n, ..old(self).he(h)->0 }),
            forall|x: HalfEdgeID| x.index() != h.index() ==> #[trigger] final(self).he(x) == old(self).he(x),
            final(self).same_vertices_faces(old(self)),
            final(self).same_ids(old(self)),
            final(self).slot_counts() == old(self).slot_counts(),
            final(self).room() == old(self).room(),
    {
        proof { self.lemma_wf(); }
        let ghost before = self.connectivity_info.halfedges;
        self.connectivity_info.set_halfedge_next(h, n);
        proof {
            crate::id_map::IDMap::lemma_view_after_set(&before, &self.connectivity_info.halfedges, h.index(), HalfEdge { next: n, ..old(self).he(h)->0 });
        }
    }

    /// Sets the vertex of a stored half-edge.
    pub(crate) fn set_vertex(&mut self, h: HalfEdgeID, v: VertexID)
        requires
            old(self).wf(),
            old(self).he_live(h),
        ensures
            final(self).wf(),
            final(self).halfedges() == old(self).halfedges().insert(h.index(), HalfEdge { vertex: Some(v), ..old(self).halfedges()[h.index()] }),
            final(self).he(h) == Some(HalfEdge { vertex: Some(v), ..old(self).he(h)->0 }),
            forall|x: HalfEdgeID| x.index() != h.index() ==> #[trigger] final(self).he(x) == old(self).he(x),
            final(self).same_vertices_faces(old(self)),
            final(self).same_ids(old(self)),
            final(self).slot_counts() == old(self).slot_counts(),
            final(self).room() == old(self).room(),
    {
        proof { self.lemma_wf(); }
        let ghost before = self.connectivity_info.halfedges;
        self.connectivity_info.set_halfedge_vertex(h, v);
        proof {
            crate::id_map::IDMap::lemma_view_after_set(&before, &self.connectivity_info.halfedges, h.index(), HalfEdge { vertex: Some(v), ..old(self).he(h)->0 });
        }
    }

    /// Sets the face of a stored half-edge.
    pub(crate) fn set_face(&mut self, h: HalfEdgeID, f: Option<FaceID>)
        requires
            old(self).wf(),
            old(self).he_live(h),
        ensures
            final(self).wf(),
            final(self).halfedges() == old(self).halfedges().insert(h.index(), HalfEdge { face: f, ..old(self).halfedges()[h.index()] }),
            final(self).he(h) == Some(HalfEdge { face: f, ..old(self).he(h)->0 }),
            forall|x: HalfEdgeID| x.index() != h.index() ==> #[trigger] final(self).he(x) == old(self).he(x),
            final(self).same_vertices_faces(old(self)),
            final(self).same_ids(old(self)),
            final(self).slot_counts() == old(self).slot_counts(),
            final(self).room() == old(self).room(),
    {
        proof { self.lemma_wf(); }
        let ghost before = self.connectivity_info.halfedges;
        self.connectivity_info.set_halfedge_face(h, f);
        proof {
            crate::id_map::IDMap::lemma_view_after_set(&before, &self.connectivity_info.halfedges, h.index(), HalfEdge { face: f, ..old(self).he(h)->0 });
        }
    }

    /// The stored half-edge no longer names a twin.
    pub(crate) fn clear_twin(&mut self, h: HalfEdgeID)
        requires
            old(self).wf(),
            old(self).he_live(h),
        ensures
            final(self).wf(),
            final(self).halfedges() == old(self).halfedges().insert(h.index(), HalfEdge { twin: None, ..old(self).halfedges()[h.index()] }),
            final(self).he(h) == Some(HalfEdge { twin: None, ..old(self).he(h)->0 }),
            forall|x: HalfEdgeID| x.index() != h.index() ==> #[trigger] final(self).he(x) == old(self).he(x),
            forall|x: HalfEdgeID| #[trigger] final(self).shape(x) == old(self).shape(x),
            final(self).same_vertices_faces(old(self)),
            final(self).same_ids(old(self)),
    {
        proof { self.lemma_wf(); }
        let ghost before = self.connectivity_info.halfedges;
        self.connectivity_info.remove_halfedge_twin(h);
        proof {
            crate::id_map::IDMap::lemma_view_after_set(&before, &self.connectivity_info.halfedges, h.index(), HalfEdge { twin: None, ..old(self).he(h)->0 });
            assert forall|x: HalfEdgeID| #[trigger] self.shape(x) == old(self).shape(x) by {
                HalfEdgeID::lemma_index_injective(x, h);
            }
        }
    }

    /// Makes two stored half-edges twins of each other.
    pub(crate) fn set_twins(&mut self, a: HalfEdgeID, b: HalfEdgeID)
        requires
            old(self).wf(),
            old(self).he_live(a),
            old(self).he_live(b),
        ensures
            final(self).wf(),
            final(self).halfedges() == old(self).halfedges()
                .insert(a.index(), HalfEdge { twin: Some(b), ..old(self).halfedges()[a.index()] })
                .insert(b.index(), HalfEdge { twin: Some(a), ..old(self).halfedges().insert(a.index(), HalfEdge { twin: Some(b), ..old(self).halfedges()[a.index()] })[b.index()] }),
            final(self).he(a)->0.twin == Some(b) || a.index() == b.index(),
            final(self).he(b)->0.twin == Some(a),
            forall|x: HalfEdgeID| x.index() != a.index() && x.index() != b.index() ==> #[trigger] final(self).he(x) == old(self).he(x),
            forall|x: HalfEdgeID| #[trigger] final(self).shape(x) == old(self).shape(x),
            final(self).same_vertices_faces(old(self)),
            final(self).same_ids(old(self)),
            final(self).slot_counts() == old(self).slot_counts(),
            final(self).room() == old(self).room(),
    {
        proof { self.lemma_wf(); }
        let ghost before = self.connectivity_info.halfedges;
        let ghost ea = HalfEdge { twin: Some(b), ..old(self).he(a)->0 };
        self.connectivity_info.set_halfedge_twin(a, b);
        proof {
            let mid = before.slots().update(a.index() as int, ea);
            let eb = HalfEdge { twin: Some(a), ..mid[b.index() as int] };
            let mid_map = if before.is_live(a.index()) { before@.insert(a.index(), ea) } else { before@ };
            assert(mid_map == before@.insert(a.index(), ea));
            assert(self.connectivity_info.halfedges@ =~= before@.insert(a.index(), ea).insert(b.index(), eb)) by {
                assert(self.connectivity_info.halfedges.slots() == mid.update(b.index() as int, eb));
            }
            assert forall|x: HalfEdgeID| #[trigger] self.shape(x) == old(self).shape(x) by {
                HalfEdgeID::lemma_index_injective(x, a);
                HalfEdgeID::lemma_index_injective(x, b);
            }
        }
    }

    /// Points a stored vertex to a half-edge.
    pub(crate) fn set_vertex_halfedge(&mut self, v: VertexID, h: Option<HalfEdgeID>)
        requires
            old(self).wf(),
            old(self).vx_live(v),
        ensures
            final(self).wf(),
            final(self).vertices() == old(self).vertices().insert(v.index(), Vertex { halfedge: h, ..old(self).vertices()[v.index()] }),
            final(self).vx(v) == Some(Vertex { halfedge: h, ..old(self).vx(v)->0 }),
            forall|x: VertexID| x.index() != v.index() ==> #[trigger] final(self).vx(x) == old(self).vx(x),
            final(self).same_halfedges_faces(old(self)),
            final(self).same_ids(old(self)),
            final(self).slot_counts() == old(self).slot_counts(),
            final(self).room() == old(self).room(),
    {
        proof { self.lemma_wf(); }
        let ghost before = self.connectivity_info.vertices;
        self.connectivity_info.set_vertex_halfedge(v, h);
        proof {
            crate::id_map::IDMap::lemma_view_after_set(&before, &self.connectivity_info.vertices, v.index(), Vertex { halfedge: h, ..old(self).vx(v)->0 });
        }
    }

    /// Points a stored face to a half-edge.
    pub(crate) fn set_face_halfedge(&mut self, f: FaceID, h: HalfEdgeID)
        requires
            old(self).wf(),
            old(self).fc_live(f),
        ensures
            final(self).wf(),
            final(self).faces() == old(self).faces().insert(f.index(), Face { halfedge: Some(h) }),
            final(self).fc(f) == Some(Face { halfedge: Some(h) }),
            forall|x: FaceID| x.index() != f.index() ==> #[trigger] final(self).fc(x) == old(self).fc(x),
            final(self).same_vertices_halfedges(old(self)),
            final(self).same_ids(old(self)),
            final(self).slot_counts() == old(self).slot_counts(),
            final(self).room() == old(self).room(),
    {
        proof { self.lemma_wf(); }
        let ghost before = self.connectivity_info.faces;
        self.connectivity_info.set_face_halfedge(f, h);
        proof {
            crate::id_map::IDMap::lemma_view_after_set(&before, &self.connectivity_info.faces, f.index(), Face { halfedge: Some(h) });
        }
    }

    /// Removes a half-edge; its twin, if it is in the mesh, no longer names a twin.
    pub(crate) fn drop_halfedge(&mut self, h: HalfEdgeID)
        requires
            old(self).wf(),
            old(self).he_live(h),
            old(self).he(h)->0.twin matches Some(t) ==> old(self).he(t) is Some,
        ensures
            final(self).wf(),
            final(self).halfedges() == (match old(self).he(h)->0.twin {
                Some(t) => if old(self).he_live(t) {
                    old(self).halfedges().insert(t.index(), HalfEdge { twin: None, ..old(self).halfedges()[t.index()] })
                } else {
                    old(self).halfedges()
                },
                None => old(self).halfedges(),
            }).remove(h.index()),
            forall|x: HalfEdgeID| x.index() != h.index() && (old(self).he(h)->0.twin matches Some(t) ==> x.index() != t.index())
                ==> #[trigger] final(self).he(x) == old(self).he(x),
            final(self).same_vertices_faces(old(self)),
            final(self).room().0 == old(self).room().0,
            final(self).room().1 == old(self).room().1 + 1,
            final(self).room().2 == old(self).room().2,
            final(self).nth_halfedge_id(0) == h,
            forall|n: nat| #[trigger] final(self).nth_halfedge_id(n + 1) == old(self).nth_halfedge_id(n),
            forall|n: nat| #[trigger] final(self).nth_vertex_id(n) == old(self).nth_vertex_id(n),
            forall|n: nat| #[trigger] final(self).nth_face_id(n) == old(self).nth_face_id(n),
    {
        proof { self.lemma_wf(); }
        let ghost before = self.connectivity_info.halfedges;
        self.connectivity_info.remove_halfedge(h);
        proof {
            let hm = old(self).halfedges();
            let hm1 = match old(self).he(h)->0.twin {
                Some(t) => if old(self).he_live(t) {
                    hm.insert(t.index(), HalfEdge { twin: None, ..hm[t.index()] })
                } else {
                    hm
                },
                None => hm,
            };
            let a = before;
            let b = self.connectivity_info.halfedges;
            assert forall|i: u32| b.is_live(i) <==> (a.is_live(i) && i != h.index()) by {
                assert(b.free_indices()[a.free_indices().len() as int] == h.index());
                if a.free_indices().contains(i) {
                    let j = choose|j: int| 0 <= j < a.free_indices().len() && a.free_indices()[j] == i;
                    assert(b.free_indices()[j] == i);
                }
                if b.free_indices().contains(i) && i != h.index() {
                    let j = choose|j: int| 0 <= j < b.free_indices().len() && b.free_indices()[j] == i;
                    assert(a.free_indices()[j] == i);
                }
            }
            assert(self.halfedges() =~= hm1.remove(h.index()));
            HalfEdgeID::lemma_index_injective(h, HalfEdgeID::from_index(h.index()));
            HalfEdgeID::lemma_from_index(h.index());
            assert forall|n: nat| #[trigger] self.nth_halfedge_id(n + 1) == old(self).nth_halfedge_id(n) by {}
        }
    }

    /// Removes a face.
    pub(crate) fn drop_face(&mut self, f: FaceID)
        requires
            old(self).wf(),
            old(self).fc_live(f),
        ensures
            final(self).wf(),
            final(self).faces() == old(self).faces().remove(f.index()),
            forall|x: FaceID| #[trigger] final(self).fc(x) == old(self).fc(x),
            final(self).same_vertices_halfedges(old(self)),
            final(self).room().0 == old(self).room().0,
            final(self).room().1 == old(self).room().1,
            final(self).room().2 == old(self).room().2 + 1,
            final(self).nth_face_id(0) == f,
            forall|n: nat| #[trigger] final(self).nth_face_id(n + 1) == old(self).nth_face_id(n),
            forall|n: nat| #[trigger] final(self).nth_vertex_id(n) == old(self).nth_vertex_id(n),
            forall|n: nat| #[trigger] final(self).nth_halfedge_id(n) == old(self).nth_halfedge_id(n),
    {
        self.connectivity_info.remove_face(f);
        proof {
            FaceID::lemma_index_injective(f, FaceID::from_index(f.index()));
            FaceID::lemma_from_index(f.index());
            assert forall|n: nat| #[trigger] self.nth_face_id(n + 1) == old(self).nth_face_id(n) by {}
        }
    }

    /// Removes a vertex.
    pub(crate) fn drop_vertex(&mut self, v: VertexID)
        requires
            old(self).wf(),
            old(self).vx_live(v),
        ensures
            final(self).wf(),
            final(self).vertices() == old(self).vertices().remove(v.index()),
            forall|x: VertexID| #[trigger] final(self).vx(x) == old(self).vx(x),
            final(self).same_halfedges_faces(old(self)),
            final(self).room().0 == old(self).room().0 + 1,
            final(self).room().1 == old(self).room().1,
            final(self).room().2 == old(self).room().2,
            final(self).nth_vertex_id(0) == v,
            forall|n: nat| #[trigger] final(self).nth_vertex_id(n + 1) == old(self).nth_vertex_id(n),
            forall|n: nat| #[trigger] final(self).nth_face_id(n) == old(self).nth_face_id(n),
            forall|n: nat| #[trigger] final(self).nth_halfedge_id(n) == old(self).nth_halfedge_id(n),
    {
        self.connectivity_info.remove_vertex(v);
        proof {
            VertexID::lemma_index_injective(v, VertexID::from_index(v.index()));
            VertexID::lemma_from_index(v.index());
            assert forall|n: nat| #[trigger] self.nth_vertex_id(n + 1) == old(self).nth_vertex_id(n) by {}
        }
    }

    /// The fields of the half-edge, read through a walker.
    pub(crate) fn read_halfedge(&self, h: HalfEdgeID) -> (r: (Option<VertexID>, Option<HalfEdgeID>, Option<HalfEdgeID>, Option<FaceID>))
        ensures
            r == (self.vertex_of(Some(h)), self.twin_of(Some(h)), self.next_of(Some(h)), self.face_of(Some(h))),
    {
        let w = self.walker_from_halfedge(h);
        proof { w.lemma_reads(self); }
        (w.vertex_id(), w.twin_id(), w.next_id(), w.face_id())
    }

    /// A copy of the mesh, with the same ids, which hands out the same ids when primitives are created.
    pub fn duplicate(&self) -> (m: Self)
        requires
            self.wf(),
        ensures
            m.wf(),
            m.halfedges() == self.halfedges(),
            m.vertices() == self.vertices(),
            m.faces() == self.faces(),
            forall|h: HalfEdgeID| #[trigger] m.he(h) == self.he(h),
            forall|v: VertexID| #[trigger] m.vx(v) == self.vx(v),
            forall|f: FaceID| #[trigger] m.fc(f) == self.fc(f),
            m.room() == self.room(),
            m.slot_counts() == self.slot_counts(),
            m.same_ids(self),
    {
        Mesh { connectivity_info: self.connectivity_info.duplicate() }
    }

    /// Moves the vertex to the specified position.
    pub fn move_vertex_to(&mut self, vertex_id: VertexID, value: [T; 3])
        requires
            old(self).wf(),
            old(self).vx_live(vertex_id),
        ensures
            final(self).wf(),
            final(self).vertices() == old(self).vertices().insert(vertex_id.index(), Vertex { position: value, ..old(self).vertices()[vertex_id.index()] }),
            forall|x: VertexID| x.index() != vertex_id.index() ==> #[trigger] final(self).vx(x) == old(self).vx(x),
            final(self).same_halfedges_faces(old(self)),
            final(self).same_ids(old(self)),
    {
        proof { self.lemma_wf(); }
        let ghost before = self.connectivity_info.vertices;
        self.connectivity_info.set_position(vertex_id, value);
        proof {
            crate::id_map::IDMap::lemma_view_after_set(&before, &self.connectivity_info.vertices, vertex_id.index(), Vertex { position: value, ..old(self).vx(vertex_id)->0 });
        }
    }

    /// The half-edge stored under the id, if any.
    pub(crate) fn stored_halfedge(&self, h: HalfEdgeID) -> (e: Option<HalfEdge>)
        ensures
            e == self.he(h),
    {
        self.connectivity_info.halfedge(h)
    }

    /// The next half-edge of the given one; `None` propagates.
    pub(crate) fn next_id_of(&self, c: Option<HalfEdgeID>) -> (r: Option<HalfEdgeID>)
        ensures
            r == self.next_of(c),
    {
        match c {
            Some(h) => match self.stored_halfedge(h) {
                Some(e) => e.next,
                None => None,
            },
            None => None,
        }
    }

    /// The twin of the given half-edge; `None` propagates.
    pub(crate) fn twin_id_of(&self, c: Option<HalfEdgeID>) -> (r: Option<HalfEdgeID>)
        ensures
            r == self.twin_of(c),
    {
        match c {
            Some(h) => match self.stored_halfedge(h) {
                Some(e) => e.twin,
                None => None,
            },
            None => None,
        }
    }

    /// The face of the given half-edge; `None` propagates.
    pub(crate) fn face_id_of(&self, c: Option<HalfEdgeID>) -> (r: Option<FaceID>)
        ensures
            r == self.face_of(c),
    {
        match c {
            Some(h) => match self.stored_halfedge(h) {
                Some(e) => e.face,
                None => None,
            },
            None => None,
        }
    }

    /// The half-edge that the face stored under the id names.
    pub(crate) fn stored_face_halfedge(&self, f: FaceID) -> (h: Option<HalfEdgeID>)
        requires
            self.fc(f) is Some,
        ensures
            h == self.face_halfedge_of(f),
    {
        self.connectivity_info.face_halfedge(f)
    }

    /// Whether the half-edge is in the mesh.
    pub fn contains_halfedge(&self, h: HalfEdgeID) -> (b: bool)
        requires
            self.wf(),
        ensures
            b == self.he_live(h),
    {
        self.connectivity_info.halfedges.contains_id(h)
    }

    /// Whether the vertex is in the mesh.
    pub fn contains_vertex(&self, v: VertexID) -> (b: bool)
        requires
            self.wf(),
        ensures
            b == self.vx_live(v),
    {
        self.connectivity_info.vertices.contains_id(v)
    }

    /// Whether the face is in the mesh.
    pub fn contains_face(&self, f: FaceID) -> (b: bool)
        requires
            self.wf(),
        ensures
            b == self.fc_live(f),
    {
        self.connectivity_info.faces.contains_id(f)
    }

    /// Returns the number of vertices in the mesh.
    pub fn no_vertices(&self) -> (n: usize)
        requires
            self.wf(),
        ensures
            n == self.vertices().dom().len(),
    {
        self.connectivity_info.no_vertices()
    }

    /// Returns the number of edges in the mesh.
    pub fn no_edges(&self) -> (n: usize)
        requires
            self.wf(),
        ensures
            n == self.halfedges().dom().len() / 2,
    {
        self.connectivity_info.no_halfedges() / 2
    }

    /// Returns the number of half-edges in the mesh.
    pub fn no_halfedges(&self) -> (n: usize)
        requires
            self.wf(),
        ensures
            n == self.halfedges().dom().len(),
    {
        self.connectivity_info.no_halfedges()
    }

    /// Returns the number of faces in the mesh.
    pub fn no_faces(&self) -> (n: usize)
        requires
            self.wf(),
        ensures
            n == self.faces().dom().len(),
    {
        self.connectivity_info.no_faces()
    }

    /// Returns the vertex position.
    pub fn position(&self, vertex_id: VertexID) -> (p: [T; 3])
        requires
            self.vx(vertex_id) is Some,
        ensures
            p == self.vx(vertex_id)->0.position,
    {
        self.connectivity_info.position(vertex_id)
    }

    /// Returns the vertex position.
    pub fn vertex_position(&self, vertex_id: VertexID) -> (p: [T; 3])
        requires
            self.vx(vertex_id) is Some,
        ensures
            p == self.vx(vertex_id)->0.position,
    {
        self.connectivity_info.position(vertex_id)
    }
}

} // verus!
