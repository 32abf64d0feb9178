//! A [Walker] for easy and efficient traversal of the mesh.
use vstd::prelude::*;
use crate::ids::{FaceID, HalfEdgeID, VertexID, ID};
use super::Mesh;
use super::connectivity_info::{ConnectivityInfo, HalfEdge};

verus! {

/// Used for easy and efficient traversal of the mesh.
///
/// If the walker walks outside the mesh at some point, no error is returned;
/// instead all methods that extract an id return `None`.
#[derive(Clone, Debug)]
pub struct Walker<'a, T> {
    connectivity_info: &'a ConnectivityInfo<T>,
    current: Option<HalfEdgeID>,
    current_info: Option<HalfEdge>,
}

impl<'a, T: Copy> Walker<'a, T> {
    /// The half-edge the walker stands on, or `None` once it has walked outside the mesh.
    pub closed spec fn current(&self) -> Option<HalfEdgeID> {
        self.current
    }

    /// The storage the walker reads.
    pub closed spec fn source(&self) -> ConnectivityInfo<T> {
        *self.connectivity_info
    }

    /// The half-edge stored under the id in the mesh the walker reads.
    pub open spec fn he_at(&self, h: HalfEdgeID) -> Option<HalfEdge> {
        self.source().he(h)
    }

    /// The cached half-edge is the one the walker stands on.
    pub closed spec fn inv(&self) -> bool {
        self.current_info == match self.current {
            Some(h) => self.connectivity_info.he(h),
            None => None,
        }
    }

    /// The walker reads the given mesh.
    pub open spec fn reads(&self, mesh: &Mesh<T>) -> bool {
        self.source() == mesh.ci()
    }

    /// The walker is consistent and reads the given mesh.
    pub open spec fn on(&self, mesh: &Mesh<T>) -> bool {
        self.inv() && self.reads(mesh)
    }

    /// The walker reads the same mesh as the other one.
    pub open spec fn same_source(&self, other: &Walker<'a, T>) -> bool {
        self.source() == other.source()
    }

    /// The half-edge of the current one, in the mesh the walker reads.
    pub open spec fn info(&self) -> Option<HalfEdge> {
        match self.current() {
            Some(h) => self.he_at(h),
            None => None,
        }
    }

    pub open spec fn next_w(&self, c: Option<HalfEdgeID>) -> Option<HalfEdgeID> {
        match c {
            Some(h) => match self.he_at(h) {
                Some(e) => e.next,
                None => None,
            },
            None => None,
        }
    }

    pub open spec fn twin_w(&self, c: Option<HalfEdgeID>) -> Option<HalfEdgeID> {
        match c {
            Some(h) => match self.he_at(h) {
                Some(e) => e.twin,
                None => None,
            },
            None => None,
        }
    }

    /// Reading a mesh means seeing its half-edges.
    pub proof fn lemma_reads(&self, mesh: &Mesh<T>)
        requires
            self.reads(mesh),
        ensures
            forall|h: HalfEdgeID| #[trigger] self.he_at(h) == mesh.he(h),
    {
        mesh.lemma_ci();
    }

    pub(crate) fn new(mesh: &'a Mesh<T>) -> (w: Self)
        ensures
            w.on(mesh),
            w.current() is None,
    {
        Walker { current: None, current_info: None, connectivity_info: &mesh.connectivity_info }
    }

    fn set_current(&mut self, halfedge_id: Option<HalfEdgeID>, Ghost(mesh): Ghost<&Mesh<T>>)
        requires
            old(self).on(mesh),
        ensures
            final(self).on(mesh),
            final(self).current() == halfedge_id,
    {
        self.set_current_info(halfedge_id);
    }

    fn set_current_info(&mut self, halfedge_id: Option<HalfEdgeID>)
        requires
            old(self).inv(),
        ensures
            final(self).inv(),
            final(self).same_source(old(self)),
            final(self).current() == halfedge_id,
    {
        self.current_info = if let Some(id) = halfedge_id {
            self.connectivity_info.halfedge(id)
        } else {
            None
        };
        self.current = halfedge_id;
    }

    /// Jumps to the half-edge of the given vertex.
    pub(crate) fn as_vertex_halfedge_walker(&mut self, vertex_id: VertexID, Ghost(mesh): Ghost<&Mesh<T>>) -> (r: &mut Self)
        requires
            old(self).on(mesh),
            mesh.vx(vertex_id) is Some,
        ensures
            r.on(mesh),
            r.current() == mesh.vertex_halfedge_of(vertex_id),
            *final(self) == *final(r),
    {
        let halfedge_id = self.connectivity_info.vertex_halfedge(vertex_id);
        self.set_current(halfedge_id, Ghost(mesh));
        self
    }

    /// Jumps to the given half-edge.
    pub(crate) fn as_halfedge_walker(&mut self, halfedge_id: HalfEdgeID, Ghost(mesh): Ghost<&Mesh<T>>) -> (r: &mut Self)
        requires
            old(self).on(mesh),
        ensures
            r.on(mesh),
            r.current() == Some(halfedge_id),
            *final(self) == *final(r),
    {
        self.set_current(Some(halfedge_id), Ghost(mesh));
        self
    }

    /// Jumps to the half-edge of the given face.
    pub(crate) fn as_face_halfedge_walker(&mut self, face_id: FaceID, Ghost(mesh): Ghost<&Mesh<T>>) -> (r: &mut Self)
        requires
            old(self).on(mesh),
            mesh.fc(face_id) is Some,
        ensures
            r.on(mesh),
            r.current() == mesh.face_halfedge_of(face_id),
            *final(self) == *final(r),
    {
        let halfedge_id = self.connectivity_info.face_halfedge(face_id);
        self.set_current(halfedge_id, Ghost(mesh));
        self
    }
}

impl<'a, T: Copy> Walker<'a, T> {
    /// Walk to the next half-edge in the adjacent face.
    pub fn into_next(self) -> (w: Self)
        requires
            self.inv(),
        ensures
            w.inv(),
            w.same_source(&self),
            w.current() == self.next_w(self.current()),
    {
        let mut w = self;
        w.as_next();
        w
    }

    /// Walk to the previous half-edge in the adjacent face.
    pub fn into_previous(self) -> (w: Self)
        requires
            self.inv(),
        ensures
            w.inv(),
            w.same_source(&self),
            w.current() == self.next_w(self.next_w(self.current())),
    {
        let mut w = self;
        w.as_next().as_next();
        w
    }

    /// Walk to the twin half-edge.
    pub fn into_twin(self) -> (w: Self)
        requires
            self.inv(),
        ensures
            w.inv(),
            w.same_source(&self),
            w.current() == self.twin_w(self.current()),
    {
        let mut w = self;
        w.as_twin();
        w
    }

    /// Walk to the next half-edge in the adjacent face.
    pub fn as_next(&mut self) -> (r: &mut Self)
        requires
            old(self).inv(),
        ensures
            r.inv(),
            r.same_source(old(self)),
            r.current() == old(self).next_w(old(self).current()),
            *final(self) == *final(r),
    {
        let halfedge_id = match self.current_info {
            Some(ref current_info) => current_info.next,
            None => None,
        };
        self.set_current_info(halfedge_id);
        self
    }

    /// Walk to the previous half-edge in the adjacent face.
    pub fn as_previous(&mut self) -> (r: &mut Self)
        requires
            old(self).inv(),
        ensures
            r.inv(),
            r.same_source(old(self)),
            r.current() == old(self).next_w(old(self).next_w(old(self).current())),
            *final(self) == *final(r),
    {
        self.as_next().as_next()
    }

    /// Walk to the twin half-edge.
    pub fn as_twin(&mut self) -> (r: &mut Self)
        requires
            old(self).inv(),
        ensures
            r.inv(),
            r.same_source(old(self)),
            r.current() == old(self).twin_w(old(self).current()),
            *final(self) == *final(r),
    {
        let halfedge_id = match self.current_info {
            Some(ref current_info) => current_info.twin,
            None => None,
        };
        self.set_current_info(halfedge_id);
        self
    }

    /// Returns the id of the vertex pointed to by the current half-edge or `None` if the walker has walked outside of the mesh at some point.
    pub fn vertex_id(&self) -> (v: Option<VertexID>)
        requires
            self.inv(),
        ensures
            v == match self.info() {
                Some(e) => e.vertex,
                None => None,
            },
    {
        if let Some(ref halfedge) = self.current_info {
            halfedge.vertex
        } else {
            None
        }
    }

    /// Returns the id of the next half-edge in the adjacent face or `None` if the half-edge is at the boundary of the mesh
    /// or if the walker has walked outside of the mesh at some point.
    pub fn next_id(&self) -> (h: Option<HalfEdgeID>)
        requires
            self.inv(),
        ensures
            h == self.next_w(self.current()),
    {
        if let Some(ref halfedge) = self.current_info {
            halfedge.next
        } else {
            None
        }
    }

    /// Returns the id of the previous half-edge in the adjacent face or `None` if the half-edge is at the boundary of the mesh
    /// or if the walker has walked outside of the mesh at some point.
    pub fn previous_id(&self) -> (h: Option<HalfEdgeID>)
        requires
            self.inv(),
        ensures
            h == self.next_w(self.next_w(self.current())),
    {
        if let Some(next_id) = self.next_id() {
            let w = Walker { connectivity_info: self.connectivity_info, current: None, current_info: None };
            w.into_halfedge_walker(next_id).next_id()
        } else {
            None
        }
    }

    /// Returns the id of the twin half-edge to the current half-edge or `None` if the walker has walked outside of the mesh at some point.
    pub fn twin_id(&self) -> (h: Option<HalfEdgeID>)
        requires
            self.inv(),
        ensures
            h == self.twin_w(self.current()),
    {
        if let Some(ref halfedge) = self.current_info {
            halfedge.twin
        } else {
            None
        }
    }

    /// Returns the id of the current half-edge or `None` if the walker has walked outside of the mesh at some point.
    pub fn halfedge_id(&self) -> (h: Option<HalfEdgeID>)
        ensures
            h == self.current(),
    {
        self.current
    }

    /// Returns the id of the adjacent face or `None` if the half-edge is at the boundary of the mesh
    /// or if the walker has walked outside of the mesh at some point.
    pub fn face_id(&self) -> (f: Option<FaceID>)
        requires
            self.inv(),
        ensures
            f == match self.info() {
                Some(e) => e.face,
                None => None,
            },
    {
        if let Some(ref halfedge) = self.current_info {
            halfedge.face
        } else {
            None
        }
    }

    /// Jumps to the given half-edge.
    pub(crate) fn into_halfedge_walker(self, halfedge_id: HalfEdgeID) -> (w: Self)
        requires
            self.inv(),
        ensures
            w.inv(),
            w.same_source(&self),
            w.current() == Some(halfedge_id),
    {
        let mut w = self;
        w.set_current_info(Some(halfedge_id));
        w
    }
}

} // verus!
