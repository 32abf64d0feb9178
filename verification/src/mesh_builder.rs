//! A builder of meshes from raw data: indices and positions.
use vstd::prelude::*;
use crate::mesh::Mesh;
use crate::ids::{FaceID, VertexID, ID};

verus! {

/// Error when building a mesh.
#[derive(Debug)]
pub enum MeshBuilderError {
    /// The positions haven't been specified before calling the build function.
    NoPositionsSpecified,
}

impl MeshBuilderError {
    /// The message of the error.
    pub fn message(&self) -> (m: String)
        ensures
            m@ == "the positions haven't been specified before calling the build function"@,
    {
        match self {
            MeshBuilderError::NoPositionsSpecified => "the positions haven't been specified before calling the build function".to_owned(),
        }
    }
}

/// The indices `0, 1, ..., n - 1`: each vertex once, in order, three to a face.
pub open spec fn default_indices(n: nat) -> Seq<u32> {
    Seq::new(n, |i: int| i as u32)
}

/// Without indices, every three vertices in order make a face: face `k` runs through vertices `3k`, `3k + 1`
/// and `3k + 2`, so every vertex of a whole triple lies on exactly the face of its triple.
pub proof fn lemma_build_without_indices<T: Copy>(b: MeshBuilder<T>, m: Mesh<T>)
    requires
        b.indices is None,
        b.positions is Some,
        m.is_built_from(b.indices_to_use(), b.positions->0@),
    ensures
        m.faces().dom() == Set::new(|k: u32| k < b.positions->0@.len() / 3 / 3),
        forall|k: int| #![trigger FaceID::from_index(k as u32)] 0 <= k < b.positions->0@.len() / 9
            ==> ({
                let h = m.face_halfedge_of(FaceID::from_index(k as u32));
                &&& h is Some
                &&& m.vertex_of(m.previous_of(h)) == Some(VertexID::from_index((3 * k) as u32))
                &&& m.vertex_of(h) == Some(VertexID::from_index((3 * k + 1) as u32))
                &&& m.vertex_of(m.next_of(h)) == Some(VertexID::from_index((3 * k + 2) as u32))
            }),
{
    let idx = b.indices_to_use();
    let n = b.positions->0@.len() / 3;
    assert forall|k: int| #![trigger FaceID::from_index(k as u32)] 0 <= k < b.positions->0@.len() / 9
        implies #[trigger] m.face_halfedge_of(FaceID::from_index(k as u32)) matches Some(h) && {
            &&& m.vertex_of(m.previous_of(Some(h))) == Some(VertexID::from_index((3 * k) as u32))
            &&& m.vertex_of(Some(h)) == Some(VertexID::from_index((3 * k + 1) as u32))
            &&& m.vertex_of(m.next_of(Some(h))) == Some(VertexID::from_index((3 * k + 2) as u32))
        } by {
        assert(idx.len() == n);
        assert(3 * k + 2 < n);
        assert(idx[3 * k] == (3 * k) as u32);
        assert(idx[3 * k + 1] == (3 * k + 1) as u32);
        assert(idx[3 * k + 2] == (3 * k + 2) as u32);
        assert(k < idx.len() / 3);
        assert(m.face_built(idx, k));
    }
}

/// With indices, face `k` of the built mesh runs through the vertices that the indices name for it,
/// `indices[3k]`, `indices[3k + 1]` and `indices[3k + 2]`, and there is one face per whole triple of indices.
pub proof fn lemma_build_with_indices<T: Copy>(b: MeshBuilder<T>, m: Mesh<T>)
    requires
        b.indices is Some,
        b.positions is Some,
        m.is_built_from(b.indices_to_use(), b.positions->0@),
    ensures
        m.faces().dom() == Set::new(|k: u32| k < b.indices->0@.len() / 3),
        forall|k: int| #![trigger FaceID::from_index(k as u32)] 0 <= k < b.indices->0@.len() / 3
            ==> ({
                let h = m.face_halfedge_of(FaceID::from_index(k as u32));
                let i = b.indices->0@;
                &&& h is Some
                &&& m.vertex_of(m.previous_of(h)) == Some(VertexID::from_index(i[3 * k]))
                &&& m.vertex_of(h) == Some(VertexID::from_index(i[3 * k + 1]))
                &&& m.vertex_of(m.next_of(h)) == Some(VertexID::from_index(i[3 * k + 2]))
            }),
{
    let idx = b.indices_to_use();
    assert(idx == b.indices->0@);
    assert forall|k: int| #![trigger FaceID::from_index(k as u32)] 0 <= k < b.indices->0@.len() / 3
        implies ({
            let h = m.face_halfedge_of(FaceID::from_index(k as u32));
            let i = b.indices->0@;
            &&& h is Some
            &&& m.vertex_of(m.previous_of(h)) == Some(VertexID::from_index(i[3 * k]))
            &&& m.vertex_of(h) == Some(VertexID::from_index(i[3 * k + 1]))
            &&& m.vertex_of(m.next_of(h)) == Some(VertexID::from_index(i[3 * k + 2]))
        }) by {
        assert(m.face_built(idx, k));
    }
}

/// `MeshBuilder` contains functionality to build a mesh from raw data: indices and positions.
#[derive(Debug)]
pub struct MeshBuilder<T> {
    /// The indices of the faces, three to a face, if they were given.
    pub indices: Option<Vec<u32>>,
    /// The coordinates of the vertices, three to a vertex, if they were given.
    pub positions: Option<Vec<T>>,
}

impl<T: Copy> MeshBuilder<T> {
    /// Creates a new [MeshBuilder] instance.
    pub fn new() -> (b: Self)
        ensures
            b.indices is None,
            b.positions is None,
    {
        MeshBuilder { indices: None, positions: None }
    }

    /// Set the indices of each face, where the indices of face `x` is `(i0, i1, i2) = (indices[3*x], indices[3*x+1], indices[3*x+2])`.
    pub fn with_indices(self, indices: Vec<u32>) -> (b: Self)
        ensures
            b.indices == Some(indices),
            b.positions == self.positions,
    {
        MeshBuilder { indices: Some(indices), positions: self.positions }
    }

    /// Set the positions of each vertex, where the position of vertex `x` is `(x, y, z) = (positions[3*x], positions[3*x+1], positions[3*x+2])`.
    pub fn with_positions(self, positions: Vec<T>) -> (b: Self)
        ensures
            b.indices == self.indices,
            b.positions == Some(positions),
    {
        MeshBuilder { indices: self.indices, positions: Some(positions) }
    }

    /// The indices that [MeshBuilder::build] uses: those given, else each vertex once, in order.
    pub open spec fn indices_to_use(&self) -> Seq<u32> {
        match self.indices {
            Some(i) => i@,
            None => default_indices(self.positions->0@.len() / 3),
        }
    }

    /// Builds a mesh from the given indices and positions; without indices, every three vertices, in order,
    /// make a face.
    ///
    /// # Errors
    ///
    /// If no positions are specified, [MeshBuilderError::NoPositionsSpecified] error is returned.
    pub fn build(self) -> (r: Result<Mesh<T>, MeshBuilderError>)
        requires
            self.positions matches Some(p) ==> {
                &&& p@.len() / 3 <= u32::MAX
                &&& (self.indices_to_use().len() / 3) * 6 <= u32::MAX
                &&& forall|i: int| 0 <= i < (self.indices_to_use().len() / 3) * 3 ==> #[trigger] self.indices_to_use()[i] < p@.len() / 3
            },
        ensures
            r is Err <==> self.positions is None,
            r matches Ok(m) ==> m.is_built_from(self.indices_to_use(), self.positions->0@),
            r matches Ok(m) ==> (crate::mesh::construction::indices_build_valid(self.indices_to_use(),
                (self.positions->0@.len() / 3) as nat) ==> m.valid()),
            r matches Ok(m) ==> m.halfedges().dom().len() <= 2 * ((self.indices_to_use().len() / 3) * 3),
            r matches Ok(m) ==> self.indices is None ==> forall|k: int| #![trigger FaceID::from_index(k as u32)] 0 <= k < self.positions->0@.len() / 9
                ==> ({
                    let h = m.face_halfedge_of(FaceID::from_index(k as u32));
                    &&& h is Some
                    &&& m.vertex_of(m.previous_of(h)) == Some(VertexID::from_index((3 * k) as u32))
                    &&& m.vertex_of(h) == Some(VertexID::from_index((3 * k + 1) as u32))
                    &&& m.vertex_of(m.next_of(h)) == Some(VertexID::from_index((3 * k + 2) as u32))
                }),
            r matches Ok(m) ==> self.indices is None ==> m.faces().dom() == Set::new(|k: u32| k < self.positions->0@.len() / 3 / 3),
            r matches Ok(m) ==> self.indices is Some ==> m.faces().dom() == Set::new(|k: u32| k < self.indices->0@.len() / 3),
            r matches Ok(m) ==> self.indices is Some ==> forall|k: int| #![trigger FaceID::from_index(k as u32)] 0 <= k < self.indices->0@.len() / 3
                ==> ({
                    let h = m.face_halfedge_of(FaceID::from_index(k as u32));
                    let i = self.indices->0@;
                    &&& h is Some
                    &&& m.vertex_of(m.previous_of(h)) == Some(VertexID::from_index(i[3 * k]))
                    &&& m.vertex_of(h) == Some(VertexID::from_index(i[3 * k + 1]))
                    &&& m.vertex_of(m.next_of(h)) == Some(VertexID::from_index(i[3 * k + 2]))
                }),
    {
        let ghost use_indices = self.indices_to_use();
        let positions = match self.positions {
            Some(p) => p,
            None => {
                return Err(MeshBuilderError::NoPositionsSpecified);
            },
        };
        let indices = match self.indices {
            Some(i) => i,
            None => {
                let n = (positions.len() / 3) as u32;
                let mut v: Vec<u32> = Vec::new();
                let mut k: u32 = 0;
                while k < n
                    invariant
                        k <= n,
                        n == positions@.len() / 3,
                        v@ == default_indices(k as nat),
                    decreases n - k,
                {
                    v.push(k);
                    k += 1;
                    proof { assert(v@ =~= default_indices(k as nat)); }
                }
                v
            },
        };
        proof { assert(indices@ == use_indices); }
        let m = Mesh::new(indices, positions);
        proof {
            if self.indices is None {
                lemma_build_without_indices(self, m);
            } else {
                lemma_build_with_indices(self, m);
            }
        }
        Ok(m)
    }
}

} // verus!
