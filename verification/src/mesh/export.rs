//! Index buffers for visualisation.
use vstd::prelude::*;
use crate::ids::{FaceID, VertexID, ID};
use super::Mesh;
use super::iterators::lists_in_order;

verus! {

/// The position of the vertex in the list, if it is there.
fn position_of(vertices: &Vec<VertexID>, vertex_id: VertexID) -> (r: Option<usize>)
    ensures
        match r {
            Some(k) => k < vertices.len() && vertices@[k as int] == vertex_id
                && forall|j: int| 0 <= j < k ==> vertices@[j] != vertex_id,
            None => !vertices@.contains(vertex_id),
        },
{
    let mut i: usize = 0;
    while i < vertices.len()
        invariant
            i <= vertices.len(),
            forall|j: int| 0 <= j < i ==> vertices@[j] != vertex_id,
        decreases vertices.len() - i,
    {
        if vertices[i] == vertex_id {
            return Some(i);
        }
        i += 1;
    }
    None
}

impl<T: Copy> Mesh<T> {
    /// The indices buffer lists, for each face in the order of the ids, the positions in `vertices` of the
    /// vertices that the three half-edges of the face point to, in the order of the face.
    pub open spec fn is_indices_buffer(&self, indices: Seq<u32>, vertices: Seq<VertexID>, faces: Seq<FaceID>) -> bool {
        &&& indices.len() == 3 * faces.len()
        &&& forall|i: int, j: int| 0 <= i < faces.len() && 0 <= j < 3 ==> #[trigger] indices[3 * i + j] < vertices.len()
            && Some(vertices[indices[3 * i + j] as int]) == self.vertex_of(Some(self.face_ring(faces[i])[j]))
    }

    /// Returns the face indices in an array `(i0, i1, i2) = (indices[3*x], indices[3*x+1], indices[3*x+2])` which is
    /// meant to be used for visualisation. The index of a vertex is its position among the vertices in the order
    /// of their ids.
    pub fn indices_buffer(&self) -> (indices: Vec<u32>)
        requires
            self.valid(),
        ensures
            exists|vertices: Seq<VertexID>, faces: Seq<FaceID>| {
                &&& lists_in_order(vertices, self.vertices().dom())
                &&& lists_in_order(faces, self.faces().dom())
                &&& #[trigger] self.is_indices_buffer(indices@, vertices, faces)
            },
    {
        proof {
            self.lemma_valid_wf();
            self.lemma_wf();
        }
        let vertices = self.vertex_iter();
        let faces = self.face_iter();
        let mut indices: Vec<u32> = Vec::new();
        let mut f: usize = 0;
        while f < faces.len()
            invariant
                self.valid(),
                self.wf(),
                lists_in_order(vertices@, self.vertices().dom()),
                lists_in_order(faces@, self.faces().dom()),
                f <= faces.len(),
                indices@.len() == 3 * f,
                forall|i: int, j: int| 0 <= i < f && 0 <= j < 3 ==> #[trigger] indices@[3 * i + j] < vertices.len()
                    && Some(vertices@[indices@[3 * i + j] as int]) == self.vertex_of(Some(self.face_ring(faces@[i])[j])),
            decreases faces.len() - f,
        {
            let face_id = faces[f];
            proof {
                assert(self.fc_live(face_id));
                self.lemma_face_ok(face_id);
                let h0 = self.face_halfedge_of(face_id)->0;
                self.lemma_triangle(h0);
                self.lemma_triangle(self.next_of(Some(h0))->0);
            }
            let ring = self.face_halfedge_iter(face_id);
            let mut j: usize = 0;
            while j < 3
                invariant
                    self.valid(),
                    self.wf(),
                    lists_in_order(vertices@, self.vertices().dom()),
                    f < faces.len(),
                    face_id == faces@[f as int],
                    self.fc_live(face_id),
                    ring@ == self.face_ring(face_id),
                    j <= 3,
                    indices@.len() == 3 * f + j,
                    forall|i: int, k: int| 0 <= i < f && 0 <= k < 3 ==> #[trigger] indices@[3 * i + k] < vertices.len()
                        && Some(vertices@[indices@[3 * i + k] as int]) == self.vertex_of(Some(self.face_ring(faces@[i])[k])),
                    forall|k: int| 0 <= k < j ==> #[trigger] indices@[3 * f + k] < vertices.len()
                        && Some(vertices@[indices@[3 * f + k] as int]) == self.vertex_of(Some(self.face_ring(face_id)[k])),
                decreases 3 - j,
            {
                let h = ring[j];
                proof {
                    self.lemma_neighbour_live(face_id, j as int);
                    self.lemma_halfedge_ok(h);
                }
                let walker = self.walker_from_halfedge(h);
                proof { walker.lemma_reads(self); }
                let vertex_id = walker.vertex_id().unwrap();
                proof {
                    assert(self.vx_live(vertex_id));
                    let k = choose|k: int| 0 <= k < vertices.len() && #[trigger] vertices@[k].index() == vertex_id.index();
                    VertexID::lemma_index_injective(vertices@[k], vertex_id);
                    assert(vertices@.contains(vertex_id));
                    crate::mesh::iterators::lemma_lists_in_order_bound(vertices@, self.vertices().dom(), 0x1_0000_0000);
                }
                let index = position_of(&vertices, vertex_id).unwrap();
                let ghost before = indices@;
                indices.push(index as u32);
                proof {
                    assert forall|i: int, k: int| 0 <= i < f && 0 <= k < 3 implies #[trigger] indices@[3 * i + k] < vertices.len()
                        && Some(vertices@[indices@[3 * i + k] as int]) == self.vertex_of(Some(self.face_ring(faces@[i])[k])) by {
                        assert(indices@[3 * i + k] == before[3 * i + k]);
                    }
                    assert forall|k: int| 0 <= k < j + 1 implies #[trigger] indices@[3 * f + k] < vertices.len()
                        && Some(vertices@[indices@[3 * f + k] as int]) == self.vertex_of(Some(self.face_ring(face_id)[k])) by {
                        if k < j {
                            assert(indices@[3 * f + k] == before[3 * f + k]);
                        }
                    }
                }
                j += 1;
            }
            proof {
                assert forall|i: int, k: int| 0 <= i < f + 1 && 0 <= k < 3 implies #[trigger] indices@[3 * i + k] < vertices.len()
                    && Some(vertices@[indices@[3 * i + k] as int]) == self.vertex_of(Some(self.face_ring(faces@[i])[k])) by {
                    if i == f {
                        assert(indices@[3 * f + k] == indices@[3 * i + k]);
                    }
                }
            }
            f += 1;
        }
        proof {
            assert(self.is_indices_buffer(indices@, vertices@, faces@));
        }
        indices
    }
}

} // verus!
