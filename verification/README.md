# tri-mesh

A half-edge data structure for triangle meshes, written in Verus: every function of the library carries a
`requires`/`ensures` contract that Verus proves.

## Layout

- `src/ids.rs`, `src/id_map.rs`: ids of vertices, half-edges and faces, and the slot map that hands them out
  and reuses freed ones.
- `src/mesh.rs` and `src/mesh/`: the mesh.
  - `connectivity_info.rs`: the storage of vertices, half-edges and faces.
  - `traversal.rs`, `iterators.rs`, `connectivity.rs`: the walker, the lists of ids and the one-ring of a
    vertex, and queries on edges and faces.
  - `validity.rs`: `Mesh::valid`, the consistency that the editing operations keep, `has_valid_connectivity`,
    which decides it, and `is_valid`, the checks it runs.
  - `construction.rs`, `export.rs`: building a mesh from indices and positions, and the index buffer.
  - `edit.rs`, `removal.rs`, `orientation.rs`: flipping, splitting and collapsing edges, splitting faces and
    vertices, removing faces and lonely primitives, and turning faces around; `face_split.rs`,
    `edge_split.rs`, `collapse.rs`, `vertex_split.rs` and `turning.rs` hold the proofs that these operations
    keep a valid mesh valid.
  - `cleanup.rs`, `overlap.rs`, `overlap_laws.rs`, `merge.rs`: merging vertices and edges, and merging
    primitives that lie on top of each other.
  - `append.rs`: copying one mesh into another, and merging a whole mesh into another.
  - `connected_components.rs`, `component_laws.rs`, `subset.rs`: connected components and how they partition
    the faces, and copying or splitting off parts of a mesh.
- `src/mesh_builder.rs`: a builder from raw indices and positions.
- `tests/`: tests of the library on concrete meshes.
- `app/`: what needs floating point or outside crates: shapes, measures, normals and transformations of
  meshes with `f64` positions, conversion to and from `three_d_asset` meshes, Wavefront OBJ parsing,
  grouping vertices by position, and error types with outside derives.

## Verifying

Verus checks the library from its root, `src/lib.rs`; the tests under `tests/` run the compiled library.
