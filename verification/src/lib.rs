//! A half-edge data structure for triangle meshes.
//!
//! The library keeps the connectivity of a triangle mesh (vertices, half-edges and faces
//! and how they point to each other) and offers traversal, queries and edit operations on it.
//! Each vertex carries a position made of three coordinates of a caller-chosen type; the
//! library stores and moves positions but never computes with them.
pub mod error;
pub mod ids;
pub mod id_map;
pub mod primitive;

pub use error::Error;
pub use ids::{FaceID, HalfEdgeID, VertexID, ID};
pub use id_map::IDMap;
pub use primitive::Primitive;
pub mod mesh;
pub mod mesh_builder;
pub use mesh::Mesh;
pub use mesh::connectivity_info::{Face, HalfEdge, Vertex};
pub use mesh_builder::{MeshBuilder, MeshBuilderError};
