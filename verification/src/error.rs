//! Errors of mesh operations.
use vstd::prelude::*;

verus! {

/// Error when performing a mesh operation.
#[derive(Debug)]
pub enum Error {
    /// The configuration is not valid.
    ActionWillResultInInvalidMesh(String),
    /// The action will produce a non-manifold mesh.
    ActionWillResultInNonManifoldMesh(String),
    /// The mesh has ended up in an invalid state.
    MeshIsInvalid(String),
}

} // verus!
