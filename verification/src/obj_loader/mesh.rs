//! The vertex list and index list that a renderer draws from.

use vstd::prelude::*;
use crate::beagle_math::vector::Vector2;
use crate::beagle_math::vector::Vector3;
use crate::beagle_math::vector::Vector4;

verus! {

/// A vertex of the mesh: where it is, where it lies on the texture, and its
/// colour.
#[derive(Clone, Copy, Debug, PartialEq, Eq, Structural)]
pub struct Vertex {
    pub position: Vector3,
    pub uv: Vector2,
    pub color: Vector4,
}

/// A mesh: its distinct vertices, and for each vertex of each face the place
/// of that vertex among them.
#[derive(Debug)]
pub struct ObjLoaderResult {
    pub vertices: Vec<Vertex>,
    pub indices: Vec<i32>,
}

impl ObjLoaderResult {
    /// Whether every index names a vertex of the mesh.
    pub open spec fn well_formed(&self) -> bool {
        forall|k: int|
            0 <= k < self.indices@.len() ==> 0 <= #[trigger] self.indices@[k]
                < self.vertices@.len()
    }
}

impl Default for ObjLoaderResult {
    /// The mesh without vertices.
    fn default() -> (r: ObjLoaderResult)
        ensures
            r.vertices@.len() == 0,
            r.indices@.len() == 0,
            r.well_formed(),
    {
        ObjLoaderResult { vertices: Vec::new(), indices: Vec::new() }
    }
}

} // verus!
