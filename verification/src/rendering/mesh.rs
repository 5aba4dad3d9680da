pub mod primatives;

use vstd::prelude::*;

verus! {

/// Vertices and triangle indices of a mesh, ready to be uploaded.
pub struct MeshData<V> {
    pub vertices: Vec<V>,
    pub indices: Vec<u32>,
    pub vertex_count: u32,
}

} // verus!
