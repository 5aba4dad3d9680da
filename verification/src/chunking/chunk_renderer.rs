use crate::chunking::chunk::{Chunk, ChunkPos};
use std::collections::BTreeMap;
use vstd::prelude::*;
use vstd::std_specs::btree::increasing_seq;

verus! {

broadcast use vstd::laws_cmp::group_laws_cmp, vstd::std_specs::btree::group_btree_axioms;

/// The uploaded mesh of every chunk, by chunk position.
pub struct ChunkRenderer<M> {
    chunk_meshes: BTreeMap<ChunkPos, M>,
}

impl<M> ChunkRenderer<M> {
    /// The meshes, by chunk position.
    pub closed spec fn meshes(&self) -> Map<ChunkPos, M> {
        self.chunk_meshes@
    }

    pub fn new() -> (r: Self)
        ensures
            r.meshes() == Map::<ChunkPos, M>::empty(),
    {
        Self { chunk_meshes: BTreeMap::new() }
    }

    /// Stores `mesh` as the mesh of `chunk`, replacing any earlier one.
    pub fn add_chunk(&mut self, chunk: &Chunk, mesh: M)
        ensures
            final(self).meshes() == old(self).meshes().insert(chunk.world_offset, mesh),
    {
        self.chunk_meshes.insert(chunk.world_offset, mesh);
    }

    /// Every stored mesh, once each, in increasing order of chunk position.
    pub fn get_meshes(&self) -> (r: Vec<&M>)
        ensures
            exists|keys: Seq<ChunkPos>|
                {
                    &&& increasing_seq(keys)
                    &&& keys.to_set() == self.meshes().dom()
                    &&& keys.no_duplicates()
                    &&& r@.len() == keys.len()
                    &&& forall|k: int| 0 <= k < keys.len() ==> *(#[trigger] r@[k]) == self.meshes()[keys[k]]
                },
    {
        let mut out: Vec<&M> = Vec::new();
        for m in it: self.chunk_meshes.values()
            invariant
                out@.len() == it.index(),
                forall|k: int| 0 <= k < it.index() ==> #[trigger] out@[k] == it.seq()[k],
        {
            out.push(m);
        }
        out
    }
}

impl<M> Default for ChunkRenderer<M> {
    fn default() -> (r: Self)
        ensures
            r.meshes() == Map::<ChunkPos, M>::empty(),
    {
        Self::new()
    }
}

} // verus!
