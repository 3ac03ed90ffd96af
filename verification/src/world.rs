//! World chunks and the entities they hold.
use vstd::prelude::*;
use std::collections::HashMap;
use crate::pos::WChunkPos;

verus! {

/// Anything that can live in a world chunk and be shared across threads.
pub trait EntityTrait: Sync + Send {

}

/// A world chunk: its position and the entities in it, by entity id.
pub struct WChunk {
    pub pos: WChunkPos,
    pub entities: HashMap<u128, Box<dyn EntityTrait>>,
}

impl WChunk {
    /// The state of a freshly loaded chunk at `pos`: no entities.
    pub open spec fn loaded_at(self, pos: WChunkPos) -> bool {
        self.pos == pos && self.entities@ == Map::<u128, Box<dyn EntityTrait>>::empty()
    }

    pub fn load(pos: WChunkPos) -> (c: Self)
        ensures
            c.loaded_at(pos),
    {
        WChunk { pos, entities: HashMap::new() }
    }
}

} // verus!
