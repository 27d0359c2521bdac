use crate::positions::WorldPos;
use crate::world::World;
use crate::world_block::WorldBlock;
use vstd::prelude::*;

verus! {

/// Something that answers block queries by position.
pub trait BlockGetter {
    /// Whether the getter is in a state to answer.
    spec fn ready(&self) -> bool;

    /// The block the getter reports at `w`.
    spec fn block_spec(&self, w: WorldPos) -> WorldBlock;

    /// The block at `world_pos`.
    fn get_block(&self, world_pos: &WorldPos) -> (r: WorldBlock)
        requires
            self.ready(),
        ensures
            r == self.block_spec(*world_pos),
            r.world_pos == *world_pos,
    ;
}

impl BlockGetter for World {
    open spec fn ready(&self) -> bool {
        self.wf()
    }

    open spec fn block_spec(&self, w: WorldPos) -> WorldBlock {
        self.block_at(w)
    }

    fn get_block(&self, world_pos: &WorldPos) -> (r: WorldBlock) {
        World::get_block(self, world_pos)
    }
}

/// A getter for which every position is void.
pub struct VoidBlockGetter;

impl BlockGetter for VoidBlockGetter {
    open spec fn ready(&self) -> bool {
        true
    }

    open spec fn block_spec(&self, w: WorldPos) -> WorldBlock {
        WorldBlock::spec_void(w)
    }

    fn get_block(&self, world_pos: &WorldPos) -> (r: WorldBlock) {
        WorldBlock::empty(*world_pos)
    }
}

} // verus!
