use crate::block::{BlockData, BlockType, ChunkBlock};
use crate::positions::{
    CHUNK_MEM_SIZE, ChunkPos, InnerChunkPos, chunk_index_of, inner_at, inner_valid, world_of,
};
use crate::world_block::WorldBlock;
use vstd::prelude::*;

verus! {

/// One column of 16 x 64 x 16 block slots, stored densely by packed index.
pub struct Chunk {
    blocks: Vec<BlockType>,
    block_data: Vec<BlockData>,
    position: ChunkPos,
}

impl Chunk {
    /// Both arrays hold one entry per slot.
    pub closed spec fn wf(&self) -> bool {
        self.blocks@.len() == CHUNK_MEM_SIZE && self.block_data@.len() == CHUNK_MEM_SIZE
    }

    /// The column this chunk fills.
    pub closed spec fn pos(&self) -> ChunkPos {
        self.position
    }

    /// The type stored at packed index `i`; void outside the chunk.
    pub closed spec fn type_at(&self, i: int) -> BlockType {
        if 0 <= i < self.blocks@.len() {
            self.blocks@[i]
        } else {
            BlockType::Void
        }
    }

    /// The extra data stored at packed index `i`; none outside the chunk.
    pub closed spec fn data_at(&self, i: int) -> BlockData {
        if 0 <= i < self.block_data@.len() {
            self.block_data@[i]
        } else {
            BlockData::Plain
        }
    }

    /// The block at packed index `i`.
    pub open spec fn block_at_index(&self, i: int) -> ChunkBlock {
        ChunkBlock { block_type: self.type_at(i), extra_data: self.data_at(i), pos: inner_at(i) }
    }

    /// The block at in-chunk position `p`.
    pub open spec fn block_at(&self, p: InnerChunkPos) -> ChunkBlock {
        self.block_at_index(chunk_index_of(p))
    }

    /// The non-void blocks, in index order.
    pub open spec fn occupied(&self) -> Seq<ChunkBlock> {
        Seq::new(CHUNK_MEM_SIZE as nat, |i: int| self.block_at_index(i)).filter(
            |b: ChunkBlock| b.block_type != BlockType::Void,
        )
    }

    /// An empty chunk: every slot void.
    pub fn new(position: ChunkPos) -> (r: Chunk)
        ensures
            r.wf(),
            r.pos() == position,
            forall|i: int| #[trigger] r.type_at(i) == BlockType::Void,
            forall|i: int| #[trigger] r.data_at(i) == BlockData::Plain,
            forall|p: InnerChunkPos| #[trigger] r.block_at(p).block_type == BlockType::Void,
    {
        let mut blocks: Vec<BlockType> = Vec::new();
        let mut block_data: Vec<BlockData> = Vec::new();
        let mut i: usize = 0;
        while i < CHUNK_MEM_SIZE
            invariant
                0 <= i <= CHUNK_MEM_SIZE,
                blocks@.len() == i,
                block_data@.len() == i,
                forall|j: int| 0 <= j < i ==> blocks@[j] == BlockType::Void,
                forall|j: int| 0 <= j < i ==> block_data@[j] == BlockData::Plain,
            decreases CHUNK_MEM_SIZE - i,
        {
            blocks.push(BlockType::Void);
            block_data.push(BlockData::Plain);
            i = i + 1;
        }
        Chunk { blocks, block_data, position }
    }

    /// The non-void blocks, in index order.
    pub fn get_all_blocks(&self) -> (r: Vec<ChunkBlock>)
        requires
            self.wf(),
        ensures
            r@ == self.occupied(),
    {
        let ghost all = Seq::new(CHUNK_MEM_SIZE as nat, |i: int| self.block_at_index(i));
        let ghost keep = |b: ChunkBlock| b.block_type != BlockType::Void;
        let mut r: Vec<ChunkBlock> = Vec::new();
        let mut i: usize = 0;
        while i < CHUNK_MEM_SIZE
            invariant
                0 <= i <= CHUNK_MEM_SIZE,
                self.wf(),
                all == Seq::new(CHUNK_MEM_SIZE as nat, |i: int| self.block_at_index(i)),
                keep == (|b: ChunkBlock| b.block_type != BlockType::Void),
                r@ == all.take(i as int).filter(keep),
            decreases CHUNK_MEM_SIZE - i,
        {
            let b = self.get_block_at_index(i);
            proof {
                assert(all.take(i as int + 1) == all.take(i as int).push(b));
                all.take(i as int).lemma_filter_push(b, keep);
            }
            if b.block_type != BlockType::Void {
                r.push(b);
            }
            i = i + 1;
        }
        proof {
            assert(all.take(CHUNK_MEM_SIZE as int) == all);
        }
        r
    }

    fn get_block_at_index(&self, index: usize) -> (r: ChunkBlock)
        requires
            self.wf(),
        ensures
            r == self.block_at_index(index as int),
    {
        let block_type = if index < self.blocks.len() {
            self.blocks[index]
        } else {
            BlockType::Void
        };
        let extra_data = if index < self.block_data.len() {
            self.block_data[index]
        } else {
            BlockData::Plain
        };
        ChunkBlock { block_type, extra_data, pos: InnerChunkPos::make_from_chunk_index(index) }
    }

    /// Writes `block` into its slot, replacing what was there.
    pub fn add_block(&mut self, block: ChunkBlock)
        requires
            old(self).wf(),
            inner_valid(block.pos),
        ensures
            final(self).wf(),
            final(self).pos() == old(self).pos(),
            final(self).type_at(chunk_index_of(block.pos)) == block.block_type,
            final(self).data_at(chunk_index_of(block.pos)) == block.extra_data,
            forall|i: int|
                i != chunk_index_of(block.pos) ==> #[trigger] final(self).type_at(i) == old(
                    self,
                ).type_at(i) && final(self).data_at(i) == old(self).data_at(i),
    {
        let index = block.pos.to_chunk_index();
        self.blocks.set(index, block.block_type);
        self.block_data.set(index, block.extra_data);
    }

    /// The column this chunk fills.
    pub fn position(&self) -> (r: ChunkPos)
        ensures
            r == self.pos(),
    {
        self.position
    }

    /// The chunk's position written as "x,y".
    pub fn get_uuid(&self) -> (r: String)
        ensures
            r@ == crate::text::comma_joined(seq![self.pos().x as int, self.pos().y as int]),
    {
        self.position.to_index()
    }

    /// The block at `pos` placed in the world.
    pub fn get_world_block(&self, pos: &InnerChunkPos) -> (r: WorldBlock)
        requires
            self.wf(),
        ensures
            r.block_type == self.block_at(*pos).block_type,
            r.extra_data == self.block_at(*pos).extra_data,
            r.world_pos == world_of(self.pos(), inner_at(chunk_index_of(*pos))),
    {
        let b = self.get_block(pos);
        b.to_world_block(&self.position)
    }

    /// The block at `pos`; void where nothing was written.
    pub fn get_block(&self, pos: &InnerChunkPos) -> (r: ChunkBlock)
        requires
            self.wf(),
        ensures
            r == self.block_at(*pos),
    {
        self.get_block_at_index(pos.to_chunk_index())
    }

    /// Empties the slot at `pos`.
    pub fn remove_block(&mut self, pos: &InnerChunkPos)
        requires
            old(self).wf(),
            inner_valid(*pos),
        ensures
            final(self).wf(),
            final(self).pos() == old(self).pos(),
            final(self).type_at(chunk_index_of(*pos)) == BlockType::Void,
            final(self).data_at(chunk_index_of(*pos)) == BlockData::Plain,
            final(self).block_at(*pos).block_type == BlockType::Void,
            forall|i: int|
                i != chunk_index_of(*pos) ==> #[trigger] final(self).type_at(i) == old(
                    self,
                ).type_at(i) && final(self).data_at(i) == old(self).data_at(i),
    {
        let index = pos.to_chunk_index();
        self.blocks.set(index, BlockType::Void);
        self.block_data.set(index, BlockData::Plain);
    }
}

} // verus!
