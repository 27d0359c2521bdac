use crate::block::{BlockData, BlockMetaData, BlockShape, BlockType, ChunkBlock, metadata_of};
use crate::direction::{Direction, Directions, direction_at, index_of_direction, lemma_directions_ext};
use crate::positions::{WorldPos, inner_of};
use vstd::prelude::*;

verus! {

/// A block at a world position.
#[derive(Clone, Copy, Debug, PartialEq, Eq, Structural)]
pub struct WorldBlock {
    pub block_type: BlockType,
    pub extra_data: BlockData,
    pub world_pos: WorldPos,
}

/// The faces a block has before its neighbours are considered: all six for
/// cubes and crosses; for a flat block the one it faces, or all six when it
/// faces nowhere.
pub open spec fn face_set(b: WorldBlock) -> Directions {
    Directions::from_pred(
        |d: Direction|
            match metadata_of(b.block_type).shape {
                BlockShape::Flat => match b.extra_data {
                    BlockData::Image(f) => d == f,
                    BlockData::Plain => true,
                },
                _ => true,
            },
    )
}

/// Whether a face of a block of type `own` is seen past a neighbour of type
/// `adjacent`: past void, past a transparent block, and past a fluid from a
/// block that is no fluid. A fluid face against another fluid is hidden.
pub open spec fn face_visible(own: BlockType, adjacent: BlockType) -> bool {
    adjacent == BlockType::Void || metadata_of(adjacent).transparent || (!metadata_of(own).fluid
        && metadata_of(adjacent).fluid)
}

/// The visible faces of `b`, where `adjacent(d)` is the type of the
/// neighbour in direction `d` (`None`: no neighbour, the face is seen).
/// A void block has no visible face.
pub open spec fn visible_faces(b: WorldBlock, adjacent: spec_fn(Direction) -> Option<BlockType>) -> Directions {
    Directions::from_pred(
        |d: Direction|
            b.block_type != BlockType::Void && face_set(b).has(d) && match adjacent(d) {
                Option::None => true,
                Option::Some(t) => face_visible(b.block_type, t),
            },
    )
}

/// The neighbours of a block, at most one per direction.
pub struct AdjacentBlocks {
    blocks: Vec<Option<WorldBlock>>,
}

impl AdjacentBlocks {
    pub closed spec fn wf(&self) -> bool {
        self.blocks@.len() == 6
    }

    /// The neighbour recorded in direction `d`.
    pub closed spec fn at(&self, d: Direction) -> Option<WorldBlock> {
        self.blocks@[index_of_direction(d)]
    }

    /// The types of the recorded neighbours.
    pub open spec fn types(&self) -> spec_fn(Direction) -> Option<BlockType> {
        |d: Direction|
            match self.at(d) {
                Option::Some(b) => Option::Some(b.block_type),
                Option::None => Option::None,
            }
    }

    /// No neighbour recorded.
    pub fn new() -> (r: AdjacentBlocks)
        ensures
            r.wf(),
            forall|d: Direction| r.at(d).is_none(),
    {
        let mut blocks: Vec<Option<WorldBlock>> = Vec::new();
        let mut i: usize = 0;
        while i < 6
            invariant
                0 <= i <= 6,
                blocks@.len() == i,
                forall|j: int| 0 <= j < i ==> blocks@[j].is_none(),
            decreases 6 - i,
        {
            blocks.push(None);
            i = i + 1;
        }
        AdjacentBlocks { blocks }
    }

    /// Records `block` as the neighbour in `direction`.
    pub fn insert(&mut self, direction: Direction, block: WorldBlock)
        requires
            old(self).wf(),
        ensures
            final(self).wf(),
            final(self).at(direction) == Some(block),
            forall|d: Direction| d != direction ==> final(self).at(d) == old(self).at(d),
    {
        let i = direction.to_index();
        self.blocks.set(i, Some(block));
    }

    /// The directions that have a recorded neighbour, in canonical order.
    pub open spec fn recorded(&self) -> Seq<Direction> {
        Seq::new(6, |i: int| direction_at(i)).filter(|d: Direction| self.at(d).is_some())
    }

    /// Number of recorded neighbours.
    pub fn len(&self) -> (r: usize)
        requires
            self.wf(),
        ensures
            r == self.recorded().len(),
    {
        let ghost all = Seq::new(6, |i: int| direction_at(i));
        let ghost keep = |d: Direction| self.at(d).is_some();
        let mut n: usize = 0;
        let mut i: usize = 0;
        while i < 6
            invariant
                0 <= i <= 6,
                self.wf(),
                all == Seq::new(6, |i: int| direction_at(i)),
                keep == (|d: Direction| self.at(d).is_some()),
                n == all.take(i as int).filter(keep).len(),
                n <= i,
            decreases 6 - i,
        {
            let d = Direction::from_index(i);
            proof {
                assert(all.take(i as int + 1) == all.take(i as int).push(d));
                all.take(i as int).lemma_filter_push(d, keep);
            }
            if self.get(d).is_some() {
                n = n + 1;
            }
            i = i + 1;
        }
        proof {
            assert(all.take(6) == all);
        }
        n
    }

    /// The neighbour in `direction`, if one is recorded.
    pub fn get(&self, direction: Direction) -> (r: Option<WorldBlock>)
        requires
            self.wf(),
        ensures
            r == self.at(direction),
    {
        let i = direction.to_index();
        self.blocks[i]
    }
}

impl WorldBlock {
    /// The void block at `w`.
    pub open spec fn spec_void(w: WorldPos) -> WorldBlock {
        WorldBlock { block_type: BlockType::Void, extra_data: BlockData::Plain, world_pos: w }
    }

    /// The void block at `world_pos`.
    pub fn empty(world_pos: WorldPos) -> (r: WorldBlock)
        ensures
            r == (WorldBlock { block_type: BlockType::Void, extra_data: BlockData::Plain, world_pos }),
    {
        WorldBlock { block_type: BlockType::Void, extra_data: BlockData::Plain, world_pos }
    }

    /// The same block addressed inside its chunk.
    pub fn to_chunk_block(&self) -> (r: ChunkBlock)
        ensures
            r.block_type == self.block_type,
            r.extra_data == self.extra_data,
            r.pos == inner_of(self.world_pos),
    {
        ChunkBlock {
            pos: self.world_pos.to_inner_chunk_pos(),
            block_type: self.block_type,
            extra_data: self.extra_data,
        }
    }

    /// Whether this block's face is seen through `adjacent_block`.
    pub fn is_block_face_visible(&self, adjacent_block: &WorldBlock) -> (r: bool)
        ensures
            r == face_visible(self.block_type, adjacent_block.block_type),
    {
        if adjacent_block.block_type == BlockType::Void {
            return true;
        }
        let block_data = self.get_metadata();
        let adjacent_block_data = adjacent_block.get_metadata();
        if adjacent_block_data.transparent {
            return true;
        }
        if block_data.fluid && adjacent_block_data.fluid {
            return false;
        }
        if !block_data.fluid && adjacent_block_data.fluid {
            return true;
        }
        false
    }

    /// The faces of this block that are seen, given its neighbours; a
    /// direction without a recorded neighbour counts as facing void.
    pub fn get_visible_faces(&self, adjacent_blocks: &AdjacentBlocks) -> (r: Directions)
        requires
            adjacent_blocks.wf(),
        ensures
            r == visible_faces(*self, adjacent_blocks.types()),
    {
        let mut r = Directions::empty();
        if self.block_type == BlockType::Void {
            proof {
                lemma_directions_ext(r, visible_faces(*self, adjacent_blocks.types()));
            }
            return r;
        }
        let faces = self.get_faces();
        let mut i: usize = 0;
        while i < 6
            invariant
                0 <= i <= 6,
                adjacent_blocks.wf(),
                self.block_type != BlockType::Void,
                faces == face_set(*self),
                forall|d: Direction|
                    #[trigger] r.has(d) == (index_of_direction(d) < i && visible_faces(
                        *self,
                        adjacent_blocks.types(),
                    ).has(d)),
            decreases 6 - i,
        {
            let d = Direction::from_index(i);
            if faces.has_direction(d) {
                let seen = match adjacent_blocks.get(d) {
                    Some(adjacent) => self.is_block_face_visible(&adjacent),
                    None => true,
                };
                if seen {
                    r.insert_direction(d);
                }
            }
            i = i + 1;
        }
        proof {
            lemma_directions_ext(r, visible_faces(*self, adjacent_blocks.types()));
        }
        r
    }

    /// The faces this block has before its neighbours are considered.
    pub fn get_faces(&self) -> (r: Directions)
        ensures
            r == face_set(*self),
    {
        let r = match self.get_metadata().shape {
            BlockShape::Cube => Directions::all(),
            BlockShape::X => Directions::all(),
            BlockShape::Flat => match self.extra_data {
                BlockData::Image(direction) => Directions::create_for_direction(direction),
                _ => Directions::all(),
            },
        };
        proof {
            lemma_directions_ext(r, face_set(*self));
        }
        r
    }

    /// The metadata of this block's type.
    pub fn get_metadata(&self) -> (r: BlockMetaData)
        ensures
            r == metadata_of(self.block_type),
    {
        BlockMetaData::get_for_type(self.block_type)
    }
}

} // verus!
