use crate::direction::Direction;
use crate::positions::{ChunkPos, InnerChunkPos, world_of};
use crate::world_block::WorldBlock;
use vstd::prelude::*;

verus! {

/// The kind of a block; `Void` means that no block is there.
#[derive(Clone, Copy, Debug, PartialEq, Eq, Hash, Structural)]
pub enum BlockType {
    Void,
    Stone,
    Wood,
    Leaf,
    Cloud,
    Gold,
    RedFlower,
    Water,
    Grass,
    Image,
    Planks,
    Red,
}

/// Data stored beside a block's type: the facing of a flat block.
#[derive(Clone, Copy, Debug, PartialEq, Eq, Hash, Structural)]
pub enum BlockData {
    Plain,
    Image(Direction),
}

/// How a block is drawn.
#[derive(Clone, Copy, Debug, PartialEq, Eq, Structural)]
pub enum BlockShape {
    Cube,
    X,
    Flat,
}

/// The fixed properties of a block type.
#[derive(Clone, Copy, Debug, PartialEq, Eq, Structural)]
pub struct BlockMetaData {
    pub gravitable: bool,
    pub shape: BlockShape,
    pub transparent: bool,
    pub intangible: bool,
    pub fluid: bool,
}

/// A block inside one chunk.
#[derive(Clone, Copy, Debug, PartialEq, Eq, Structural)]
pub struct ChunkBlock {
    pub block_type: BlockType,
    pub extra_data: BlockData,
    pub pos: InnerChunkPos,
}

/// An opaque, solid, non-fluid cube.
pub open spec fn plain_cube() -> BlockMetaData {
    BlockMetaData {
        gravitable: false,
        shape: BlockShape::Cube,
        transparent: false,
        intangible: false,
        fluid: false,
    }
}

/// The metadata table: one record per block type.
pub open spec fn metadata_of(t: BlockType) -> BlockMetaData {
    match t {
        BlockType::Void => BlockMetaData {
            gravitable: false,
            shape: BlockShape::Cube,
            transparent: true,
            intangible: true,
            fluid: false,
        },
        BlockType::Leaf => BlockMetaData { transparent: true, ..plain_cube() },
        BlockType::RedFlower => BlockMetaData {
            shape: BlockShape::X,
            transparent: true,
            ..plain_cube()
        },
        BlockType::Water => BlockMetaData { intangible: true, fluid: true, ..plain_cube() },
        BlockType::Image => BlockMetaData {
            shape: BlockShape::Flat,
            transparent: true,
            ..plain_cube()
        },
        _ => plain_cube(),
    }
}

impl Default for BlockMetaData {
    /// An opaque, solid cube.
    fn default() -> (r: BlockMetaData)
        ensures
            r == plain_cube(),
    {
        BlockMetaData {
            gravitable: false,
            shape: BlockShape::Cube,
            transparent: false,
            intangible: false,
            fluid: false,
        }
    }
}

impl BlockMetaData {
    /// The metadata of a block type.
    pub fn get_for_type(block_type: BlockType) -> (r: BlockMetaData)
        ensures
            r == metadata_of(block_type),
    {
        match block_type {
            BlockType::Void => BlockMetaData {
                gravitable: false,
                shape: BlockShape::Cube,
                transparent: true,
                intangible: true,
                fluid: false,
            },
            BlockType::Leaf => BlockMetaData {
                gravitable: false,
                shape: BlockShape::Cube,
                transparent: true,
                intangible: false,
                fluid: false,
            },
            BlockType::RedFlower => BlockMetaData {
                gravitable: false,
                shape: BlockShape::X,
                transparent: true,
                intangible: false,
                fluid: false,
            },
            BlockType::Water => BlockMetaData {
                gravitable: false,
                shape: BlockShape::Cube,
                transparent: false,
                intangible: true,
                fluid: true,
            },
            BlockType::Image => BlockMetaData {
                gravitable: false,
                shape: BlockShape::Flat,
                transparent: true,
                intangible: false,
                fluid: false,
            },
            _ => BlockMetaData::default(),
        }
    }
}

impl ChunkBlock {
    /// The same block placed in the world, given the chunk that holds it.
    pub fn to_world_block(&self, chunk_pos: &ChunkPos) -> (r: WorldBlock)
        ensures
            r.block_type == self.block_type,
            r.extra_data == self.extra_data,
            r.world_pos == world_of(*chunk_pos, self.pos),
    {
        WorldBlock {
            block_type: self.block_type,
            extra_data: self.extra_data,
            world_pos: self.pos.to_world_pos(chunk_pos),
        }
    }
}

} // verus!
