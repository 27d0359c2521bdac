//! The spatial core of a voxel world: chunked block storage, the per-block
//! face-visibility mesh kept up to date as blocks change, and the coordinate
//! arithmetic that ties world positions to chunks.
pub mod direction;
pub mod vec;
pub mod positions;
pub mod block;
pub mod world_block;
pub mod chunk;
pub mod chunk_mesh;
pub mod world;
pub mod plane;
pub mod text;
pub mod block_getter;

pub use direction::{Direction, Directions, FlatDirection};
pub use vec::{Vec2, Vec3};
pub use positions::{ChunkPos, InnerChunkPos, WorldPos};
pub use block::{BlockData, BlockMetaData, BlockShape, BlockType, ChunkBlock};
pub use world_block::{AdjacentBlocks, WorldBlock};
pub use chunk::Chunk;
pub use chunk_mesh::{BlockMesh, ChunkMesh};
pub use world::{ChunkNotLoadedError, World, WorldStateDiff};
pub use plane::WorldPlane;
pub use block_getter::{BlockGetter, VoidBlockGetter};
