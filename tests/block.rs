use voxel_world::{
    AdjacentBlocks, BlockData, BlockMetaData, BlockShape, BlockType, Direction, WorldBlock,
    WorldPos,
};

fn cloud_at_origin() -> WorldBlock {
    WorldBlock {
        block_type: BlockType::Cloud,
        extra_data: BlockData::Plain,
        world_pos: WorldPos { x: 0, y: 0, z: 0 },
    }
}

#[test]
fn world_block_is_block_face_visible() {
    let world_block = cloud_at_origin();
    let adjacent_world_block = cloud_at_origin();
    let is_visible = world_block.is_block_face_visible(&adjacent_world_block);
    assert_eq!(is_visible, false);

    let adjacent_world_block = WorldBlock {
        block_type: BlockType::Void,
        extra_data: BlockData::Plain,
        world_pos: WorldPos { x: 0, y: 0, z: 0 },
    };
    let is_visible = world_block.is_block_face_visible(&adjacent_world_block);
    assert_eq!(is_visible, true);
}

#[test]
fn world_block_gets_visible_faces() {
    let world_block = cloud_at_origin();
    let adjacent_blocks = AdjacentBlocks::new();
    let faces = world_block.get_visible_faces(&adjacent_blocks);
    assert_eq!(faces.to_vec().len(), 6);

    let mut adjacent_blocks = AdjacentBlocks::new();
    adjacent_blocks.insert(Direction::East, cloud_at_origin());
    let faces = world_block.get_visible_faces(&adjacent_blocks);
    assert_eq!(faces.to_vec().len(), 5);
    assert_eq!(faces.has_direction(Direction::East), false);
}

#[test]
fn unit_tests_is_block_face_visible() {
    let world_block = cloud_at_origin();
    let adjacent_world_block = cloud_at_origin();
    assert_eq!(world_block.is_block_face_visible(&adjacent_world_block), false);
    let adjacent_world_block = WorldBlock::empty(WorldPos { x: 0, y: 0, z: 0 });
    assert_eq!(world_block.is_block_face_visible(&adjacent_world_block), true);
}

#[test]
fn unit_tests_gets_visible_faces() {
    let world_block = cloud_at_origin();
    let faces = world_block.get_visible_faces(&AdjacentBlocks::new());
    assert_eq!(faces.to_vec().len(), 6);

    let mut adjacent_blocks = AdjacentBlocks::new();
    adjacent_blocks.insert(Direction::East, cloud_at_origin());
    let faces = world_block.get_visible_faces(&adjacent_blocks);
    assert_eq!(faces.to_vec().len(), 5);
    assert_eq!(faces.has_direction(Direction::East), false);
}

fn block(block_type: BlockType) -> WorldBlock {
    WorldBlock { block_type, extra_data: BlockData::Plain, world_pos: WorldPos::new(0, 0, 0) }
}

#[test]
fn fluid_against_fluid_is_hidden() {
    let water = block(BlockType::Water);
    assert!(!water.is_block_face_visible(&block(BlockType::Water)));
    // a solid block's face is seen through water
    assert!(block(BlockType::Stone).is_block_face_visible(&water));
    // water's face against stone is hidden
    assert!(!water.is_block_face_visible(&block(BlockType::Stone)));
    // anything is seen through a transparent block
    assert!(block(BlockType::Stone).is_block_face_visible(&block(BlockType::Leaf)));
    assert!(water.is_block_face_visible(&block(BlockType::Void)));
}

#[test]
fn void_block_has_no_visible_face() {
    let faces = block(BlockType::Void).get_visible_faces(&AdjacentBlocks::new());
    assert_eq!(faces.len(), 0);
}

#[test]
fn flat_block_faces() {
    let image = WorldBlock {
        block_type: BlockType::Image,
        extra_data: BlockData::Image(Direction::South),
        world_pos: WorldPos::new(0, 0, 0),
    };
    assert_eq!(image.get_faces().to_vec(), vec![Direction::South]);
    let mut adjacent = AdjacentBlocks::new();
    adjacent.insert(Direction::South, block(BlockType::Stone));
    assert_eq!(image.get_visible_faces(&adjacent).len(), 0);
    assert_eq!(adjacent.len(), 1);
    assert_eq!(adjacent.get(Direction::South), Some(block(BlockType::Stone)));
    assert_eq!(adjacent.get(Direction::North), None);

    let bare_image = WorldBlock { extra_data: BlockData::Plain, ..image };
    assert_eq!(bare_image.get_faces().len(), 6);
    // a cross-shaped flower shows all faces
    assert_eq!(block(BlockType::RedFlower).get_faces().len(), 6);
}

#[test]
fn metadata_table() {
    let water = BlockMetaData::get_for_type(BlockType::Water);
    assert!(water.fluid && water.intangible && !water.transparent);
    let leaf = BlockMetaData::get_for_type(BlockType::Leaf);
    assert!(leaf.transparent && !leaf.fluid);
    assert!(BlockMetaData::get_for_type(BlockType::RedFlower).shape == BlockShape::X);
    assert!(BlockMetaData::get_for_type(BlockType::Image).shape == BlockShape::Flat);
    let void = BlockMetaData::get_for_type(BlockType::Void);
    assert!(void.transparent && void.intangible);
    let stone = BlockMetaData::get_for_type(BlockType::Stone);
    assert!(stone == BlockMetaData::default());
    assert!(!stone.transparent && stone.shape == BlockShape::Cube);
}

#[test]
fn block_conversions() {
    let wb = WorldBlock {
        block_type: BlockType::Gold,
        extra_data: BlockData::Plain,
        world_pos: WorldPos::new(-1, 3, 17),
    };
    let cb = wb.to_chunk_block();
    assert_eq!(cb.pos, voxel_world::InnerChunkPos::new(15, 3, 1));
    assert_eq!(cb.to_world_block(&voxel_world::ChunkPos::new(-1, 1)), wb);
}
