use voxel_world::{
    BlockData, BlockGetter, VoidBlockGetter, BlockMesh, BlockType, Chunk, ChunkBlock, ChunkNotLoadedError, ChunkPos, Direction,
    Directions, InnerChunkPos, World, WorldBlock, WorldPlane, WorldPos,
};

fn block_at(block_type: BlockType, world_pos: WorldPos) -> WorldBlock {
    WorldBlock { block_type, extra_data: BlockData::Plain, world_pos }
}

#[test]
fn get_adjacent_blocks() {
    let mut world = World::default();
    let chunk = Chunk::new(ChunkPos { x: 0, y: 0 });
    world.insert_chunk(chunk);
    let world_pos = WorldPos::new(0, 0, 0);
    world.add_block(&block_at(BlockType::Cloud, world_pos)).unwrap();

    let adjacent_blocks = world.get_adjacent_blocks(&world_pos);

    // Five because there is no block below me
    assert_eq!(adjacent_blocks.len(), 5);
}

#[test]
fn adds_chunks() {
    let mut world = World::default();
    let chunk_pos = ChunkPos::new(0, 0);
    let inner_chunk_pos = InnerChunkPos::new(0, 0, 1);
    let mut chunk = Chunk::new(chunk_pos);
    chunk.add_block(ChunkBlock {
        block_type: BlockType::Cloud,
        extra_data: BlockData::Plain,
        pos: InnerChunkPos::new(0, 0, 1),
    });
    world.insert_chunk(chunk);
    let same_chunk = world.get_chunk(&chunk_pos).unwrap();
    let same_block = same_chunk.get_block(&inner_chunk_pos);
    assert_eq!(same_block.block_type, BlockType::Cloud);
}

fn adds_blocks_scenario() {
    let mut world = World::default();
    let block_pos = WorldPos::new(0, 0, 0);
    let chunk = Chunk::new(ChunkPos { x: 0, y: 0 });

    // In the first chunk
    world.insert_chunk(chunk);
    world.add_block(&block_at(BlockType::Cloud, block_pos)).unwrap();
    let block = world.get_block(&block_pos);
    assert_eq!(block.block_type, BlockType::Cloud);
    assert_eq!(block.extra_data, BlockData::Plain);

    // In a different chunk
    let chunk2 = Chunk::new(ChunkPos { x: 1, y: 0 });
    let block_pos = WorldPos::new(16, 0, 0);
    world.insert_chunk(chunk2);
    world.add_block(&block_at(BlockType::Gold, block_pos)).unwrap();
    let block = world.get_block(&block_pos);
    assert_eq!(block.block_type, BlockType::Gold);
    assert_eq!(block.extra_data, BlockData::Plain);
}

#[test]
fn world_chunk_adds_blocks() {
    adds_blocks_scenario();
}

#[test]
fn world_unit_test_adds_blocks() {
    adds_blocks_scenario();
}

#[test]
fn world_test_adds_blocks() {
    adds_blocks_scenario();
}

#[test]
fn calculate_chunk_mesh() {
    let mut world = World::default();
    let chunk = Chunk::new(ChunkPos { x: 0, y: 0 });
    let world_pos = WorldPos::new(0, 0, 0);
    world.insert_chunk(chunk);
    world.add_block(&block_at(BlockType::Cloud, world_pos)).unwrap();
    let chunk_mesh = world.get_mesh_at(&world_pos).unwrap();
    let directions = Directions::all();
    assert_eq!(chunk_mesh, BlockMesh { directions, world_pos });
}

#[test]
fn calculate_chunk_mesh_with_adjacent_block() {
    let mut world = World::default();
    let chunk = Chunk::new(ChunkPos { x: 0, y: 0 });
    let world_pos = WorldPos::new(0, 0, 0);
    let adjacent_world_pos = WorldPos::new(0, 0, 1);
    world.insert_chunk(chunk);
    world.add_block(&block_at(BlockType::Cloud, world_pos)).unwrap();
    world.add_block(&block_at(BlockType::Cloud, adjacent_world_pos)).unwrap();
    let chunk_mesh = world.get_mesh_at(&world_pos).unwrap();
    let mut directions = Directions::all();
    directions.remove_direction(Direction::North);
    assert_eq!(chunk_mesh, BlockMesh { directions, world_pos });
}

#[test]
fn calculate_chunk_mesh_with_adjacent_block_south() {
    let mut world = World::default();
    let chunk = Chunk::new(ChunkPos { x: 0, y: 0 });
    let world_pos = WorldPos::new(0, 0, 1);
    let adjacent_world_pos = WorldPos::new(0, 0, 0);
    world.insert_chunk(chunk);
    world.add_block(&block_at(BlockType::Cloud, world_pos)).unwrap();
    world.add_block(&block_at(BlockType::Cloud, adjacent_world_pos)).unwrap();
    let chunk_mesh = world.get_mesh_at(&world_pos).unwrap();
    let mut directions = Directions::all();
    directions.remove_direction(Direction::South);
    assert_eq!(chunk_mesh, BlockMesh { directions, world_pos });
}

#[test]
fn calculate_visible_faces() {
    let mut world = World::new();
    let mut chunk = Chunk::new(ChunkPos { x: 0, y: 0 });
    chunk.add_block(ChunkBlock {
        pos: InnerChunkPos::new(0, 0, 0),
        block_type: BlockType::Cloud,
        extra_data: BlockData::Plain,
    });
    world.insert_chunk(chunk);
    let mesh = world.get_mesh_at(&WorldPos::new(0, 0, 0)).unwrap();
    assert_eq!(mesh.directions.len(), 6);
    let block = world.get_block(&mesh.world_pos);
    assert_eq!(block.block_type, BlockType::Cloud);
}

#[test]
fn block_test_gets_visible_faces() {
    let mut world = World::new();
    let world_pos = WorldPos::new(0, 0, 0);
    let other_world_pos = WorldPos::new(1, 0, 0);
    world.insert_chunk(Chunk::new(ChunkPos::new(0, 0)));
    world.add_block(&block_at(BlockType::Cloud, world_pos)).unwrap();
    world.add_block(&block_at(BlockType::Cloud, other_world_pos)).unwrap();
    let mesh = world.get_mesh_at(&world_pos).unwrap();
    assert_eq!(mesh.directions.has_direction(Direction::East), false);
    assert_eq!(mesh.directions.has_direction(Direction::West), true);
}

#[test]
fn visibility_of_an_opaque_pair() {
    let mut world = World::new();
    world.insert_chunk(Chunk::new(ChunkPos::new(0, 0)));
    let a = WorldPos::new(4, 10, 4);
    let b = WorldPos::new(4, 11, 4);
    world.add_block(&block_at(BlockType::Stone, a)).unwrap();
    assert_eq!(world.get_mesh_at(&a).unwrap().directions.len(), 6);
    world.add_block(&block_at(BlockType::Stone, b)).unwrap();
    let mesh_a = world.get_mesh_at(&a).unwrap().directions;
    let mesh_b = world.get_mesh_at(&b).unwrap().directions;
    assert_eq!(mesh_a.len(), 5);
    assert_eq!(mesh_b.len(), 5);
    assert!(!mesh_a.has_direction(Direction::Up));
    assert!(!mesh_b.has_direction(Direction::Down));
}

#[test]
fn add_then_remove_leaves_void() {
    let mut world = World::new();
    world.insert_chunk(Chunk::new(ChunkPos::new(0, 0)));
    let p = WorldPos::new(3, 3, 3);
    let q = WorldPos::new(3, 4, 3);
    world.add_block(&block_at(BlockType::Wood, p)).unwrap();
    world.add_block(&block_at(BlockType::Wood, q)).unwrap();
    assert!(!world.get_mesh_at(&q).unwrap().directions.has_direction(Direction::Down));
    world.remove_block(&p).unwrap();
    assert_eq!(world.get_block(&p).block_type, BlockType::Void);
    assert_eq!(world.get_mesh_at(&p).unwrap().directions, Directions::empty());
    // the neighbour's face towards the removed block shows again
    assert!(world.get_mesh_at(&q).unwrap().directions.has_direction(Direction::Down));
}

#[test]
fn mutations_need_a_loaded_chunk() {
    let mut world = World::new();
    let p = WorldPos::new(0, 0, 0);
    assert!(!world.is_block_loaded(&p));
    assert!(matches!(world.add_block(&block_at(BlockType::Stone, p)), Err(ChunkNotLoadedError)));
    assert!(matches!(world.remove_block(&p), Err(ChunkNotLoadedError)));
    assert!(matches!(world.get_mesh_at(&p), Err(ChunkNotLoadedError)));
    assert!(world.get_chunk(&ChunkPos::new(0, 0)).is_err());
    assert!(world.get_chunk_mesh(&ChunkPos::new(0, 0)).is_err());
    // a query never fails
    assert_eq!(world.get_block(&p).block_type, BlockType::Void);

    world.insert_chunk(Chunk::new(ChunkPos::new(0, 0)));
    assert!(world.is_block_loaded(&p));
    assert!(world.has_chunk(&ChunkPos::new(0, 0)));
    // above the column the chunk is loaded but holds no block
    let high = WorldPos::new(0, 64, 0);
    assert!(world.is_block_loaded(&high));
    assert_eq!(world.get_block(&high).block_type, BlockType::Void);
    assert_eq!(world.get_mesh_at(&high).unwrap().directions, Directions::empty());
    let diff = world.remove_block(&high).unwrap();
    assert!(diff.chunk_positions.is_empty());
    let low = WorldPos::new(3, -1, 3);
    assert!(world.is_block_loaded(&low));
    assert_eq!(world.get_mesh_at(&low).unwrap(), BlockMesh { world_pos: low, directions: Directions::empty() });
    assert!(world.remove_block(&WorldPos::new(3, 100, 3)).is_ok());
    // an unloaded chunk fails whatever the height
    assert!(world.get_mesh_at(&WorldPos::new(0, 100, 16)).is_err());
    assert!(world.remove_block(&WorldPos::new(0, 100, 16)).is_err());
    assert!(!world.is_block_loaded(&WorldPos::new(0, 100, 16)));
    // a neighbouring chunk is not loaded
    assert!(world.add_block(&block_at(BlockType::Stone, WorldPos::new(-1, 0, 0))).is_err());
}

#[test]
fn block_change_refreshes_the_neighbouring_chunk() {
    let mut world = World::new();
    world.insert_chunk(Chunk::new(ChunkPos::new(0, 0)));
    world.insert_chunk(Chunk::new(ChunkPos::new(1, 0)));
    let left = WorldPos::new(15, 0, 0);
    let right = WorldPos::new(16, 0, 0);
    world.add_block(&block_at(BlockType::Stone, left)).unwrap();
    let diff = world.add_block(&block_at(BlockType::Stone, right)).unwrap();
    assert!(diff.chunk_positions.contains(&ChunkPos::new(1, 0)));
    assert!(diff.chunk_positions.contains(&ChunkPos::new(0, 0)));
    assert_eq!(diff.chunk_positions.len(), 2);
    assert!(!world.get_mesh_at(&left).unwrap().directions.has_direction(Direction::East));
    assert!(!world.get_mesh_at(&right).unwrap().directions.has_direction(Direction::West));

    // a change in the middle of a chunk touches that chunk only
    let diff = world.add_block(&block_at(BlockType::Stone, WorldPos::new(8, 8, 8))).unwrap();
    assert_eq!(diff.chunk_positions, vec![ChunkPos::new(0, 0)]);
}

#[test]
fn inserting_a_chunk_hides_boundary_faces_of_its_neighbour() {
    let mut world = World::new();
    world.insert_chunk(Chunk::new(ChunkPos::new(0, 0)));
    let left = WorldPos::new(15, 2, 5);
    world.add_block(&block_at(BlockType::Stone, left)).unwrap();
    assert!(world.get_mesh_at(&left).unwrap().directions.has_direction(Direction::East));

    let mut right = Chunk::new(ChunkPos::new(1, 0));
    right.add_block(ChunkBlock {
        pos: InnerChunkPos::new(0, 2, 5),
        block_type: BlockType::Stone,
        extra_data: BlockData::Plain,
    });
    let diff = world.insert_chunk(right);
    assert_eq!(diff.chunk_positions, vec![ChunkPos::new(1, 0), ChunkPos::new(0, 0)]);
    assert!(!world.get_mesh_at(&left).unwrap().directions.has_direction(Direction::East));
    let right_pos = WorldPos::new(16, 2, 5);
    assert!(!world.get_mesh_at(&right_pos).unwrap().directions.has_direction(Direction::West));
    assert_eq!(world.get_mesh_at(&right_pos).unwrap().directions.len(), 5);
}

#[test]
fn mesh_does_not_depend_on_the_order_of_changes() {
    let blocks = [
        block_at(BlockType::Stone, WorldPos::new(15, 0, 15)),
        block_at(BlockType::Water, WorldPos::new(16, 0, 15)),
        block_at(BlockType::Water, WorldPos::new(16, 1, 15)),
        block_at(BlockType::Leaf, WorldPos::new(15, 0, 16)),
    ];
    let chunks = [ChunkPos::new(0, 0), ChunkPos::new(1, 0), ChunkPos::new(0, 1)];

    let mut first = World::new();
    for c in chunks.iter() {
        first.load_chunk(c);
    }
    for b in blocks.iter() {
        first.add_block(b).unwrap();
    }

    let mut second = World::new();
    for c in chunks.iter().rev() {
        second.load_chunk(c);
    }
    for b in blocks.iter().rev() {
        second.add_block(b).unwrap();
    }

    for b in blocks.iter() {
        let m1 = first.get_mesh_at(&b.world_pos).unwrap();
        let m2 = second.get_mesh_at(&b.world_pos).unwrap();
        assert_eq!(m1, m2);
    }
    // water beside water hides the shared face
    let w = first.get_mesh_at(&WorldPos::new(16, 0, 15)).unwrap().directions;
    assert!(!w.has_direction(Direction::Up));
    // stone beside water shows its face
    let s = first.get_mesh_at(&WorldPos::new(15, 0, 15)).unwrap().directions;
    assert!(s.has_direction(Direction::East));
    // stone beside a leaf shows its face
    assert!(s.has_direction(Direction::North));
}

#[test]
fn block_mesh_planes() {
    let mut world = World::new();
    world.insert_chunk(Chunk::new(ChunkPos::new(0, 0)));
    let p = WorldPos::new(5, 0, 0);
    world.add_block(&block_at(BlockType::Stone, p)).unwrap();
    world.add_block(&block_at(BlockType::Stone, WorldPos::new(5, 1, 0))).unwrap();
    let planes = world.get_mesh_at(&p).unwrap().planes();
    assert_eq!(planes.len(), 5);
    assert_eq!(planes[0], WorldPlane::new(p, Direction::North));
    assert!(planes.iter().all(|plane| plane.direction != Direction::Up));
    assert_eq!(WorldPlane::new(p, Direction::East).get_relative_y(), 6);
    assert_eq!(WorldPlane::new(p, Direction::West).get_relative_y(), 5);
    assert_eq!(WorldPlane::new(p, Direction::Up).get_relative_y(), 1);
}

#[test]
fn mesh_keeps_entries_for_blocks_only() {
    let mut world = World::new();
    world.insert_chunk(Chunk::new(ChunkPos::new(0, 0)));
    let p = WorldPos::new(1, 1, 1);
    let q = WorldPos::new(1, 2, 1);
    world.add_block(&block_at(BlockType::Stone, p)).unwrap();
    {
        let mesh = world.get_chunk_mesh(&ChunkPos::new(0, 0)).unwrap();
        assert!(mesh.contains(p));
        assert!(!mesh.contains(q));
        assert_eq!(mesh.chunk_pos(), ChunkPos::new(0, 0));
    }
    world.remove_block(&p).unwrap();
    let mesh = world.get_chunk_mesh(&ChunkPos::new(0, 0)).unwrap();
    assert!(!mesh.contains(p));
}

#[test]
fn chunk_mesh_entries_list_blocks_in_slot_order() {
    let mut world = World::new();
    world.insert_chunk(Chunk::new(ChunkPos::new(-1, 0)));
    let a = WorldPos::new(-16, 0, 0);
    let b = WorldPos::new(-1, 0, 3);
    world.add_block(&block_at(BlockType::Gold, b)).unwrap();
    world.add_block(&block_at(BlockType::Gold, a)).unwrap();
    let mesh = world.get_chunk_mesh(&ChunkPos::new(-1, 0)).unwrap();
    let entries = mesh.entries();
    assert_eq!(entries.len(), 2);
    assert_eq!(entries[0].0, a);
    assert_eq!(entries[1].0, b);
    assert_eq!(entries[0].1.len(), 6);
}

#[test]
fn directions_from_a_list() {
    let set = Directions::from_directions(&vec![Direction::Up, Direction::West, Direction::Up]);
    assert_eq!(set.to_vec(), vec![Direction::Up, Direction::West]);
    assert_eq!(Directions::from_directions(&vec![]), Directions::empty());
}

#[test]
fn block_getters() {
    let mut world = World::new();
    world.insert_chunk(Chunk::new(ChunkPos::new(0, 0)));
    let p = WorldPos::new(2, 2, 2);
    world.add_block(&block_at(BlockType::Planks, p)).unwrap();
    assert_eq!(BlockGetter::get_block(&world, &p).block_type, BlockType::Planks);
    let void = VoidBlockGetter;
    assert_eq!(void.get_block(&p), WorldBlock::empty(p));
}
