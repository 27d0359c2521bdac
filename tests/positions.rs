use voxel_world::{ChunkPos, Direction, FlatDirection, InnerChunkPos, Vec2, Vec3, WorldPos};

#[test]
fn unit_tests_index_conversion() {
    fn do_test(index: usize, inner_chunk_pos: InnerChunkPos) {
        assert_eq!(inner_chunk_pos.to_chunk_index(), index);
        assert_eq!(InnerChunkPos::make_from_chunk_index(index), inner_chunk_pos);
    }

    do_test(1024 + 32 + 3, InnerChunkPos::new(1, 2, 3));
    do_test(0, InnerChunkPos::new(0, 0, 0));
}

#[test]
fn inner_chunk_pos_to_world_pos() {
    fn do_test(inner_chunk_pos: InnerChunkPos, chunk_pos: ChunkPos, world_pos: WorldPos) {
        assert_eq!(inner_chunk_pos.to_world_pos(&chunk_pos), world_pos);
    }

    do_test(
        InnerChunkPos::new(1, 2, 3),
        ChunkPos { x: 0, y: 0 },
        WorldPos { x: 1, y: 2, z: 3 },
    );
    do_test(
        InnerChunkPos::new(1, 2, 3),
        ChunkPos { x: 1, y: 1 },
        WorldPos { x: 17, y: 2, z: 19 },
    );
    do_test(
        InnerChunkPos::new(1, 2, 3),
        ChunkPos { x: -1, y: -1 },
        WorldPos { x: -15, y: 2, z: -13 },
    )
}

#[test]
fn world_pos_to_chunk_pos() {
    assert_eq!(WorldPos { x: 1, y: 2, z: 3 }.to_chunk_pos(), ChunkPos { x: 0, y: 0 });
    assert_eq!(WorldPos { x: 0, y: 0, z: 0 }.to_chunk_pos(), ChunkPos { x: 0, y: 0 });
    assert_eq!(WorldPos { x: -1, y: 0, z: -1 }.to_chunk_pos(), ChunkPos { x: -1, y: -1 });
    assert_eq!(WorldPos { x: -16, y: 0, z: -16 }.to_chunk_pos(), ChunkPos { x: -1, y: -1 });
    assert_eq!(WorldPos { x: 16, y: 0, z: 0 }.to_chunk_pos(), ChunkPos { x: 1, y: 0 });
    assert_eq!(WorldPos { x: 0, y: 0, z: -1 }.to_chunk_pos(), ChunkPos { x: 0, y: -1 });
}

#[test]
fn world_pos_to_inner_chunk_pos() {
    assert_eq!(
        WorldPos { x: 1, y: 2, z: 3 }.to_inner_chunk_pos(),
        InnerChunkPos { x: 1, y: 2, z: 3 }
    );
    assert_eq!(
        WorldPos { x: -1, y: 0, z: 1 }.to_inner_chunk_pos(),
        InnerChunkPos { x: 15, y: 0, z: 1 }
    );
    assert_eq!(
        WorldPos { x: -1, y: 0, z: -1 }.to_inner_chunk_pos(),
        InnerChunkPos { x: 15, y: 0, z: 15 }
    );
    assert_eq!(
        WorldPos { x: -32, y: 20, z: 0 }.to_inner_chunk_pos(),
        InnerChunkPos { x: 0, y: 20, z: 0 }
    );
}

#[test]
fn chunk_unit_tests_index_conversion() {
    let index = InnerChunkPos::new(1, 2, 3).to_chunk_index();
    assert_eq!(index, 1024 + 32 + 3);
    let pos = InnerChunkPos::make_from_chunk_index(index);
    assert_eq!(pos, InnerChunkPos::new(1, 2, 3));

    let index = InnerChunkPos::new(0, 0, 0).to_chunk_index();
    let pos = InnerChunkPos::make_from_chunk_index(index);
    assert_eq!(pos, InnerChunkPos::new(0, 0, 0));
}

#[test]
fn conversion() {
    let inner_chunk_pos = InnerChunkPos::new(1, 2, 3);
    let chunk = voxel_world::Chunk::new(ChunkPos { x: 0, y: 0 });
    let world_pos = inner_chunk_pos.to_world_pos(&chunk.position());
    assert_eq!(world_pos, WorldPos { x: 1, y: 2, z: 3 });
}

#[test]
fn chunk_pos_to_world_pos() {
    let chunk = voxel_world::Chunk::new(ChunkPos { x: 1, y: 1 });
    let inner_chunk_pos = InnerChunkPos::new(1, 2, 3);
    let world_pos = inner_chunk_pos.to_world_pos(&chunk.position());
    assert_eq!(world_pos, WorldPos { x: 17, y: 2, z: 19 });

    let chunk = voxel_world::Chunk::new(ChunkPos { x: -1, y: -1 });
    let world_pos = inner_chunk_pos.to_world_pos(&chunk.position());
    assert_eq!(world_pos, WorldPos { x: -15, y: 2, z: -13 });
}

#[test]
fn world_pos_conversions() {
    let world_pos = WorldPos::new(2, 3, 4);
    let chunk_pos = world_pos.to_chunk_pos();
    assert_eq!(chunk_pos.x, 0);
    assert_eq!(chunk_pos.y, 0);
}

#[test]
fn index_packs_last_slot() {
    let p = InnerChunkPos::new(15, 63, 15);
    assert_eq!(p.to_chunk_index(), 16383);
    assert_eq!(InnerChunkPos::make_from_chunk_index(16383), p);
}

#[test]
fn every_index_round_trips() {
    for index in 0..16384usize {
        let p = InnerChunkPos::make_from_chunk_index(index);
        assert!(p.x < 16 && p.y < 64 && p.z < 16);
        assert_eq!(p.to_chunk_index(), index);
    }
}

#[test]
fn world_pos_round_trip_negative() {
    let w = WorldPos { x: -1, y: 0, z: -1 };
    let chunk = w.to_chunk_pos();
    let inner = w.to_inner_chunk_pos();
    assert_eq!(chunk, ChunkPos { x: -1, y: -1 });
    assert_eq!(inner, InnerChunkPos { x: 15, y: 0, z: 15 });
    assert_eq!(inner.to_world_pos(&chunk), w);

    for x in -40..40 {
        for z in [-33, -17, -16, -15, 0, 15, 16, 31] {
            let w = WorldPos { x, y: 7, z };
            assert_eq!(w.to_inner_chunk_pos().to_world_pos(&w.to_chunk_pos()), w);
        }
    }
}

#[test]
fn world_pos_validity() {
    assert!(WorldPos::new(0, 0, 0).is_valid());
    assert!(WorldPos::new(0, 255, 0).is_valid());
    assert!(!WorldPos::new(0, 256, 0).is_valid());
    assert!(!WorldPos::new(0, -1, 0).is_valid());
}

#[test]
fn chunk_ids() {
    assert_eq!(ChunkPos::new(0, 0).to_id(), 0);
    // x = 1 -> 2, y = 0 -> 0: (2 * 3) / 2 + 0 = 3
    assert_eq!(ChunkPos::new(1, 0).to_id(), 3);
    // x = -1 -> 3, y = -1 -> 3: (6 * 7) / 2 + 3 = 24
    assert_eq!(ChunkPos::new(-1, -1).to_id(), 24);
    assert_ne!(ChunkPos::new(1, 2).to_id(), ChunkPos::new(2, 1).to_id());
}

#[test]
fn chunk_world_index() {
    assert_eq!(ChunkPos::new(3, 0).to_world_index(), 3);
    assert_eq!(ChunkPos::new(1, 2).to_world_index(), 1 + 2 * 65536);
    assert_eq!(ChunkPos::new(-1, -1).to_world_index(), -1 - 65536);
}

#[test]
fn vec_arithmetic() {
    let v = WorldPos::new(1, 2, 3);
    assert_eq!(v.sum(), 6);
    assert_eq!(v.scalar_mult(2), WorldPos::new(2, 4, 6));
    assert_eq!(v.add_vec(WorldPos::new(-1, 1, 0)), WorldPos::new(0, 3, 3));
    assert_eq!(v.move_direction(&Direction::Down), WorldPos::new(1, 1, 3));
    assert_eq!(v.move_direction(&Direction::North), WorldPos::new(1, 2, 4));
    assert_eq!(Vec3::from_direction(Direction::West), WorldPos::new(-1, 0, 0));
    assert_eq!(v.get_component_from_direction(Direction::East), 1);
    assert_eq!(v.get_component_from_direction(Direction::Up), 2);
    assert_eq!(v.get_component_from_direction(Direction::South), 3);
    assert_eq!(v.get_opposite_components_from_direction(Direction::North), (1, 2));
    assert_eq!(v.get_opposite_components_from_direction(Direction::East), (2, 3));
    assert_eq!(v.get_opposite_components_from_direction(Direction::Up), (1, 3));
    assert_eq!(v.map(|c| c * 10), WorldPos::new(10, 20, 30));

    let adjacent = v.get_adjacent_vecs();
    assert_eq!(adjacent.len(), 6);
    assert_eq!(adjacent[0], WorldPos::new(1, 2, 4));
    assert_eq!(adjacent[5], WorldPos::new(0, 2, 3));
    let cross = v.get_cross_vecs();
    assert_eq!(cross.len(), 7);
    assert_eq!(cross[0], v);

    let c: ChunkPos = Vec2::new(2, -3);
    assert_eq!(c.scalar_mul(16), ChunkPos::new(32, -48));
    assert_eq!(c.add_vec(ChunkPos::new(1, 1)), ChunkPos::new(3, -2));
    assert_eq!(c.move_to_3d(5), Vec3::new(2, 5, -3));
    assert_eq!(c.move_in_flat_direction(&FlatDirection::East), ChunkPos::new(3, -3));
    let around = c.get_adjacent_vecs();
    assert_eq!(
        around,
        vec![
            ChunkPos::new(2, -2),
            ChunkPos::new(2, -4),
            ChunkPos::new(3, -3),
            ChunkPos::new(1, -3)
        ]
    );
}

#[test]
fn directions() {
    for i in 0..6 {
        assert_eq!(Direction::from_index(i).to_index(), i);
    }
    assert_eq!(Direction::Up.flatten(), FlatDirection::North);
    assert_eq!(Direction::Down.flatten(), FlatDirection::South);
    assert_eq!(Direction::West.flatten(), FlatDirection::West);
    assert!(Direction::East.is_outward());
    assert!(Direction::North.is_outward());
    assert!(Direction::Up.is_outward());
    assert!(!Direction::West.is_outward());
    assert!(!Direction::South.is_outward());
    assert!(!Direction::Down.is_outward());

    let mut all = voxel_world::Directions::all();
    assert_eq!(all.len(), 6);
    all.remove_direction(Direction::Up);
    assert_eq!(all.len(), 5);
    assert!(!all.has_direction(Direction::Up));
    assert_eq!(
        all.to_vec(),
        vec![Direction::North, Direction::South, Direction::Down, Direction::East, Direction::West]
    );
    let one = Direction::East.to_directions();
    assert_eq!(one.to_vec(), vec![Direction::East]);
    assert_eq!(voxel_world::Directions::empty().len(), 0);
}

#[test]
fn position_ids() {
    assert_eq!(ChunkPos::new(-3, 12).to_index(), "-3,12");
    assert_eq!(ChunkPos::new(0, 0).to_index(), "0,0");
    assert_eq!(WorldPos::new(1, -2, 30).to_index(), "1,-2,30");
    assert_eq!(WorldPos::new(i32::MIN, 0, i32::MAX).to_index(), "-2147483648,0,2147483647");
    assert_eq!(voxel_world::Chunk::new(ChunkPos::new(7, -100)).get_uuid(), "7,-100");
}
