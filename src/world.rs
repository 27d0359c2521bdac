use crate::block::{BlockData, BlockShape, BlockType, metadata_of};
use crate::chunk::Chunk;
use crate::chunk_mesh::{BlockMesh, ChunkMesh, no_faces, slot_of};
use crate::direction::{
    Direction, Directions, direction_at, index_of_direction, lemma_directions_ext, opposite,
};
use crate::positions::{
    CHUNK_HEIGHT, CHUNK_MEM_SIZE, ChunkPos, InnerChunkPos, WorldPos, chunk_in_range, chunk_of, in_column,
    inner_at, inner_of, inner_valid, lemma_chunk_index_bijection, lemma_split_injective,
    lemma_world_of_split, world_of,
};
use crate::vec::{Vec2, dx, dy, dz, step, steps_fit};
use crate::world_block::{AdjacentBlocks, WorldBlock, face_set, face_visible, visible_faces};
use std::collections::HashMap;
use vstd::prelude::*;

verus! {

broadcast use vstd::std_specs::hash::group_hash_axioms;

/// The chunk that an operation needs is not loaded.
#[derive(Clone, Copy, Debug, PartialEq, Eq, Structural)]
pub struct ChunkNotLoadedError;

/// The chunks whose meshes an operation recomputed.
pub struct WorldStateDiff {
    pub chunk_positions: Vec<ChunkPos>,
}

/// The key under which a chunk is stored.
pub open spec fn chunk_key(c: ChunkPos) -> i64 {
    (c.x * 65536 + c.y) as i64
}

/// The absolute value of `v`.
pub open spec fn iabs(v: int) -> int {
    if v < 0 {
        -v
    } else {
        v
    }
}

/// Whether `q` shares a face with `p`.
pub open spec fn is_adjacent(q: WorldPos, p: WorldPos) -> bool {
    iabs(q.x - p.x) + iabs(q.y - p.y) + iabs(q.z - p.z) == 1
}

/// Whether chunk `a` is `c` or one of its four side neighbours.
pub open spec fn chunk_near(a: ChunkPos, c: ChunkPos) -> bool {
    iabs(a.x - c.x) + iabs(a.y - c.y) <= 1
}

/// Which direction leads from `p` to an adjacent `q`.
pub open spec fn offset_index(p: WorldPos, q: WorldPos) -> int {
    if q.z == p.z + 1 {
        0
    } else if q.z == p.z - 1 {
        1
    } else if q.y == p.y + 1 {
        2
    } else if q.y == p.y - 1 {
        3
    } else if q.x == p.x + 1 {
        4
    } else {
        5
    }
}

/// Whether a block type is an opaque, non-fluid cube.
pub open spec fn solid_cube(t: BlockType) -> bool {
    t != BlockType::Void && metadata_of(t).shape == BlockShape::Cube && !metadata_of(t).transparent
        && !metadata_of(t).fluid
}

/// `after` is `before` with block `b` written at its position: the same
/// chunks are loaded and no other block differs.
pub open spec fn placed(before: World, after: World, b: WorldBlock) -> bool {
    &&& forall|c: ChunkPos| #[trigger] after.loaded(c) == before.loaded(c)
    &&& forall|w: WorldPos|
        #[trigger] after.block_at(w) == if w == b.world_pos {
            b
        } else {
            before.block_at(w)
        }
}

/// All loaded chunks and their meshes.
///
/// Every mesh entry equals the visible faces derived from the blocks of the
/// loaded chunks (blocks of unloaded chunks count as void), and a mesh holds
/// entries for blocks that are not void only.
pub struct World {
    chunks: HashMap<i64, Chunk>,
    chunk_meshes: HashMap<i64, ChunkMesh>,
}

impl World {
    /// Whether chunk `c` is loaded.
    pub closed spec fn loaded(&self, c: ChunkPos) -> bool {
        self.chunks@.contains_key(chunk_key(c))
    }

    /// The loaded chunk at `c`.
    pub closed spec fn chunk(&self, c: ChunkPos) -> Chunk {
        self.chunks@[chunk_key(c)]
    }

    /// The face set stored in the mesh for the block at `w`.
    pub closed spec fn mesh_at(&self, w: WorldPos) -> Directions {
        self.chunk_meshes@[chunk_key(chunk_of(w))].faces(slot_of(w))
    }

    /// Whether the mesh stores an entry for the block at `w`.
    pub closed spec fn mesh_has(&self, w: WorldPos) -> bool {
        self.chunk_meshes@[chunk_key(chunk_of(w))].has_entry(slot_of(w))
    }

    /// The mesh entry at `w` is the derived face set, and only a block that
    /// is not void has an entry.
    pub closed spec fn entry_ok(&self, w: WorldPos) -> bool {
        self.mesh_at(w) == self.visible_at(w) && (self.mesh_has(w) ==> self.type_at(w)
            != BlockType::Void)
    }

    /// Whether the chunk of `w` is representable and loaded, whatever the
    /// height of `w`.
    pub open spec fn chunk_loaded_at(&self, w: WorldPos) -> bool {
        chunk_in_range(w) && self.loaded(chunk_of(w))
    }

    /// Whether `w` is a block slot of a loaded chunk.
    pub open spec fn holds(&self, w: WorldPos) -> bool {
        in_column(w) && self.loaded(chunk_of(w))
    }

    /// The type of the block at `w`; void where no loaded chunk holds `w`.
    pub open spec fn type_at(&self, w: WorldPos) -> BlockType {
        if self.holds(w) {
            self.chunk(chunk_of(w)).type_at(slot_of(w))
        } else {
            BlockType::Void
        }
    }

    /// The extra data of the block at `w`.
    pub open spec fn data_at(&self, w: WorldPos) -> BlockData {
        if self.holds(w) {
            self.chunk(chunk_of(w)).data_at(slot_of(w))
        } else {
            BlockData::Plain
        }
    }

    /// The block at `w`.
    pub open spec fn block_at(&self, w: WorldPos) -> WorldBlock {
        WorldBlock { block_type: self.type_at(w), extra_data: self.data_at(w), world_pos: w }
    }

    /// The types of the neighbours of `w`; a neighbour with a height
    /// outside [0, 256) is not looked up.
    pub open spec fn neighbour_types(&self, w: WorldPos) -> spec_fn(Direction) -> Option<BlockType> {
        |d: Direction|
            if 0 <= step(w, d).y < 256 {
                Option::Some(self.type_at(step(w, d)))
            } else {
                Option::None
            }
    }

    /// The visible faces of the block at `w`, derived from the blocks alone.
    #[verifier::opaque]
    pub open spec fn visible_at(&self, w: WorldPos) -> Directions {
        visible_faces(self.block_at(w), self.neighbour_types(w))
    }

    /// Chunks and meshes are stored consistently.
    pub closed spec fn structure_ok(&self) -> bool {
        &&& forall|k: i64| #[trigger]
            self.chunks@.contains_key(k) ==> self.chunks@[k].wf() && chunk_key(
                self.chunks@[k].pos(),
            ) == k
        &&& forall|k: i64| #[trigger]
            self.chunk_meshes@.contains_key(k) == self.chunks@.contains_key(k)
        &&& forall|k: i64| #[trigger]
            self.chunk_meshes@.contains_key(k) ==> self.chunk_meshes@[k].pos()
                == self.chunks@[k].pos()
        &&& forall|k: i64, i: int|
            self.chunk_meshes@.contains_key(k) && #[trigger] self.chunk_meshes@[k].has_entry(i)
                ==> 0 <= i < CHUNK_MEM_SIZE
    }

    /// The mesh is right at every held position that satisfies `f`.
    pub closed spec fn mesh_ok_where(&self, f: spec_fn(WorldPos) -> bool) -> bool {
        forall|q: WorldPos| self.holds(q) && f(q) ==> #[trigger] self.entry_ok(q)
    }

    /// The world's invariant: consistent storage, and at every held position
    /// a mesh entry equal to the derived visible faces, stored only for a
    /// block that is not void.
    pub closed spec fn wf(&self) -> bool {
        self.structure_ok() && self.mesh_ok_where(|q: WorldPos| true)
    }

    /// A world with no chunk.
    pub fn new() -> (r: World)
        ensures
            r.wf(),
            forall|c: ChunkPos| !r.loaded(c),
    {
        World { chunks: HashMap::new(), chunk_meshes: HashMap::new() }
    }

    /// Whether chunk `chunk_pos` is loaded.
    pub fn has_chunk(&self, chunk_pos: &ChunkPos) -> (r: bool)
        ensures
            r == self.loaded(*chunk_pos),
    {
        self.chunks.contains_key(&key_of(chunk_pos))
    }

    /// The loaded chunk at `chunk_pos`.
    pub fn get_chunk(&self, chunk_pos: &ChunkPos) -> (r: Result<&Chunk, ChunkNotLoadedError>)
        requires
            self.wf(),
        ensures
            r.is_ok() == self.loaded(*chunk_pos),
            r.is_ok() ==> *r.unwrap() == self.chunk(*chunk_pos) && r.unwrap().wf()
                && r.unwrap().pos() == *chunk_pos,
    {
        match self.chunks.get(&key_of(chunk_pos)) {
            Some(chunk) => {
                proof {
                    lemma_chunk_key_injective(chunk.pos(), *chunk_pos);
                }
                Ok(chunk)
            },
            None => Err(ChunkNotLoadedError),
        }
    }

    /// The loaded chunk holding `world_pos`.
    pub fn get_chunk_from_world_pos(&self, world_pos: &WorldPos) -> (r: Result<
        &Chunk,
        ChunkNotLoadedError,
    >)
        requires
            self.wf(),
        ensures
            r.is_ok() == self.loaded(chunk_of(*world_pos)),
            r.is_ok() ==> *r.unwrap() == self.chunk(chunk_of(*world_pos)),
    {
        self.get_chunk(&world_pos.to_chunk_pos())
    }

    /// The block at `world_pos`; a void block where no loaded chunk holds it.
    pub fn get_block(&self, world_pos: &WorldPos) -> (r: WorldBlock)
        requires
            self.wf(),
        ensures
            r == self.block_at(*world_pos),
    {
        self.read_block(world_pos)
    }

    fn read_block(&self, world_pos: &WorldPos) -> (r: WorldBlock)
        requires
            self.structure_ok(),
        ensures
            r == self.block_at(*world_pos),
    {
        if !in_column_exec(world_pos) {
            return WorldBlock::empty(*world_pos);
        }
        let chunk_pos = world_pos.to_chunk_pos();
        match self.chunks.get(&key_of(&chunk_pos)) {
            Some(chunk) => {
                let b = chunk.get_block(&world_pos.to_inner_chunk_pos());
                WorldBlock {
                    block_type: b.block_type,
                    extra_data: b.extra_data,
                    world_pos: *world_pos,
                }
            },
            None => WorldBlock::empty(*world_pos),
        }
    }

    /// Whether the chunk of `world_pos` has been loaded. This does not say
    /// that the block is visible, nor that its height is inside the column.
    pub fn is_block_loaded(&self, world_pos: &WorldPos) -> (r: bool)
        ensures
            r == self.chunk_loaded_at(*world_pos),
    {
        chunk_in_range_exec(world_pos) && self.chunks.contains_key(
            &key_of(&world_pos.to_chunk_pos()),
        )
    }

    /// Whether a loaded chunk holds `world_pos` as one of its block slots.
    fn holds_slot(&self, world_pos: &WorldPos) -> (r: bool)
        ensures
            r == self.holds(*world_pos),
    {
        in_column_exec(world_pos) && self.chunks.contains_key(&key_of(&world_pos.to_chunk_pos()))
    }

    /// The neighbours of `world_pos` whose height is within [0, 256).
    pub fn get_adjacent_blocks(&self, world_pos: &WorldPos) -> (r: AdjacentBlocks)
        requires
            self.wf(),
            steps_fit(*world_pos),
        ensures
            r.wf(),
            forall|d: Direction|
                #[trigger] r.at(d) == if 0 <= step(*world_pos, d).y < 256 {
                    Some(self.block_at(step(*world_pos, d)))
                } else {
                    None
                },
    {
        self.read_adjacent(world_pos)
    }

    fn read_adjacent(&self, world_pos: &WorldPos) -> (r: AdjacentBlocks)
        requires
            self.structure_ok(),
            steps_fit(*world_pos),
        ensures
            r.wf(),
            forall|d: Direction|
                #[trigger] r.at(d) == if 0 <= step(*world_pos, d).y < 256 {
                    Some(self.block_at(step(*world_pos, d)))
                } else {
                    None
                },
    {
        let mut adjacent_blocks = AdjacentBlocks::new();
        let mut i: usize = 0;
        while i < 6
            invariant
                0 <= i <= 6,
                self.structure_ok(),
                steps_fit(*world_pos),
                adjacent_blocks.wf(),
                forall|d: Direction|
                    #[trigger] adjacent_blocks.at(d) == if index_of_direction(d) < i && 0 <= step(
                        *world_pos,
                        d,
                    ).y < 256 {
                        Some(self.block_at(step(*world_pos, d)))
                    } else {
                        None
                    },
            decreases 6 - i,
        {
            let direction = Direction::from_index(i);
            let adjacent_pos = world_pos.move_direction(&direction);
            if adjacent_pos.is_valid() {
                let block = self.read_block(&adjacent_pos);
                adjacent_blocks.insert(direction, block);
            }
            i = i + 1;
        }
        adjacent_blocks
    }

    /// The visible faces of the block at `world_pos` as the mesh stores them.
    /// Fails only where the chunk of `world_pos` is not loaded; above or below
    /// the column of a loaded chunk there is no block, hence no visible face.
    pub fn get_mesh_at(&self, world_pos: &WorldPos) -> (r: Result<BlockMesh, ChunkNotLoadedError>)
        requires
            self.wf(),
        ensures
            r.is_ok() == self.chunk_loaded_at(*world_pos),
            r.is_ok() ==> r.unwrap().world_pos == *world_pos && r.unwrap().directions
                == self.visible_at(*world_pos),
            r.is_ok() && !in_column(*world_pos) ==> r.unwrap().directions == no_faces(),
    {
        if !self.is_block_loaded(world_pos) {
            return Err(ChunkNotLoadedError);
        }
        if !in_column_exec(world_pos) {
            let directions = Directions::empty();
            proof {
                lemma_void_invisible(*self, *world_pos);
                lemma_directions_ext(directions, no_faces());
            }
            return Ok(BlockMesh { world_pos: *world_pos, directions });
        }
        let key = key_of(&world_pos.to_chunk_pos());
        match self.chunk_meshes.get(&key) {
            Some(mesh) => {
                proof {
                    assert(self.holds(*world_pos) && (|q: WorldPos| true)(*world_pos));
                    assert(self.entry_ok(*world_pos));
                }
                Ok(mesh.get(*world_pos))
            },
            None => Err(ChunkNotLoadedError),
        }
    }

    /// The mesh of the loaded chunk at `chunk_pos`.
    pub fn get_chunk_mesh(&self, chunk_pos: &ChunkPos) -> (r: Result<
        &ChunkMesh,
        ChunkNotLoadedError,
    >)
        requires
            self.wf(),
        ensures
            r.is_ok() == self.loaded(*chunk_pos),
            r.is_ok() ==> r.unwrap().pos() == *chunk_pos,
            r.is_ok() ==> forall|i: int|
                #[trigger] r.unwrap().has_entry(i) ==> 0 <= i < CHUNK_MEM_SIZE && self.type_at(
                    world_of(*chunk_pos, inner_at(i)),
                ) != BlockType::Void,
            r.is_ok() ==> forall|w: WorldPos|
                self.holds(w) && chunk_of(w) == *chunk_pos ==> #[trigger] r.unwrap().faces(
                    slot_of(w),
                ) == self.visible_at(w),
    {
        match self.chunk_meshes.get(&key_of(chunk_pos)) {
            Some(mesh) => {
                proof {
                    lemma_chunk_key_injective(self.chunks@[chunk_key(*chunk_pos)].pos(), *chunk_pos);
                    assert forall|w: WorldPos|
                        self.holds(w) && chunk_of(w) == *chunk_pos implies #[trigger] mesh.faces(
                            slot_of(w),
                        ) == self.visible_at(w) by {
                        assert(self.holds(w) && (|q: WorldPos| true)(w));
                        assert(self.entry_ok(w));
                    }
                    assert forall|i: int| #[trigger] mesh.has_entry(i) implies 0 <= i
                        < CHUNK_MEM_SIZE && self.type_at(world_of(*chunk_pos, inner_at(i)))
                        != BlockType::Void by {
                        let q = world_of(*chunk_pos, inner_at(i));
                        lemma_chunk_index_bijection(inner_at(0), i);
                        lemma_world_of_split(*chunk_pos, inner_at(i));
                        assert(self.holds(q) && (|q: WorldPos| true)(q));
                        assert(self.entry_ok(q));
                    }
                }
                Ok(mesh)
            },
            None => Err(ChunkNotLoadedError),
        }
    }

    /// Recomputes the mesh entry of the block at `world_pos`; nothing happens
    /// where no loaded chunk holds it.
    fn update_mesh_at_pos(&mut self, world_pos: WorldPos)
        requires
            old(self).structure_ok(),
        ensures
            final(self).structure_ok(),
            final(self).chunks@ == old(self).chunks@,
            final(self).holds(world_pos) ==> final(self).entry_ok(world_pos),
            forall|q: WorldPos|
                old(self).holds(q) && q != world_pos ==> #[trigger] final(self).mesh_at(q)
                    == old(self).mesh_at(q) && final(self).mesh_has(q) == old(self).mesh_has(q),
    {
        if !self.holds_slot(&world_pos) {
            return;
        }
        let block = self.read_block(&world_pos);
        let faces = self.derive_visible_faces(&world_pos, &block);
        let keep = block.block_type != BlockType::Void;
        let ghost before = *self;
        self.store_entry(world_pos, faces, keep);
        proof {
            if !keep {
                lemma_void_invisible(before, world_pos);
            }
            lemma_visible_frame(before, *self, world_pos);
            assert forall|q: WorldPos|
                before.holds(q) && q != world_pos implies #[trigger] self.mesh_at(q)
                == before.mesh_at(q) && self.mesh_has(q) == before.mesh_has(q) by {}
        }
    }

    /// The visible faces of `block`, the block at `world_pos`, computed from
    /// its neighbours.
    fn derive_visible_faces(&self, world_pos: &WorldPos, block: &WorldBlock) -> (r: Directions)
        requires
            self.structure_ok(),
            in_column(*world_pos),
            *block == self.block_at(*world_pos),
        ensures
            r == self.visible_at(*world_pos),
    {
        let adjacent_blocks = self.read_adjacent(world_pos);
        let faces = block.get_visible_faces(&adjacent_blocks);
        proof {
            lemma_adjacent_visible(*self, *world_pos, *block, adjacent_blocks);
        }
        faces
    }

    /// Stores `faces` as the mesh entry at `world_pos`, or drops the entry
    /// there when `keep` is false.
    fn store_entry(&mut self, world_pos: WorldPos, faces: Directions, keep: bool)
        requires
            old(self).structure_ok(),
            old(self).holds(world_pos),
        ensures
            final(self).structure_ok(),
            final(self).chunks@ == old(self).chunks@,
            final(self).mesh_at(world_pos) == if keep {
                faces
            } else {
                no_faces()
            },
            final(self).mesh_has(world_pos) == keep,
            forall|q: WorldPos|
                old(self).holds(q) && q != world_pos ==> #[trigger] final(self).mesh_at(q)
                    == old(self).mesh_at(q) && final(self).mesh_has(q) == old(self).mesh_has(q),
    {
        let chunk_pos = world_pos.to_chunk_pos();
        let key = key_of(&chunk_pos);
        let ghost before = *self;
        proof {
            assert(inner_valid(inner_of(world_pos)));
            lemma_chunk_index_bijection(inner_of(world_pos), 0);
            assert(self.chunk_meshes@.contains_key(key));
        }
        match self.chunk_meshes.remove(&key) {
            Some(mut mesh) => {
                if keep {
                    mesh.insert(world_pos, faces);
                } else {
                    mesh.remove(world_pos);
                }
                self.chunk_meshes.insert(key, mesh);
                proof {
                    assert(self.chunk_meshes@ =~= before.chunk_meshes@.insert(key, mesh));
                    lemma_mesh_slot_updated(before, *self, world_pos);
                }
            },
            None => {},
        }
    }
}

impl World {
    /// Recomputes the mesh entries of `p` and of its six neighbours.
    fn refresh_around(&mut self, p: WorldPos)
        requires
            old(self).structure_ok(),
            in_column(p),
            old(self).mesh_ok_where(|q: WorldPos| q != p && !is_adjacent(q, p)),
        ensures
            final(self).wf(),
            final(self).chunks@ == old(self).chunks@,
    {
        let ghost f0 = |q: WorldPos| q != p && !is_adjacent(q, p);
        let ghost before = *self;
        self.update_mesh_at_pos(p);
        proof {
            lemma_ok_after_update(before, *self, p, f0, |q: WorldPos| !is_adjacent(q, p));
        }
        let mut i: usize = 0;
        while i < 6
            invariant
                0 <= i <= 6,
                self.structure_ok(),
                self.chunks@ == old(self).chunks@,
                in_column(p),
                self.mesh_ok_where(
                    |q: WorldPos| !is_adjacent(q, p) || offset_index(p, q) < i,
                ),
            decreases 6 - i,
        {
            let direction = Direction::from_index(i);
            let n = p.move_direction(&direction);
            let ghost f = |q: WorldPos| !is_adjacent(q, p) || offset_index(p, q) < i;
            let ghost g = |q: WorldPos| !is_adjacent(q, p) || offset_index(p, q) < i + 1;
            let ghost prev = *self;
            self.update_mesh_at_pos(n);
            proof {
                assert forall|q: WorldPos| prev.holds(q) && #[trigger] g(q) implies f(q) || q
                    == n by {
                    if is_adjacent(q, p) && offset_index(p, q) == i {
                        lemma_offset(p, q);
                    }
                }
                lemma_ok_after_update(prev, *self, n, f, g);
            }
            i = i + 1;
        }
        proof {
            let f6 = |q: WorldPos| !is_adjacent(q, p) || offset_index(p, q) < 6;
            assert forall|q: WorldPos| self.holds(q) implies #[trigger] f6(q) by {
                if is_adjacent(q, p) {
                    lemma_offset(p, q);
                }
            }
            lemma_ok_weaken(*self, f6, |q: WorldPos| true);
        }
    }

    /// Recomputes every mesh entry of chunk `chunk_pos`.
    fn refresh_chunk(&mut self, chunk_pos: &ChunkPos, Ghost(f): Ghost<spec_fn(WorldPos) -> bool>)
        requires
            old(self).structure_ok(),
            old(self).mesh_ok_where(f),
        ensures
            final(self).structure_ok(),
            final(self).chunks@ == old(self).chunks@,
            final(self).mesh_ok_where(|q: WorldPos| f(q) || chunk_of(q) == *chunk_pos),
    {
        let mut i: usize = 0;
        proof {
            lemma_ok_weaken(
                *self,
                f,
                |q: WorldPos| f(q) || (chunk_of(q) == *chunk_pos && slot_of(q) < 0),
            );
        }
        while i < CHUNK_MEM_SIZE
            invariant
                0 <= i <= CHUNK_MEM_SIZE,
                self.structure_ok(),
                self.chunks@ == old(self).chunks@,
                self.mesh_ok_where(
                    |q: WorldPos| f(q) || (chunk_of(q) == *chunk_pos && slot_of(q) < i),
                ),
            decreases CHUNK_MEM_SIZE - i,
        {
            let inner = InnerChunkPos::make_from_chunk_index(i);
            let r = inner.to_world_pos(chunk_pos);
            proof {
                lemma_chunk_index_bijection(inner, i as int);
                lemma_world_of_split(*chunk_pos, inner);
            }
            let ghost fi = |q: WorldPos| f(q) || (chunk_of(q) == *chunk_pos && slot_of(q) < i);
            let ghost gi = |q: WorldPos| f(q) || (chunk_of(q) == *chunk_pos && slot_of(q) < i + 1);
            let ghost prev = *self;
            self.update_mesh_at_pos(r);
            proof {
                assert forall|q: WorldPos| prev.holds(q) && #[trigger] gi(q) implies fi(q) || q
                    == r by {
                    if !fi(q) {
                        lemma_slot_injective(q, r);
                    }
                }
                lemma_ok_after_update(prev, *self, r, fi, gi);
            }
            i = i + 1;
        }
        proof {
            let fl = |q: WorldPos| f(q) || (chunk_of(q) == *chunk_pos && slot_of(q) < CHUNK_MEM_SIZE);
            let gl = |q: WorldPos| f(q) || chunk_of(q) == *chunk_pos;
            assert forall|q: WorldPos| self.holds(q) && #[trigger] gl(q) implies fl(q) by {
                assert(inner_valid(inner_of(q)));
                lemma_chunk_index_bijection(inner_of(q), 0);
            }
            lemma_ok_weaken(*self, fl, gl);
        }
    }

    /// The loaded chunks among those of `p` and of its six neighbours.
    fn chunks_around(&self, p: WorldPos) -> (r: Vec<ChunkPos>)
        requires
            self.structure_ok(),
            self.holds(p),
        ensures
            r@.no_duplicates(),
            forall|c: ChunkPos|
                #[trigger] r@.contains(c) <==> (c == chunk_of(p) || exists|j: int|
                    0 <= j < 6 && self.holds(step(p, direction_at(j))) && chunk_of(
                        step(p, direction_at(j)),
                    ) == c),
    {
        let mut r: Vec<ChunkPos> = Vec::new();
        r.push(p.to_chunk_pos());
        proof {
            assert forall|c: ChunkPos| #[trigger] r@.contains(c) <==> c == chunk_of(p) by {
                lemma_push_contains(Seq::empty(), chunk_of(p), c);
                assert(r@ == Seq::<ChunkPos>::empty().push(chunk_of(p)));
            }
        }
        let mut i: usize = 0;
        while i < 6
            invariant
                0 <= i <= 6,
                self.structure_ok(),
                self.holds(p),
                r@.no_duplicates(),
                forall|c: ChunkPos|
                    #[trigger] r@.contains(c) <==> (c == chunk_of(p) || exists|j: int|
                        0 <= j < i && self.holds(step(p, direction_at(j))) && chunk_of(
                            step(p, direction_at(j)),
                        ) == c),
            decreases 6 - i,
        {
            let direction = Direction::from_index(i);
            let n = p.move_direction(&direction);
            let ghost old_r = r@;
            let loaded = self.holds_slot(&n);
            let c = n.to_chunk_pos();
            if loaded {
                if !contains_chunk(&r, &c) {
                    proof {
                        lemma_push_no_duplicates(r@, c);
                    }
                    r.push(c);
                }
            }
            proof {
                assert forall|x: ChunkPos|
                    #[trigger] r@.contains(x) <==> (x == chunk_of(p) || exists|j: int|
                        0 <= j < i + 1 && self.holds(step(p, direction_at(j))) && chunk_of(
                            step(p, direction_at(j)),
                        ) == x) by {
                    lemma_push_contains(old_r, c, x);
                    let here = self.holds(step(p, direction_at(i as int))) && chunk_of(
                        step(p, direction_at(i as int)),
                    ) == x;
                    if here {
                        assert(r@.contains(x));
                    }
                    if exists|j: int|
                        0 <= j < i + 1 && self.holds(step(p, direction_at(j))) && chunk_of(
                            step(p, direction_at(j)),
                        ) == x {
                        let j = choose|j: int|
                            0 <= j < i + 1 && self.holds(step(p, direction_at(j))) && chunk_of(
                                step(p, direction_at(j)),
                            ) == x;
                        if j < i {
                            assert(old_r.contains(x));
                        }
                    }
                    if r@.contains(x) && !old_r.contains(x) {
                        assert(here);
                    }
                }
            }
            i = i + 1;
        }
        r
    }

    /// Writes type and data into the slot of `p`, which a loaded chunk holds.
    fn write_slot(&mut self, p: WorldPos, block_type: BlockType, extra_data: BlockData)
        requires
            old(self).wf(),
            old(self).holds(p),
        ensures
            final(self).structure_ok(),
            final(self).chunk_meshes@ == old(self).chunk_meshes@,
            forall|c: ChunkPos| #[trigger] final(self).loaded(c) == old(self).loaded(c),
            final(self).type_at(p) == block_type,
            final(self).data_at(p) == extra_data,
            forall|w: WorldPos|
                w != p ==> #[trigger] final(self).type_at(w) == old(self).type_at(w)
                    && final(self).data_at(w) == old(self).data_at(w),
            final(self).mesh_ok_where(|q: WorldPos| q != p && !is_adjacent(q, p)),
    {
        let chunk_pos = p.to_chunk_pos();
        let key = key_of(&chunk_pos);
        let ghost before = *self;
        let block = crate::block::ChunkBlock {
            block_type,
            extra_data,
            pos: p.to_inner_chunk_pos(),
        };
        proof {
            assert(inner_valid(inner_of(p)));
            assert(self.chunks@.contains_key(key));
        }
        match self.chunks.remove(&key) {
            Some(mut chunk) => {
                chunk.add_block(block);
                self.chunks.insert(key, chunk);
            },
            None => {},
        }
        proof {
            assert(self.chunks@.dom() =~= before.chunks@.dom());
            assert(self.chunks@ =~= before.chunks@.insert(key, self.chunks@[key]));
            lemma_chunk_replaced_at(before, *self, p);
            lemma_single_change(before, *self, p);
        }
    }

    /// Writes a block into the loaded chunk that holds its position and
    /// recomputes the mesh entries of the position and of its six neighbours,
    /// in whichever chunk they lie.
    ///
    /// The position's height must be inside the column, [0, 64): above or
    /// below it a chunk has no slot to write.
    ///
    /// Fails, changing nothing, where the position's chunk is not loaded.
    /// Otherwise the block at the position is `world_block` afterwards, every
    /// other block is unchanged, and the mesh matches the blocks again. The
    /// result lists, once each, the loaded chunks of the position and of its
    /// neighbours.
    pub fn add_block(&mut self, world_block: &WorldBlock) -> (r: Result<
        WorldStateDiff,
        ChunkNotLoadedError,
    >)
        requires
            old(self).wf(),
            0 <= world_block.world_pos.y < 64,
        ensures
            final(self).wf(),
            r.is_ok() == old(self).chunk_loaded_at(world_block.world_pos),
            r.is_err() ==> *final(self) == *old(self),
            r.is_ok() ==> r.unwrap().chunk_positions@.no_duplicates(),
            forall|c: ChunkPos| #[trigger] final(self).loaded(c) == old(self).loaded(c),
            r.is_ok() ==> placed(*old(self), *final(self), *world_block),
            r.is_ok() ==> forall|c: ChunkPos|
                #[trigger] r.unwrap().chunk_positions@.contains(c) <==> (c == chunk_of(
                    world_block.world_pos,
                ) || exists|j: int|
                    0 <= j < 6 && final(self).holds(step(world_block.world_pos, direction_at(j)))
                        && chunk_of(step(world_block.world_pos, direction_at(j))) == c),
    {
        let p = world_block.world_pos;
        if !self.holds_slot(&p) {
            return Err(ChunkNotLoadedError);
        }
        let ghost before = *self;
        self.write_slot(p, world_block.block_type, world_block.extra_data);
        let ghost mid = *self;
        self.refresh_around(p);
        proof {
            assert forall|c: ChunkPos| #[trigger] self.loaded(c) == before.loaded(c) by {
                assert(mid.loaded(c) == before.loaded(c));
            }
            assert forall|w: WorldPos| #[trigger] self.block_at(w) == mid.block_at(w) by {
                assert(self.loaded(chunk_of(w)) == mid.loaded(chunk_of(w)));
            }
        }
        let chunk_positions = self.chunks_around(p);
        Ok(WorldStateDiff { chunk_positions })
    }

    /// Empties the block slot at `world_pos` and recomputes the mesh entries
    /// around it, as `add_block` does.
    ///
    /// Fails, changing nothing, where the position's chunk is not loaded.
    /// Otherwise the block there is void afterwards and every other block is
    /// unchanged. Above or below the column of a loaded chunk there is no
    /// block: nothing changes and the result lists no chunk.
    pub fn remove_block(&mut self, world_pos: &WorldPos) -> (r: Result<
        WorldStateDiff,
        ChunkNotLoadedError,
    >)
        requires
            old(self).wf(),
        ensures
            final(self).wf(),
            r.is_ok() == old(self).chunk_loaded_at(*world_pos),
            r.is_err() ==> *final(self) == *old(self),
            !in_column(*world_pos) ==> *final(self) == *old(self),
            forall|c: ChunkPos| #[trigger] final(self).loaded(c) == old(self).loaded(c),
            r.is_ok() ==> placed(*old(self), *final(self), WorldBlock::spec_void(*world_pos)),
            r.is_ok() ==> r.unwrap().chunk_positions@.no_duplicates(),
            r.is_ok() && !in_column(*world_pos) ==> r.unwrap().chunk_positions@.len() == 0,
            r.is_ok() && in_column(*world_pos) ==> forall|c: ChunkPos|
                #[trigger] r.unwrap().chunk_positions@.contains(c) <==> (c == chunk_of(
                    *world_pos,
                ) || exists|j: int|
                    0 <= j < 6 && final(self).holds(step(*world_pos, direction_at(j)))
                        && chunk_of(step(*world_pos, direction_at(j))) == c),
    {
        let p = *world_pos;
        if !self.is_block_loaded(&p) {
            return Err(ChunkNotLoadedError);
        }
        if !in_column_exec(&p) {
            let chunk_positions: Vec<ChunkPos> = Vec::new();
            return Ok(WorldStateDiff { chunk_positions });
        }
        let ghost before = *self;
        self.write_slot(p, BlockType::Void, BlockData::Plain);
        let ghost mid = *self;
        self.refresh_around(p);
        proof {
            assert forall|c: ChunkPos| #[trigger] self.loaded(c) == before.loaded(c) by {
                assert(mid.loaded(c) == before.loaded(c));
            }
            assert forall|w: WorldPos| #[trigger] self.block_at(w) == mid.block_at(w) by {
                assert(self.loaded(chunk_of(w)) == mid.loaded(chunk_of(w)));
            }
        }
        let chunk_positions = self.chunks_around(p);
        Ok(WorldStateDiff { chunk_positions })
    }

    /// Loads `chunk`, replacing a chunk loaded at the same position, computes
    /// its mesh from scratch and recomputes the meshes of its loaded side
    /// neighbours, whose boundary faces it may hide or reveal.
    ///
    /// The result lists the chunk and its loaded side neighbours.
    pub fn insert_chunk(&mut self, chunk: Chunk) -> (r: WorldStateDiff)
        requires
            old(self).wf(),
            chunk.wf(),
        ensures
            final(self).wf(),
            r.chunk_positions@.no_duplicates(),
            forall|c: ChunkPos|
                #[trigger] final(self).loaded(c) == (old(self).loaded(c) || c == chunk.pos()),
            forall|w: WorldPos|
                #[trigger] final(self).block_at(w) == if in_column(w) && chunk_of(w) == chunk.pos() {
                    WorldBlock {
                        block_type: chunk.type_at(slot_of(w)),
                        extra_data: chunk.data_at(slot_of(w)),
                        world_pos: w,
                    }
                } else {
                    old(self).block_at(w)
                },
            forall|c: ChunkPos|
                #[trigger] r.chunk_positions@.contains(c) <==> (final(self).loaded(c) && chunk_near(
                    c,
                    chunk.pos(),
                )),
    {
        let c = chunk.position();
        let key = key_of(&c);
        let ghost before = *self;
        let ghost inserted = chunk;
        self.chunks.insert(key, chunk);
        self.chunk_meshes.insert(key, ChunkMesh::new(c));
        let ghost f0 = |q: WorldPos| !chunk_near(chunk_of(q), c);
        proof {
            lemma_chunk_key_injective(inserted.pos(), c);
            assert forall|k: i64| #[trigger]
                self.chunks@.contains_key(k) implies self.chunks@[k].wf() && chunk_key(
                    self.chunks@[k].pos(),
                ) == k by {
                if k != key {
                    assert(before.chunks@.contains_key(k));
                }
            }
            assert forall|k: i64| #[trigger]
                self.chunk_meshes@.contains_key(k) == self.chunks@.contains_key(k) by {
                if k != key {
                    assert(before.chunk_meshes@.contains_key(k) == before.chunks@.contains_key(k));
                }
            }
            assert forall|k: i64| #[trigger]
                self.chunk_meshes@.contains_key(k) implies self.chunk_meshes@[k].pos()
                == self.chunks@[k].pos() by {
                if k != key {
                    assert(before.chunk_meshes@.contains_key(k));
                }
            }
            assert(self.structure_ok());
            lemma_chunk_inserted(before, *self, c);
        }
        self.refresh_chunk(&c, Ghost(f0));
        let mut chunk_positions: Vec<ChunkPos> = Vec::new();
        chunk_positions.push(c);
        proof {
            assert forall|cp: ChunkPos|
                #[trigger] chunk_positions@.contains(cp) <==> (self.loaded(cp) && (cp == c || (
                chunk_near(cp, c) && flat_offset_index(c, cp) < 0))) by {
                lemma_push_contains(Seq::empty(), c, cp);
                assert(chunk_positions@ == Seq::<ChunkPos>::empty().push(c));
            }
        }
        let mut i: usize = 0;
        while i < 4
            invariant
                0 <= i <= 4,
                self.structure_ok(),
                self.chunks@.contains_key(key),
                chunk_positions@.no_duplicates(),
                key == chunk_key(c),
                forall|cp: ChunkPos| #[trigger]
                    self.loaded(cp) == (before.loaded(cp) || cp == c),
                self.mesh_ok_where(
                    |q: WorldPos| f0(q) || chunk_of(q) == c || (chunk_near(chunk_of(q), c)
                        && flat_offset_index(c, chunk_of(q)) < i),
                ),
                forall|cp: ChunkPos|
                    #[trigger] chunk_positions@.contains(cp) <==> (self.loaded(cp) && (cp == c || (
                    chunk_near(cp, c) && flat_offset_index(c, cp) < i))),
                forall|w: WorldPos|
                    #[trigger] self.block_at(w) == if in_column(w) && chunk_of(w) == c {
                        WorldBlock {
                            block_type: inserted.type_at(slot_of(w)),
                            extra_data: inserted.data_at(slot_of(w)),
                            world_pos: w,
                        }
                    } else {
                        before.block_at(w)
                    },
            decreases 4 - i,
        {
            let ghost fi = |q: WorldPos| f0(q) || chunk_of(q) == c || (chunk_near(chunk_of(q), c)
                && flat_offset_index(c, chunk_of(q)) < i);
            let ghost gi = |q: WorldPos| f0(q) || chunk_of(q) == c || (chunk_near(chunk_of(q), c)
                && flat_offset_index(c, chunk_of(q)) < i + 1);
            let (nx, ny): (i32, i32) = if i == 0 {
                (c.x as i32, c.y as i32 + 1)
            } else if i == 1 {
                (c.x as i32, c.y as i32 - 1)
            } else if i == 2 {
                (c.x as i32 + 1, c.y as i32)
            } else {
                (c.x as i32 - 1, c.y as i32)
            };
            let in_range = nx >= -32768 && nx <= 32767 && ny >= -32768 && ny <= 32767;
            let ghost prev = *self;
            let ghost old_cps = chunk_positions@;
            if in_range && self.has_chunk(&Vec2 { x: nx as i16, y: ny as i16 }) {
                let n = Vec2 { x: nx as i16, y: ny as i16 };
                self.refresh_chunk(&n, Ghost(fi));
                proof {
                    assert(n != c && flat_offset_index(c, n) == i);
                    lemma_push_no_duplicates(chunk_positions@, n);
                }
                chunk_positions.push(n);
                proof {
                    assert forall|cp: ChunkPos| #[trigger] self.loaded(cp) == prev.loaded(cp) by {}
                    assert forall|w: WorldPos| #[trigger] self.block_at(w) == prev.block_at(w) by {
                        assert(self.loaded(chunk_of(w)) == prev.loaded(chunk_of(w)));
                    }
                }
                proof {
                    let fn_ = |q: WorldPos| fi(q) || chunk_of(q) == n;
                    assert forall|q: WorldPos| self.holds(q) && #[trigger] gi(q) implies fn_(q) by {}
                    lemma_ok_weaken(*self, fn_, gi);
                    assert forall|cp: ChunkPos|
                        #[trigger] chunk_positions@.contains(cp) <==> (self.loaded(cp) && (cp == c
                            || (chunk_near(cp, c) && flat_offset_index(c, cp) < i + 1))) by {
                        lemma_push_contains(old_cps, n, cp);
                    }
                }
            } else {
                proof {
                    assert forall|q: WorldPos| self.holds(q) && #[trigger] gi(q) implies fi(q) by {}
                    lemma_ok_weaken(*self, fi, gi);
                }
            }
            i = i + 1;
        }
        proof {
            let f4 = |q: WorldPos| f0(q) || chunk_of(q) == c || (chunk_near(chunk_of(q), c)
                && flat_offset_index(c, chunk_of(q)) < 4);
            assert forall|q: WorldPos| self.holds(q) implies #[trigger] f4(q) by {}
            lemma_ok_weaken(*self, f4, |q: WorldPos| true);
        }
        WorldStateDiff { chunk_positions }
    }

    /// Loads an empty chunk at `chunk_pos`, as `insert_chunk` does.
    pub fn load_chunk(&mut self, chunk_pos: &ChunkPos) -> (r: WorldStateDiff)
        requires
            old(self).wf(),
        ensures
            final(self).wf(),
            r.chunk_positions@.no_duplicates(),
            forall|c: ChunkPos|
                #[trigger] final(self).loaded(c) == (old(self).loaded(c) || c == *chunk_pos),
            forall|w: WorldPos|
                #[trigger] final(self).block_at(w) == if in_column(w) && chunk_of(w) == *chunk_pos {
                    WorldBlock::spec_void(w)
                } else {
                    old(self).block_at(w)
                },
            forall|c: ChunkPos|
                #[trigger] r.chunk_positions@.contains(c) <==> (final(self).loaded(c) && chunk_near(
                    c,
                    *chunk_pos,
                )),
    {
        let chunk = Chunk::new(*chunk_pos);
        self.insert_chunk(chunk)
    }
}

impl Default for World {
    /// A world with no chunk.
    fn default() -> (r: World)
        ensures
            r.wf(),
            forall|c: ChunkPos| !r.loaded(c),
    {
        World::new()
    }
}

/// Which side neighbour of chunk `c` chunk `a` is, in the order
/// North, South, East, West.
pub open spec fn flat_offset_index(c: ChunkPos, a: ChunkPos) -> int {
    if a.y == c.y + 1 {
        0
    } else if a.y == c.y - 1 {
        1
    } else if a.x == c.x + 1 {
        2
    } else {
        3
    }
}

/// Writing a block and then emptying its position leaves void there, and the
/// emptying succeeds wherever the writing did.
pub proof fn lemma_add_then_remove(w0: World, w1: World, w2: World, b: WorldBlock)
    requires
        w0.holds(b.world_pos),
        placed(w0, w1, b),
        placed(w1, w2, WorldBlock::spec_void(b.world_pos)),
    ensures
        w1.holds(b.world_pos),
        w2.block_at(b.world_pos).block_type == BlockType::Void,
        forall|w: WorldPos| w != b.world_pos ==> #[trigger] w2.block_at(w) == w0.block_at(w),
{
    assert(w1.loaded(chunk_of(b.world_pos)) == w0.loaded(chunk_of(b.world_pos)));
    assert(w2.block_at(b.world_pos) == WorldBlock::spec_void(b.world_pos));
    assert forall|w: WorldPos| w != b.world_pos implies #[trigger] w2.block_at(w) == w0.block_at(
        w,
    ) by {
        assert(w2.block_at(w) == w1.block_at(w));
    }
}

/// Two opaque cubes that share a face hide exactly that face pair: the face
/// of each towards the other is hidden, and each other face of either block
/// that looks onto void stays visible.
pub proof fn lemma_opaque_pair_hides_shared_faces(w: World, p: WorldPos, d: Direction)
    requires
        in_column(p),
        solid_cube(w.type_at(p)),
        solid_cube(w.type_at(step(p, d))),
    ensures
        !w.visible_at(p).has(d),
        !w.visible_at(step(p, d)).has(opposite(d)),
        forall|e: Direction|
            e != d && #[trigger] w.type_at(step(p, e)) == BlockType::Void ==> w.visible_at(p).has(e),
        forall|e: Direction|
            e != opposite(d) && #[trigger] w.type_at(step(step(p, d), e)) == BlockType::Void
                ==> w.visible_at(step(p, d)).has(e),
{
    let q = step(p, d);
    lemma_step_back(p, d);
    lemma_hidden_by_solid(w, p, d);
    lemma_hidden_by_solid(w, q, opposite(d));
    assert forall|e: Direction|
        e != d && #[trigger] w.type_at(step(p, e)) == BlockType::Void implies w.visible_at(p).has(
        e,
    ) by {
        lemma_shown_on_void(w, p, e);
    }
    assert forall|e: Direction|
        e != opposite(d) && #[trigger] w.type_at(step(q, e)) == BlockType::Void implies w.visible_at(
        q,
    ).has(e) by {
        lemma_shown_on_void(w, q, e);
    }
}

/// Stepping back from a step returns to the start.
proof fn lemma_step_back(p: WorldPos, d: Direction)
    requires
        in_column(p),
    ensures
        step(step(p, d), opposite(d)) == p,
{
}

/// A face towards an opaque cube is hidden.
proof fn lemma_hidden_by_solid(w: World, p: WorldPos, e: Direction)
    requires
        solid_cube(w.type_at(step(p, e))),
    ensures
        !w.visible_at(p).has(e),
{
    reveal(World::visible_at);
    assert(in_column(step(p, e)));
    assert(!face_visible(w.type_at(p), w.type_at(step(p, e))));
}

/// A face of an opaque cube that looks onto void is visible.
proof fn lemma_shown_on_void(w: World, p: WorldPos, e: Direction)
    requires
        solid_cube(w.type_at(p)),
        w.type_at(step(p, e)) == BlockType::Void,
    ensures
        w.visible_at(p).has(e),
{
    reveal(World::visible_at);
    assert(face_set(w.block_at(p)).has(e));
}

/// The mesh is a function of the blocks: two worlds that hold the same
/// blocks in the same loaded chunks have the same mesh entry at every held
/// position, however each of them got there.
pub proof fn lemma_mesh_determined_by_blocks(w1: World, w2: World)
    requires
        w1.wf(),
        w2.wf(),
        forall|c: ChunkPos| #[trigger] w1.loaded(c) == w2.loaded(c),
        forall|w: WorldPos| #[trigger] w1.block_at(w) == w2.block_at(w),
    ensures
        forall|q: WorldPos| #[trigger] w1.holds(q) ==> w1.mesh_at(q) == w2.mesh_at(q)
            && w1.mesh_at(q) == w1.visible_at(q),
{
    assert forall|q: WorldPos| #[trigger] w1.holds(q) implies w1.mesh_at(q) == w2.mesh_at(q)
        && w1.mesh_at(q) == w1.visible_at(q) by {
        assert(w1.holds(q) && (|q: WorldPos| true)(q));
        assert(w1.entry_ok(q));
        assert(w1.loaded(chunk_of(q)) == w2.loaded(chunk_of(q)));
        assert(w2.holds(q) && (|q: WorldPos| true)(q));
        assert(w2.entry_ok(q));
        assert forall|d: Direction| #[trigger] w1.type_at(step(q, d)) == w2.type_at(step(q, d)) by {
            assert(w1.block_at(step(q, d)) == w2.block_at(step(q, d)));
        }
        lemma_visible_frame(w1, w2, q);
    }
}

/// Recomputing one entry keeps every other entry right, and makes the
/// recomputed one right.
proof fn lemma_ok_after_update(
    w1: World,
    w2: World,
    r: WorldPos,
    f: spec_fn(WorldPos) -> bool,
    g: spec_fn(WorldPos) -> bool,
)
    requires
        w1.chunks@ == w2.chunks@,
        w1.mesh_ok_where(f),
        w2.holds(r) ==> w2.entry_ok(r),
        forall|q: WorldPos|
            w1.holds(q) && q != r ==> #[trigger] w2.mesh_at(q) == w1.mesh_at(q) && w2.mesh_has(q)
                == w1.mesh_has(q),
        forall|q: WorldPos| w1.holds(q) && #[trigger] g(q) ==> f(q) || q == r,
    ensures
        w2.mesh_ok_where(g),
{
    assert forall|q: WorldPos| w2.holds(q) && #[trigger] g(q) implies w2.entry_ok(q) by {
        if q != r {
            assert(w1.holds(q) && f(q));
            assert(w1.entry_ok(q));
            lemma_visible_frame(w1, w2, q);
        }
    }
}

/// A claim about fewer positions follows from one about more.
proof fn lemma_ok_weaken(w: World, f: spec_fn(WorldPos) -> bool, g: spec_fn(WorldPos) -> bool)
    requires
        w.mesh_ok_where(f),
        forall|q: WorldPos| w.holds(q) && #[trigger] g(q) ==> f(q),
    ensures
        w.mesh_ok_where(g),
{
    assert forall|q: WorldPos| w.holds(q) && #[trigger] g(q) implies w.entry_ok(q) by {
        assert(f(q));
    }
}

/// A step from a position of the column range lands on an adjacent position.
proof fn lemma_step_adjacent(q: WorldPos, d: Direction)
    requires
        in_column(q),
    ensures
        is_adjacent(step(q, d), q),
        is_adjacent(q, step(q, d)),
        step(q, d).x == q.x + dx(d),
        step(q, d).y == q.y + dy(d),
        step(q, d).z == q.z + dz(d),
{
}

/// An adjacent position is the step from `p` in the direction that
/// `offset_index` names.
proof fn lemma_offset(p: WorldPos, q: WorldPos)
    requires
        in_column(p),
        is_adjacent(q, p),
    ensures
        0 <= offset_index(p, q) < 6,
        q == step(p, direction_at(offset_index(p, q))),
{
}

/// A step from a position of the column range stays in the same chunk or
/// moves to a side neighbour of it.
proof fn lemma_step_chunk(q: WorldPos, d: Direction)
    requires
        in_column(q),
        in_column(step(q, d)),
    ensures
        chunk_near(chunk_of(step(q, d)), chunk_of(q)),
{
    let s = step(q, d);
    assert(s.x / 16 - q.x / 16 <= 1 && q.x / 16 - s.x / 16 <= 1);
    assert(s.z / 16 - q.z / 16 <= 1 && q.z / 16 - s.z / 16 <= 1);
}

/// Visible faces depend only on the block and the types of its neighbours.
proof fn lemma_visible_frame(w1: World, w2: World, q: WorldPos)
    requires
        w1.block_at(q) == w2.block_at(q),
        forall|d: Direction| #[trigger] w1.type_at(step(q, d)) == w2.type_at(step(q, d)),
    ensures
        w1.visible_at(q) == w2.visible_at(q),
{
    let f1 = w1.neighbour_types(q);
    let f2 = w2.neighbour_types(q);
    assert(forall|d: Direction| #[trigger] f1(d) == f2(d));
    reveal(World::visible_at);
    lemma_directions_ext(w1.visible_at(q), w2.visible_at(q));
}

/// After the chunk of `p` was replaced by one that differs from it at the
/// slot of `p` only, every other block is unchanged.
proof fn lemma_chunk_replaced_at(w1: World, w2: World, p: WorldPos)
    requires
        w1.structure_ok(),
        w1.holds(p),
        w2.chunk_meshes@ == w1.chunk_meshes@,
        w2.chunks@.dom() == w1.chunks@.dom(),
        w2.chunks@ == w1.chunks@.insert(chunk_key(chunk_of(p)), w2.chunks@[chunk_key(chunk_of(p))]),
        w2.chunks@[chunk_key(chunk_of(p))].wf(),
        w2.chunks@[chunk_key(chunk_of(p))].pos() == w1.chunks@[chunk_key(chunk_of(p))].pos(),
        forall|i: int|
            i != slot_of(p) ==> #[trigger] w2.chunks@[chunk_key(chunk_of(p))].type_at(i)
                == w1.chunks@[chunk_key(chunk_of(p))].type_at(i)
                && w2.chunks@[chunk_key(chunk_of(p))].data_at(i)
                == w1.chunks@[chunk_key(chunk_of(p))].data_at(i),
    ensures
        w2.structure_ok(),
        forall|c: ChunkPos| #[trigger] w2.loaded(c) == w1.loaded(c),
        forall|w: WorldPos|
            w != p ==> #[trigger] w2.type_at(w) == w1.type_at(w) && w2.data_at(w) == w1.data_at(
                w,
            ),
{
    assert forall|k: i64| #[trigger] w2.chunks@.contains_key(k) implies w2.chunks@[k].wf()
        && chunk_key(w2.chunks@[k].pos()) == k by {
        assert(w1.chunks@.contains_key(k));
    }
    assert forall|k: i64| #[trigger] w2.chunk_meshes@.contains_key(k) == w2.chunks@.contains_key(
        k,
    ) by {
        assert(w1.chunk_meshes@.contains_key(k) == w1.chunks@.contains_key(k));
    }
    assert forall|k: i64| #[trigger] w2.chunk_meshes@.contains_key(k) implies w2.chunk_meshes@[k].pos()
        == w2.chunks@[k].pos() by {
        assert(w1.chunk_meshes@.contains_key(k));
    }
    assert forall|c: ChunkPos| #[trigger] w2.loaded(c) == w1.loaded(c) by {
        assert(w2.chunks@.contains_key(chunk_key(c)) == w1.chunks@.contains_key(chunk_key(c)));
    }
    assert forall|w: WorldPos| w != p implies #[trigger] w2.type_at(w) == w1.type_at(w)
        && w2.data_at(w) == w1.data_at(w) by {
        assert(w2.loaded(chunk_of(w)) == w1.loaded(chunk_of(w)));
        if w2.holds(w) {
            lemma_chunk_key_injective(chunk_of(w), chunk_of(p));
            if chunk_of(w) == chunk_of(p) && slot_of(w) == slot_of(p) {
                lemma_slot_injective(w, p);
            }
        }
    }
}

/// After a change of the block at `p` alone, the mesh is still right away
/// from `p` and its neighbours.
proof fn lemma_single_change(w1: World, w2: World, p: WorldPos)
    requires
        w1.wf(),
        w2.structure_ok(),
        w2.chunk_meshes@ == w1.chunk_meshes@,
        forall|c: ChunkPos| #[trigger] w2.loaded(c) == w1.loaded(c),
        forall|w: WorldPos|
            w != p ==> #[trigger] w2.type_at(w) == w1.type_at(w) && w2.data_at(w) == w1.data_at(
                w,
            ),
    ensures
        w2.mesh_ok_where(|q: WorldPos| q != p && !is_adjacent(q, p)),
{
    let g = |q: WorldPos| q != p && !is_adjacent(q, p);
    assert forall|q: WorldPos| w2.holds(q) && #[trigger] g(q) implies w2.entry_ok(q) by {
        assert(q != p && !is_adjacent(q, p));
        assert(w2.loaded(chunk_of(q)) == w1.loaded(chunk_of(q)));
        assert(w1.holds(q) && (|q: WorldPos| true)(q));
        assert(w1.entry_ok(q));
        assert(w2.type_at(q) == w1.type_at(q) && w2.data_at(q) == w1.data_at(q));
        assert forall|d: Direction| #[trigger] w1.type_at(step(q, d)) == w2.type_at(step(q, d)) by {
            lemma_step_adjacent(q, d);
            assert(step(q, d) != p);
        }
        lemma_visible_frame(w1, w2, q);
    }
}

/// A void block has no visible face.
proof fn lemma_void_invisible(w: World, p: WorldPos)
    requires
        w.type_at(p) == BlockType::Void,
    ensures
        w.visible_at(p) == no_faces(),
{
    reveal(World::visible_at);
    lemma_directions_ext(w.visible_at(p), no_faces());
}

/// The neighbours gathered for `p` give the derived visible faces.
proof fn lemma_adjacent_visible(w: World, p: WorldPos, b: WorldBlock, adj: AdjacentBlocks)
    requires
        adj.wf(),
        b == w.block_at(p),
        forall|d: Direction|
            #[trigger] adj.at(d) == if 0 <= step(p, d).y < 256 {
                Some(w.block_at(step(p, d)))
            } else {
                None
            },
    ensures
        visible_faces(b, adj.types()) == w.visible_at(p),
{
    let f1 = adj.types();
    let f2 = w.neighbour_types(p);
    assert(forall|d: Direction| #[trigger] f1(d) == f2(d));
    reveal(World::visible_at);
    lemma_directions_ext(visible_faces(b, adj.types()), w.visible_at(p));
}

/// Replacing the mesh of the chunk of `p` by one that differs at the slot of
/// `p` only keeps the storage consistent and every other entry as it was.
proof fn lemma_mesh_slot_updated(w1: World, w2: World, p: WorldPos)
    requires
        w1.structure_ok(),
        w1.holds(p),
        0 <= slot_of(p) < CHUNK_MEM_SIZE,
        w2.chunks@ == w1.chunks@,
        w2.chunk_meshes@ == w1.chunk_meshes@.insert(
            chunk_key(chunk_of(p)),
            w2.chunk_meshes@[chunk_key(chunk_of(p))],
        ),
        w2.chunk_meshes@[chunk_key(chunk_of(p))].pos() == w1.chunk_meshes@[chunk_key(
            chunk_of(p),
        )].pos(),
        forall|i: int|
            i != slot_of(p) ==> #[trigger] w2.chunk_meshes@[chunk_key(chunk_of(p))].faces(i)
                == w1.chunk_meshes@[chunk_key(chunk_of(p))].faces(i),
        forall|i: int|
            i != slot_of(p) ==> #[trigger] w2.chunk_meshes@[chunk_key(chunk_of(p))].has_entry(i)
                == w1.chunk_meshes@[chunk_key(chunk_of(p))].has_entry(i),
    ensures
        w2.structure_ok(),
        forall|q: WorldPos|
            w1.holds(q) && q != p ==> #[trigger] w2.mesh_at(q) == w1.mesh_at(q) && w2.mesh_has(q)
                == w1.mesh_has(q),
{
    let key = chunk_key(chunk_of(p));
    assert(w1.chunk_meshes@.contains_key(key));
    assert forall|k: i64| #[trigger] w2.chunks@.contains_key(k) implies w2.chunks@[k].wf()
        && chunk_key(w2.chunks@[k].pos()) == k by {
        assert(w1.chunks@.contains_key(k));
    }
    assert forall|k: i64| #[trigger] w2.chunk_meshes@.contains_key(k) == w2.chunks@.contains_key(
        k,
    ) by {
        assert(w1.chunk_meshes@.contains_key(k) == w1.chunks@.contains_key(k));
    }
    assert forall|k: i64| #[trigger] w2.chunk_meshes@.contains_key(k) implies w2.chunk_meshes@[k].pos()
        == w2.chunks@[k].pos() by {
        assert(w1.chunk_meshes@.contains_key(k));
    }
    assert forall|k: i64, i: int|
        w2.chunk_meshes@.contains_key(k) && #[trigger] w2.chunk_meshes@[k].has_entry(i) implies 0
        <= i < CHUNK_MEM_SIZE by {
        assert(w1.chunk_meshes@.contains_key(k));
        if k == key && i != slot_of(p) {
            assert(w1.chunk_meshes@[k].has_entry(i));
        }
    }
    assert forall|q: WorldPos|
        w1.holds(q) && q != p implies #[trigger] w2.mesh_at(q) == w1.mesh_at(q) && w2.mesh_has(q)
        == w1.mesh_has(q) by {
        lemma_chunk_key_injective(chunk_of(q), chunk_of(p));
        if chunk_of(q) == chunk_of(p) && slot_of(q) == slot_of(p) {
            lemma_slot_injective(q, p);
        }
    }
}

/// After chunk `c` was put in place (with a fresh mesh), the mesh is still
/// right away from `c` and its side neighbours.
proof fn lemma_chunk_inserted(w1: World, w2: World, c: ChunkPos)
    requires
        w1.wf(),
        w2.structure_ok(),
        w2.chunks@ == w1.chunks@.insert(chunk_key(c), w2.chunks@[chunk_key(c)]),
        w2.chunk_meshes@ == w1.chunk_meshes@.insert(chunk_key(c), w2.chunk_meshes@[chunk_key(c)]),
    ensures
        w2.mesh_ok_where(|q: WorldPos| !chunk_near(chunk_of(q), c)),
{
    let g = |q: WorldPos| !chunk_near(chunk_of(q), c);
    assert forall|q: WorldPos| w2.holds(q) && #[trigger] g(q) implies w2.entry_ok(q) by {
        lemma_chunk_key_injective(chunk_of(q), c);
        assert(w1.holds(q) && (|q: WorldPos| true)(q));
        assert(w1.entry_ok(q));
        assert(w2.mesh_at(q) == w1.mesh_at(q) && w2.mesh_has(q) == w1.mesh_has(q));
        assert(w2.type_at(q) == w1.type_at(q));
        assert forall|d: Direction| #[trigger] w1.type_at(step(q, d)) == w2.type_at(step(q, d)) by {
            let s = step(q, d);
            lemma_chunk_key_injective(chunk_of(s), c);
            if in_column(s) {
                lemma_step_chunk(q, d);
            }
        }
        lemma_visible_frame(w1, w2, q);
    }
}

/// What a sequence holds after a push.
proof fn lemma_push_contains(s: Seq<ChunkPos>, v: ChunkPos, x: ChunkPos)
    ensures
        s.push(v).contains(x) <==> (s.contains(x) || x == v),
{
    if s.push(v).contains(x) {
        let k = choose|k: int| 0 <= k < s.push(v).len() && s.push(v)[k] == x;
        if k < s.len() {
            assert(s[k] == x);
        }
    }
    if s.contains(x) {
        let k = choose|k: int| 0 <= k < s.len() && s[k] == x;
        assert(s.push(v)[k] == x);
    }
    if x == v {
        assert(s.push(v)[s.len() as int] == v);
    }
}

/// Pushing a value that a sequence lacks keeps its values distinct.
proof fn lemma_push_no_duplicates(s: Seq<ChunkPos>, v: ChunkPos)
    requires
        s.no_duplicates(),
        !s.contains(v),
    ensures
        s.push(v).no_duplicates(),
{
    let t = s.push(v);
    assert forall|i: int, j: int| 0 <= i < t.len() && 0 <= j < t.len() && i != j implies t[i]
        != t[j] by {
        if i < s.len() && j < s.len() {
            assert(s[i] != s[j]);
        } else if i < s.len() {
            assert(s[i] != v);
        } else if j < s.len() {
            assert(s[j] != v);
        }
    }
}

/// Whether `v` holds chunk position `c`.
fn contains_chunk(v: &Vec<ChunkPos>, c: &ChunkPos) -> (r: bool)
    ensures
        r == v@.contains(*c),
{
    let mut i: usize = 0;
    while i < v.len()
        invariant
            0 <= i <= v@.len(),
            forall|j: int| 0 <= j < i ==> v@[j] != *c,
        decreases v@.len() - i,
    {
        if v[i] == *c {
            return true;
        }
        i = i + 1;
    }
    false
}

/// Whether `w` is a block slot of some chunk.
fn in_column_exec(w: &WorldPos) -> (r: bool)
    ensures
        r == in_column(*w),
{
    w.x >= -524288 && w.x < 524288 && w.z >= -524288 && w.z < 524288 && w.y >= 0 && w.y
        < CHUNK_HEIGHT as i32
}

/// Whether the chunk of `w` is representable.
fn chunk_in_range_exec(w: &WorldPos) -> (r: bool)
    ensures
        r == chunk_in_range(*w),
{
    w.x >= -524288 && w.x < 524288 && w.z >= -524288 && w.z < 524288
}

/// The key under which chunk `c` is stored.
fn key_of(c: &ChunkPos) -> (r: i64)
    ensures
        r == chunk_key(*c),
{
    c.x as i64 * 65536 + c.y as i64
}

/// Different chunks are stored under different keys.
pub proof fn lemma_chunk_key_injective(a: ChunkPos, b: ChunkPos)
    ensures
        chunk_key(a) == chunk_key(b) ==> a == b,
{
    if chunk_key(a) == chunk_key(b) {
        assert(a.x * 65536 + a.y == b.x * 65536 + b.y);
        assert(a.x == b.x) by (nonlinear_arith)
            requires
                a.x * 65536 + a.y == b.x * 65536 + b.y,
                -32768 <= a.y < 32768,
                -32768 <= b.y < 32768,
        ;
    }
}

/// Two positions of one chunk with the same packed index are equal.
pub proof fn lemma_slot_injective(a: WorldPos, b: WorldPos)
    requires
        in_column(a),
        in_column(b),
        chunk_of(a) == chunk_of(b),
        slot_of(a) == slot_of(b),
    ensures
        a == b,
{
    assert(inner_valid(inner_of(a)));
    assert(inner_valid(inner_of(b)));
    lemma_chunk_index_bijection(inner_of(a), 0);
    lemma_chunk_index_bijection(inner_of(b), 0);
    lemma_split_injective(a, b);
}

} // verus!
