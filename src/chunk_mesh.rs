use crate::direction::{Direction, Directions};
use crate::positions::{
    CHUNK_MEM_SIZE, ChunkPos, InnerChunkPos, WorldPos, chunk_index_of, inner_at, inner_of,
    lemma_chunk_index_bijection, lemma_world_of_split, world_of,
};
use std::collections::HashMap;
use vstd::prelude::*;

verus! {

broadcast use vstd::std_specs::hash::group_hash_axioms;

/// The empty face set.
pub open spec fn no_faces() -> Directions {
    Directions::from_pred(|d: Direction| false)
}

/// The packed in-chunk index of a world position.
pub open spec fn slot_of(w: WorldPos) -> int {
    chunk_index_of(inner_of(w))
}

/// The visible faces of one block.
#[derive(Clone, Copy, Debug, PartialEq, Eq, Structural)]
pub struct BlockMesh {
    pub world_pos: WorldPos,
    pub directions: Directions,
}

/// The visible-face sets of the blocks of one chunk, keyed by packed index.
/// A slot without an entry has no visible face.
pub struct ChunkMesh {
    face_map: HashMap<usize, Directions>,
    chunk_pos: ChunkPos,
}

impl ChunkMesh {
    /// The face set stored for packed index `i`.
    pub closed spec fn faces(&self, i: int) -> Directions {
        if 0 <= i <= usize::MAX && self.face_map@.contains_key(i as usize) {
            self.face_map@[i as usize]
        } else {
            no_faces()
        }
    }

    /// Whether an entry is stored for packed index `i`.
    pub closed spec fn has_entry(&self, i: int) -> bool {
        0 <= i <= usize::MAX && self.face_map@.contains_key(i as usize)
    }

    /// The chunk this mesh belongs to.
    pub closed spec fn pos(&self) -> ChunkPos {
        self.chunk_pos
    }

    /// A mesh with no entry.
    pub fn new(chunk_pos: ChunkPos) -> (r: ChunkMesh)
        ensures
            r.pos() == chunk_pos,
            forall|i: int| #[trigger] r.faces(i) == no_faces(),
            forall|i: int| !#[trigger] r.has_entry(i),
    {
        ChunkMesh { face_map: HashMap::new(), chunk_pos }
    }

    /// Stores the face set of the block at `world_pos`.
    pub fn insert(&mut self, world_pos: WorldPos, directions: Directions)
        ensures
            final(self).pos() == old(self).pos(),
            final(self).faces(slot_of(world_pos)) == directions,
            final(self).has_entry(slot_of(world_pos)),
            forall|i: int| i != slot_of(world_pos) ==> #[trigger] final(self).faces(i) == old(self).faces(i),
            forall|i: int| i != slot_of(world_pos) ==> #[trigger] final(self).has_entry(i) == old(self).has_entry(i),
    {
        let index = world_pos.to_inner_chunk_pos().to_chunk_index();
        self.face_map.insert(index, directions);
    }

    /// Drops the entry of the block at `world_pos`.
    pub fn remove(&mut self, world_pos: WorldPos)
        ensures
            final(self).pos() == old(self).pos(),
            final(self).faces(slot_of(world_pos)) == no_faces(),
            !final(self).has_entry(slot_of(world_pos)),
            forall|i: int| i != slot_of(world_pos) ==> #[trigger] final(self).faces(i) == old(self).faces(i),
            forall|i: int| i != slot_of(world_pos) ==> #[trigger] final(self).has_entry(i) == old(self).has_entry(i),
    {
        let index = world_pos.to_inner_chunk_pos().to_chunk_index();
        self.face_map.remove(&index);
    }

    /// The visible faces of the block at `world_pos`; none when no entry is
    /// stored.
    pub fn get(&self, world_pos: WorldPos) -> (r: BlockMesh)
        ensures
            r.world_pos == world_pos,
            r.directions == self.faces(slot_of(world_pos)),
    {
        let index = world_pos.to_inner_chunk_pos().to_chunk_index();
        let directions = match self.face_map.get(&index) {
            Some(d) => *d,
            None => Directions::empty(),
        };
        proof {
            if !self.face_map@.contains_key(index) {
                crate::direction::lemma_directions_ext(directions, no_faces());
            }
        }
        BlockMesh { world_pos, directions }
    }

    /// Whether an entry is stored for the block at `world_pos`.
    pub fn contains(&self, world_pos: WorldPos) -> (r: bool)
        ensures
            r == self.has_entry(slot_of(world_pos)),
    {
        let index = world_pos.to_inner_chunk_pos().to_chunk_index();
        self.face_map.contains_key(&index)
    }

    /// The stored entries in slot order, each with the world position of its
    /// slot in this mesh's chunk.
    pub open spec fn listed_entries(&self) -> Seq<(WorldPos, Directions)> {
        Seq::new(
            CHUNK_MEM_SIZE as nat,
            |i: int| (world_of(self.pos(), inner_at(i)), self.faces(i)),
        ).filter(|e: (WorldPos, Directions)| self.has_entry(slot_of(e.0)))
    }

    /// The stored entries of the chunk's slots, in slot order.
    pub fn entries(&self) -> (r: Vec<(WorldPos, Directions)>)
        ensures
            r@ == self.listed_entries(),
    {
        let ghost all = Seq::new(
            CHUNK_MEM_SIZE as nat,
            |i: int| (world_of(self.pos(), inner_at(i)), self.faces(i)),
        );
        let ghost keep = |e: (WorldPos, Directions)| self.has_entry(slot_of(e.0));
        let mut r: Vec<(WorldPos, Directions)> = Vec::new();
        let mut i: usize = 0;
        while i < CHUNK_MEM_SIZE
            invariant
                0 <= i <= CHUNK_MEM_SIZE,
                all == Seq::new(
                    CHUNK_MEM_SIZE as nat,
                    |i: int| (world_of(self.pos(), inner_at(i)), self.faces(i)),
                ),
                keep == (|e: (WorldPos, Directions)| self.has_entry(slot_of(e.0))),
                r@ == all.take(i as int).filter(keep),
            decreases CHUNK_MEM_SIZE - i,
        {
            let inner = InnerChunkPos::make_from_chunk_index(i);
            let world_pos = inner.to_world_pos(&self.chunk_pos);
            proof {
                lemma_chunk_index_bijection(inner, i as int);
                lemma_world_of_split(self.chunk_pos, inner);
            }
            let found = self.contains(world_pos);
            let entry = (world_pos, self.get(world_pos).directions);
            proof {
                assert(entry == all[i as int]);
                assert(all.take(i as int + 1) == all.take(i as int).push(entry));
                all.take(i as int).lemma_filter_push(entry, keep);
            }
            if found {
                r.push(entry);
            }
            i = i + 1;
        }
        proof {
            assert(all.take(CHUNK_MEM_SIZE as int) == all);
        }
        r
    }

    /// The chunk this mesh belongs to.
    pub fn chunk_pos(&self) -> (r: ChunkPos)
        ensures
            r == self.pos(),
    {
        self.chunk_pos
    }
}

} // verus!
