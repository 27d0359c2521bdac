use crate::vec::{Vec2, Vec3};
use vstd::prelude::*;

verus! {

/// Width of a chunk along x and along z, in blocks.
pub const CHUNK_WIDTH: i16 = 16;

/// Height of a chunk, in blocks.
pub const CHUNK_HEIGHT: i16 = 64;

/// Number of block slots in a chunk: width * height * width.
pub const CHUNK_MEM_SIZE: usize = 16384;

/// Bits that the packed index gives to z (the chunk width is 16).
pub const Z_BITS: usize = 4;

/// Bits that the packed index gives to y (the chunk height is 64).
pub const Y_BITS: usize = 6;

/// A block position inside one chunk: x and z in [0, 16), y in [0, 64).
pub type InnerChunkPos = Vec3<u8>;

/// A block position in the world.
pub type WorldPos = Vec3<i32>;

/// The identity of a chunk column: `x` is the world's x / 16 and `y` the
/// world's z / 16, both rounded down.
pub type ChunkPos = Vec2<i16>;

/// Whether the components of `p` are inside one chunk.
pub open spec fn inner_valid(p: InnerChunkPos) -> bool {
    p.x < 16 && p.y < 64 && p.z < 16
}

/// The packed index of an in-chunk position: x * 1024 + y * 16 + z.
pub open spec fn chunk_index_of(p: InnerChunkPos) -> int {
    p.x * 1024 + p.y * 16 + p.z
}

/// The in-chunk position that a packed index stands for.
pub open spec fn inner_at(i: int) -> InnerChunkPos {
    Vec3 { x: (i / 1024) as u8, y: ((i / 16) % 64) as u8, z: (i % 16) as u8 }
}

/// The chunk that holds a world position (division rounds down).
pub open spec fn chunk_of(w: WorldPos) -> ChunkPos {
    Vec2 { x: (w.x / 16) as i16, y: (w.z / 16) as i16 }
}

/// The position of `w` inside its chunk; x and z are taken modulo 16 into
/// [0, 16), y is kept as its low eight bits.
pub open spec fn inner_of(w: WorldPos) -> InnerChunkPos {
    Vec3 { x: (w.x % 16) as u8, y: w.y as u8, z: (w.z % 16) as u8 }
}

/// The world position of in-chunk position `p` of chunk `c`.
pub open spec fn world_of(c: ChunkPos, p: InnerChunkPos) -> WorldPos {
    Vec3 { x: (c.x * 16 + p.x) as i32, y: p.y as i32, z: (c.y * 16 + p.z) as i32 }
}

/// Whether the chunk of `w` is representable, i.e. x / 16 and z / 16 fit in
/// an `i16`.
pub open spec fn chunk_in_range(w: WorldPos) -> bool {
    -524288 <= w.x < 524288 && -524288 <= w.z < 524288
}

/// Whether `w` names a block slot of some chunk: its chunk is representable
/// and its height is inside the column.
pub open spec fn in_column(w: WorldPos) -> bool {
    chunk_in_range(w) && 0 <= w.y < 64
}

/// The zig-zag code of a signed coordinate: 2|v|, plus one when negative.
pub open spec fn zig_zag(v: int) -> int {
    if v < 0 {
        -2 * v + 1
    } else {
        2 * v
    }
}

/// The Cantor pairing of two naturals.
pub open spec fn cantor_pair(a: int, b: int) -> int {
    (a + b) * (a + b + 1) / 2 + b
}

/// Floor division by 16.
fn floor_div_16(v: i32) -> (r: i32)
    ensures
        r == v / 16,
        v - 16 * r == v % 16,
{
    if v >= 0 {
        v / 16
    } else {
        let a: i32 = -(v + 1);
        let q: i32 = a / 16;
        proof {
            assert(a == 16 * q + a % 16);
        }
        -q - 1
    }
}

impl Vec3<u8> {
    /// Packs an in-chunk position as `(x << 10) | (y << 4) | z`.
    pub fn to_chunk_index(&self) -> (r: usize)
        ensures
            r == chunk_index_of(*self),
    {
        let xu = self.x as usize;
        let yu = self.y as usize;
        let zu = self.z as usize;
        proof {
            assert(xu << 10usize == xu * 1024) by (bit_vector)
                requires
                    xu < 256,
            ;
            assert(yu << 4usize == yu * 16) by (bit_vector)
                requires
                    yu < 256,
            ;
        }
        let x_part = xu << (Z_BITS + Y_BITS);
        let y_part = yu << Z_BITS;
        x_part + y_part + zu
    }

    /// Unpacks an index made by `to_chunk_index`.
    pub fn make_from_chunk_index(index: usize) -> (r: InnerChunkPos)
        ensures
            r == inner_at(index as int),
    {
        proof {
            assert(index >> 10usize == index / 1024) by (bit_vector);
            assert((index & 0b1111110000usize) >> 4usize == (index / 16) % 64) by (bit_vector);
            assert(index & 0b1111usize == index % 16) by (bit_vector);
        }
        #[verifier::truncate]
        let x = (index >> (Z_BITS + Y_BITS)) as u8;
        let y = ((index & 0b1111110000) >> Z_BITS) as u8;
        let z = (index & 0b1111) as u8;
        Vec3 { x, y, z }
    }

    /// The world position of this in-chunk position in chunk `chunk_pos`.
    pub fn to_world_pos(&self, chunk_pos: &ChunkPos) -> (r: WorldPos)
        ensures
            r == world_of(*chunk_pos, *self),
            r.x == chunk_pos.x * 16 + self.x,
            r.y == self.y,
            r.z == chunk_pos.y * 16 + self.z,
    {
        let width = CHUNK_WIDTH as i32;
        Vec3 {
            x: chunk_pos.x as i32 * width + self.x as i32,
            y: self.y as i32,
            z: chunk_pos.y as i32 * width + self.z as i32,
        }
    }
}

impl Vec3<i32> {
    /// Whether the height is within [0, 256).
    pub fn is_valid(&self) -> (r: bool)
        ensures
            r == (0 <= self.y < 256),
    {
        self.y >= 0 && self.y < 256
    }

    /// The position inside the chunk: x and z modulo 16 (into [0, 16), also
    /// for negative coordinates), y unchanged in its low eight bits.
    pub fn to_inner_chunk_pos(&self) -> (r: InnerChunkPos)
        ensures
            r == inner_of(*self),
    {
        let width = CHUNK_WIDTH as i32;
        let x = self.x - width * floor_div_16(self.x);
        let z = self.z - width * floor_div_16(self.z);
        #[verifier::truncate]
        let y = self.y as u8;
        Vec3 { x: x as u8, y, z: z as u8 }
    }

    /// The chunk column holding this position; the division rounds down, so
    /// x = -1 lies in chunk -1.
    pub fn to_chunk_pos(&self) -> (r: ChunkPos)
        ensures
            r == chunk_of(*self),
    {
        let x = floor_div_16(self.x);
        let y = floor_div_16(self.z);
        #[verifier::truncate]
        let cx = x as i16;
        #[verifier::truncate]
        let cy = y as i16;
        Vec2 { x: cx, y: cy }
    }
}

impl Vec2<i16> {
    /// A single integer for the chunk: x + y * 65536, truncated to 32 bits.
    pub fn to_world_index(&self) -> (r: i32)
        ensures
            r == (self.x + self.y * 65536) as i32,
    {
        let v: i64 = self.x as i64 + (self.y as i64) * 65536;
        #[verifier::truncate]
        let r = v as i32;
        r
    }

    /// A natural number that differs for every chunk: the Cantor pairing of
    /// the zig-zag codes of x and y.
    pub fn to_id(&self) -> (r: u64)
        ensures
            r == cantor_pair(zig_zag(self.x as int), zig_zag(self.y as int)),
    {
        let mut x: u64 = if self.x < 0 {
            2 * ((-(self.x as i32)) as u64)
        } else {
            2 * (self.x as u64)
        };
        let mut y: u64 = if self.y < 0 {
            2 * ((-(self.y as i32)) as u64)
        } else {
            2 * (self.y as u64)
        };
        if self.x < 0 {
            x = x + 1;
        }
        if self.y < 0 {
            y = y + 1;
        }
        proof {
            assert(0 <= (x + y) * (x + y + 1) <= 131075 * 131076) by (nonlinear_arith)
                requires
                    x <= 65537,
                    y <= 65537,
            ;
        }
        (x + y) * (x + y + 1) / 2 + y
    }
}

/// Packing an in-chunk position and unpacking it gives the position back, and
/// every index of a chunk stands for a valid position that packs to it.
pub proof fn lemma_chunk_index_bijection(p: InnerChunkPos, i: int)
    ensures
        inner_valid(p) ==> 0 <= chunk_index_of(p) < 16384 && inner_at(chunk_index_of(p)) == p,
        0 <= i < 16384 ==> inner_valid(inner_at(i)) && chunk_index_of(inner_at(i)) == i,
{
    if inner_valid(p) {
        let k = chunk_index_of(p);
        assert(k / 1024 == p.x as int) by (nonlinear_arith)
            requires
                k == p.x * 1024 + p.y * 16 + p.z,
                0 <= p.x < 16,
                0 <= p.y < 64,
                0 <= p.z < 16,
        ;
        assert(k / 16 == p.x * 64 + p.y) by (nonlinear_arith)
            requires
                k == p.x * 1024 + p.y * 16 + p.z,
                0 <= p.x < 16,
                0 <= p.y < 64,
                0 <= p.z < 16,
        ;
        assert((p.x * 64 + p.y) % 64 == p.y as int) by (nonlinear_arith)
            requires
                0 <= p.x < 16,
                0 <= p.y < 64,
        ;
        assert(k % 16 == p.z as int) by (nonlinear_arith)
            requires
                k == p.x * 1024 + p.y * 16 + p.z,
                0 <= p.x < 16,
                0 <= p.y < 64,
                0 <= p.z < 16,
        ;
    }
    if 0 <= i < 16384 {
        assert(i == (i / 1024) * 1024 + ((i / 16) % 64) * 16 + i % 16 && 0 <= i / 1024 < 16)
            by (nonlinear_arith)
            requires
                0 <= i < 16384,
        ;
    }
}

/// Splitting a world position into its chunk and its in-chunk position and
/// joining them again gives the position back, for negative coordinates too.
/// It holds wherever the chunk is representable and the height fits in the
/// eight bits that an in-chunk position keeps.
pub proof fn lemma_world_pos_round_trip(w: WorldPos)
    requires
        chunk_in_range(w),
        0 <= w.y < 256,
    ensures
        world_of(chunk_of(w), inner_of(w)) == w,
{
    assert(w.x == (w.x / 16) * 16 + w.x % 16);
    assert(w.z == (w.z / 16) * 16 + w.z % 16);
}

/// A world position built from a chunk and a valid in-chunk position lies in
/// that chunk, at that in-chunk position.
pub proof fn lemma_world_of_split(c: ChunkPos, p: InnerChunkPos)
    requires
        inner_valid(p),
    ensures
        in_column(world_of(c, p)),
        chunk_of(world_of(c, p)) == c,
        inner_of(world_of(c, p)) == p,
{
    let w = world_of(c, p);
    assert((c.x * 16 + p.x) / 16 == c.x) by (nonlinear_arith)
        requires
            0 <= p.x < 16,
    ;
    assert((c.x * 16 + p.x) % 16 == p.x) by (nonlinear_arith)
        requires
            0 <= p.x < 16,
    ;
    assert((c.y * 16 + p.z) / 16 == c.y) by (nonlinear_arith)
        requires
            0 <= p.z < 16,
    ;
    assert((c.y * 16 + p.z) % 16 == p.z) by (nonlinear_arith)
        requires
            0 <= p.z < 16,
    ;
}

/// Two different positions of the column range differ in their chunk or in
/// their in-chunk position.
pub proof fn lemma_split_injective(a: WorldPos, b: WorldPos)
    requires
        in_column(a),
        in_column(b),
        chunk_of(a) == chunk_of(b),
        inner_of(a) == inner_of(b),
    ensures
        a == b,
{
    lemma_world_pos_round_trip(a);
    lemma_world_pos_round_trip(b);
}

} // verus!
