//! World, chunk and voxel coordinates, and the conversions between them.
//!
//! A world coordinate `w` splits into the chunk `w / CHUNK_SIZE` (rounded
//! towards negative infinity) and the voxel `w % CHUNK_SIZE` inside that
//! chunk, on every axis, so that negative coordinates resolve to the chunk
//! that really contains them.

use vstd::prelude::*;
use crate::constants::CHUNK_SIZE;

verus! {

/// The chunk that holds world coordinate `w` on one axis.
pub open spec fn chunk_of(w: int) -> int {
    w / 32
}

/// The voxel inside its chunk of world coordinate `w` on one axis.
pub open spec fn local_of(w: int) -> int {
    w % 32
}

/// The size of a number.
pub open spec fn size_of(a: int) -> int {
    if a >= 0 {
        a
    } else {
        -a
    }
}

/// The quotient of a division that rounds towards zero.
pub open spec fn truncated_div(a: int, b: int) -> int {
    if (a >= 0) == (b > 0) {
        size_of(a) / size_of(b)
    } else {
        -(size_of(a) / size_of(b))
    }
}

/// The remainder of a division that rounds towards zero: it has the sign
/// of the dividend.
pub open spec fn truncated_rem(a: int, b: int) -> int {
    if a >= 0 {
        a % size_of(b)
    } else {
        -((-a) % size_of(b))
    }
}

/// Division by the chunk size that rounds towards negative infinity.
fn floor_div_chunk(w: i32) -> (q: i32)
    ensures
        q == chunk_of(w as int),
{
    if w >= 0 {
        w / 32
    } else {
        -1 - ((-1 - w) / 32)
    }
}

/// A position in the world, in voxels.
#[derive(Copy, Clone, Debug, PartialEq, Eq, Structural)]
pub struct WorldPos {
    pub x: i32,
    pub y: i32,
    pub z: i32,
}

/// The position of a chunk, in chunks.
#[derive(Copy, Clone, Debug, PartialEq, Eq, Structural, Hash)]
pub struct ChunkPos {
    pub x: i32,
    pub y: i32,
    pub z: i32,
}

/// The position of a voxel relative to the origin of its chunk.
#[derive(Copy, Clone, Debug, PartialEq, Eq, Structural)]
pub struct VoxelPos {
    pub x: usize,
    pub y: usize,
    pub z: usize,
}

/// A vector of signed integers: a step between voxels, or a position relative
/// to the origin of a chunk that may lie outside that chunk.
#[derive(Copy, Clone, Debug, PartialEq, Eq, Structural)]
pub struct IVec3 {
    pub x: i32,
    pub y: i32,
    pub z: i32,
}

/// A vector of two signed integers: a step in a plane.
#[derive(Copy, Clone, Debug, PartialEq, Eq, Structural)]
pub struct IVec2 {
    pub x: i32,
    pub y: i32,
}

impl IVec3 {
    pub fn new(x: i32, y: i32, z: i32) -> (v: Self)
        ensures
            v == (IVec3 { x, y, z }),
    {
        Self { x, y, z }
    }

    pub fn splat(val: i32) -> (v: Self)
        ensures
            v == (IVec3 { x: val, y: val, z: val }),
    {
        Self { x: val, y: val, z: val }
    }
}

impl IVec2 {
    pub fn new(x: i32, y: i32) -> (v: Self)
        ensures
            v == (IVec2 { x, y }),
    {
        Self { x, y }
    }
}

impl WorldPos {
    pub fn new(x: i32, y: i32, z: i32) -> (pos: Self)
        ensures
            pos == (WorldPos { x, y, z }),
    {
        Self { x, y, z }
    }

    pub fn splat(val: i32) -> (pos: Self)
        ensures
            pos == (WorldPos { x: val, y: val, z: val }),
    {
        Self::new(val, val, val)
    }

    /// The voxel and chunk that a world position falls into.
    pub open spec fn spec_to_voxel_pos(pos: WorldPos) -> (VoxelPos, ChunkPos) {
        (
            VoxelPos {
                x: local_of(pos.x as int) as usize,
                y: local_of(pos.y as int) as usize,
                z: local_of(pos.z as int) as usize,
            },
            ChunkPos {
                x: chunk_of(pos.x as int) as i32,
                y: chunk_of(pos.y as int) as i32,
                z: chunk_of(pos.z as int) as i32,
            },
        )
    }

    /// The world position of a voxel of a chunk, where it fits the machine integers.
    pub open spec fn spec_from_voxel_pos(voxel_pos: VoxelPos, chunk_pos: ChunkPos) -> WorldPos {
        WorldPos {
            x: (voxel_pos.x + chunk_pos.x * 32) as i32,
            y: (voxel_pos.y + chunk_pos.y * 32) as i32,
            z: (voxel_pos.z + chunk_pos.z * 32) as i32,
        }
    }

    /// Whether the world position of a voxel of a chunk fits the machine integers.
    pub open spec fn representable(voxel_pos: VoxelPos, chunk_pos: ChunkPos) -> bool {
        &&& i32::MIN <= voxel_pos.x + chunk_pos.x * 32 <= i32::MAX
        &&& i32::MIN <= voxel_pos.y + chunk_pos.y * 32 <= i32::MAX
        &&& i32::MIN <= voxel_pos.z + chunk_pos.z * 32 <= i32::MAX
    }

    /// Splits a world position into the chunk that holds it and the voxel
    /// inside that chunk. Works on every position, negative ones included.
    pub fn to_voxel_pos(pos: Self) -> (split: (VoxelPos, ChunkPos))
        ensures
            split == Self::spec_to_voxel_pos(pos),
            split.0.in_chunk(),
            split.0.x == local_of(pos.x as int),
            split.0.y == local_of(pos.y as int),
            split.0.z == local_of(pos.z as int),
            split.1.x == chunk_of(pos.x as int),
            split.1.y == chunk_of(pos.y as int),
            split.1.z == chunk_of(pos.z as int),
    {
        let cx: i32 = floor_div_chunk(pos.x);
        let cy: i32 = floor_div_chunk(pos.y);
        let cz: i32 = floor_div_chunk(pos.z);
        let vx: i32 = pos.x - cx * 32;
        let vy: i32 = pos.y - cy * 32;
        let vz: i32 = pos.z - cz * 32;
        (
            VoxelPos { x: vx as usize, y: vy as usize, z: vz as usize },
            ChunkPos { x: cx, y: cy, z: cz },
        )
    }

    /// Puts a voxel of a chunk back into the world.
    pub fn from_voxel_pos(voxel_pos: VoxelPos, chunk_pos: ChunkPos) -> (pos: Self)
        requires
            Self::representable(voxel_pos, chunk_pos),
        ensures
            pos == Self::spec_from_voxel_pos(voxel_pos, chunk_pos),
            pos.x == voxel_pos.x + chunk_pos.x * 32,
            pos.y == voxel_pos.y + chunk_pos.y * 32,
            pos.z == voxel_pos.z + chunk_pos.z * 32,
    {
        let x: i64 = voxel_pos.x as i64 + chunk_pos.x as i64 * 32;
        let y: i64 = voxel_pos.y as i64 + chunk_pos.y as i64 * 32;
        let z: i64 = voxel_pos.z as i64 + chunk_pos.z as i64 * 32;
        WorldPos { x: x as i32, y: y as i32, z: z as i32 }
    }

    /// Splitting a world position and putting the parts together again gives
    /// the position back, for every position, negative ones included.
    pub proof fn lemma_voxel_pos_round_trip(pos: WorldPos)
        ensures
            Self::representable(Self::spec_to_voxel_pos(pos).0, Self::spec_to_voxel_pos(pos).1),
            Self::spec_from_voxel_pos(
                Self::spec_to_voxel_pos(pos).0,
                Self::spec_to_voxel_pos(pos).1,
            ) == pos,
            Self::spec_to_voxel_pos(pos).0.in_chunk(),
    {
    }

    /// A voxel inside a chunk is found again when its world position is split.
    pub proof fn lemma_world_pos_round_trip(voxel_pos: VoxelPos, chunk_pos: ChunkPos)
        requires
            voxel_pos.in_chunk(),
            Self::representable(voxel_pos, chunk_pos),
        ensures
            Self::spec_to_voxel_pos(Self::spec_from_voxel_pos(voxel_pos, chunk_pos)) == (
                voxel_pos,
                chunk_pos,
            ),
    {
    }
}

impl ChunkPos {
    pub fn new(x: i32, y: i32, z: i32) -> (pos: Self)
        ensures
            pos == (ChunkPos { x, y, z }),
    {
        Self { x, y, z }
    }

    pub fn splat(val: i32) -> (pos: Self)
        ensures
            pos == (ChunkPos { x: val, y: val, z: val }),
    {
        Self { x: val, y: val, z: val }
    }

    pub fn from_tuple(pos: (i32, i32, i32)) -> (chunk_pos: Self)
        ensures
            chunk_pos == (ChunkPos { x: pos.0, y: pos.1, z: pos.2 }),
    {
        Self { x: pos.0, y: pos.1, z: pos.2 }
    }

    pub fn to_tuple(self) -> (pos: (i32, i32, i32))
        ensures
            pos == (self.x, self.y, self.z),
    {
        (self.x, self.y, self.z)
    }

    /// The square of the Euclidean distance between two chunk positions.
    pub open spec fn spec_distance_squared(&self, rhs: ChunkPos) -> int {
        (self.x - rhs.x) * (self.x - rhs.x) + (self.y - rhs.y) * (self.y - rhs.y) + (self.z
            - rhs.z) * (self.z - rhs.z)
    }

    /// The square of the Euclidean distance to `rhs`, by which chunks are
    /// ordered around an observer.
    pub fn distance_squared(&self, rhs: ChunkPos) -> (dist: u32)
        requires
            self.spec_distance_squared(rhs) <= u32::MAX,
        ensures
            dist == self.spec_distance_squared(rhs),
    {
        let dx: i64 = self.x as i64 - rhs.x as i64;
        let dy: i64 = self.y as i64 - rhs.y as i64;
        let dz: i64 = self.z as i64 - rhs.z as i64;
        proof {
            lemma_square_bounds(dx as int);
            lemma_square_bounds(dy as int);
            lemma_square_bounds(dz as int);
        }
        let sum: i64 = dx * dx + dy * dy + dz * dz;
        sum as u32
    }

    pub fn to_ivec3(&self) -> (v: IVec3)
        ensures
            v == (IVec3 { x: self.x, y: self.y, z: self.z }),
    {
        IVec3::new(self.x, self.y, self.z)
    }

    /// The offset by `rhs`, where it fits the machine integers.
    pub open spec fn spec_plus(self, rhs: ChunkPos) -> ChunkPos {
        ChunkPos {
            x: (self.x + rhs.x) as i32,
            y: (self.y + rhs.y) as i32,
            z: (self.z + rhs.z) as i32,
        }
    }

    /// Whether the offset by `rhs` fits the machine integers.
    pub open spec fn can_plus(self, rhs: ChunkPos) -> bool {
        &&& i32::MIN <= self.x + rhs.x <= i32::MAX
        &&& i32::MIN <= self.y + rhs.y <= i32::MAX
        &&& i32::MIN <= self.z + rhs.z <= i32::MAX
    }
}

/// A square is never negative, and a number is no larger than its square.
proof fn lemma_square_bounds(d: int)
    ensures
        d * d >= 0,
        d * d >= d,
        d * d >= -d,
{
    assert(d * d >= 0 && d * d >= d && d * d >= -d) by (nonlinear_arith);
}

impl VoxelPos {
    pub fn new(x: usize, y: usize, z: usize) -> (pos: Self)
        ensures
            pos == (VoxelPos { x, y, z }),
    {
        Self { x, y, z }
    }

    pub fn from_tuple(pos: (usize, usize, usize)) -> (voxel_pos: Self)
        ensures
            voxel_pos == (VoxelPos { x: pos.0, y: pos.1, z: pos.2 }),
    {
        Self { x: pos.0, y: pos.1, z: pos.2 }
    }

    pub fn to_tuple(self) -> (pos: (usize, usize, usize))
        ensures
            pos == (self.x, self.y, self.z),
    {
        (self.x, self.y, self.z)
    }

    /// Whether the position lies inside a chunk.
    pub open spec fn in_chunk(&self) -> bool {
        self.x < 32 && self.y < 32 && self.z < 32
    }

    /// The place of a voxel in a chunk's storage: x runs fastest, then y, then z.
    pub open spec fn spec_to_index(&self) -> int {
        self.x + (self.y + self.z * 32) * 32
    }

    /// The voxel stored at a place of a chunk's storage.
    pub open spec fn spec_from_index(index: int) -> VoxelPos {
        VoxelPos {
            x: (index % 32) as usize,
            y: ((index / 32) % 32) as usize,
            z: ((index / 1024) % 32) as usize,
        }
    }

    pub fn to_index(&self) -> (index: usize)
        requires
            self.spec_to_index() <= usize::MAX,
        ensures
            index == self.spec_to_index(),
    {
        self.x + (self.y + self.z * CHUNK_SIZE) * CHUNK_SIZE
    }

    pub fn from_index(index: usize) -> (pos: VoxelPos)
        ensures
            pos == Self::spec_from_index(index as int),
            pos.in_chunk(),
    {
        VoxelPos::new(
            index % CHUNK_SIZE,
            (index / CHUNK_SIZE) % CHUNK_SIZE,
            (index / (CHUNK_SIZE * CHUNK_SIZE)) % CHUNK_SIZE,
        )
    }

    /// The position as a vector of signed integers. A coordinate beyond the
    /// signed range wraps, as a cast does.
    pub fn to_ivec3(&self) -> (v: IVec3)
        ensures
            v == (IVec3 { x: self.x as i32, y: self.y as i32, z: self.z as i32 }),
    {
        IVec3::new(self.x as i32, self.y as i32, self.z as i32)
    }

    /// The position that a vector points at; a negative coordinate becomes 0.
    pub open spec fn spec_from_ivec3(voxel_pos: IVec3) -> VoxelPos {
        VoxelPos {
            x: if voxel_pos.x < 0 {
                0
            } else {
                voxel_pos.x as usize
            },
            y: if voxel_pos.y < 0 {
                0
            } else {
                voxel_pos.y as usize
            },
            z: if voxel_pos.z < 0 {
                0
            } else {
                voxel_pos.z as usize
            },
        }
    }

    pub fn from_ivec3(voxel_pos: IVec3) -> (pos: Self)
        ensures
            pos == Self::spec_from_ivec3(voxel_pos),
    {
        let x: i32 = if voxel_pos.x < 0 {
            0
        } else {
            voxel_pos.x
        };
        let y: i32 = if voxel_pos.y < 0 {
            0
        } else {
            voxel_pos.y
        };
        let z: i32 = if voxel_pos.z < 0 {
            0
        } else {
            voxel_pos.z
        };
        Self::new(x as usize, y as usize, z as usize)
    }

    /// The coordinates as signed integers. A coordinate beyond the signed
    /// range wraps, as a cast does.
    pub fn to_i32(&self) -> (pos: (i32, i32, i32))
        ensures
            pos == (self.x as i32, self.y as i32, self.z as i32),
    {
        (self.x as i32, self.y as i32, self.z as i32)
    }

    /// A voxel inside a chunk is stored below the chunk's volume, at a place
    /// from which it is read back.
    pub proof fn lemma_index_round_trip(pos: VoxelPos)
        requires
            pos.in_chunk(),
        ensures
            0 <= pos.spec_to_index() < 32 * 32 * 32,
            Self::spec_from_index(pos.spec_to_index()) == pos,
    {
    }

    /// Every place below a chunk's volume belongs to one voxel inside the chunk.
    pub proof fn lemma_position_round_trip(index: int)
        requires
            0 <= index < 32 * 32 * 32,
        ensures
            Self::spec_from_index(index).in_chunk(),
            Self::spec_from_index(index).spec_to_index() == index,
    {
    }
}

/// The position in a cube of side `bounds` of the place `index`: x runs
/// fastest, then y, then z.
pub open spec fn spec_index_to_chunk_pos_bounds(index: int, bounds: int) -> ChunkPos {
    ChunkPos {
        x: (index % bounds) as i32,
        y: ((index / bounds) % bounds) as i32,
        z: (index / (bounds * bounds)) as i32,
    }
}

/// The place in a cube of side `bounds` of a position. Only x is reduced
/// into the cube, by a remainder that rounds towards zero.
pub open spec fn spec_chunk_pos_to_index_bounds(chunk_pos: ChunkPos, bounds: int) -> int {
    truncated_rem(chunk_pos.x as int, bounds) + chunk_pos.y * bounds + chunk_pos.z * (bounds
        * bounds)
}

pub fn index_to_chunk_pos_bounds(index: usize, bounds: u32) -> (pos: ChunkPos)
    requires
        bounds > 0,
        index <= i32::MAX,
    ensures
        pos == spec_index_to_chunk_pos_bounds(index as int, bounds as int),
        pos.x == index as int % bounds as int,
        pos.y == (index as int / bounds as int) % bounds as int,
        pos.z == index as int / (bounds as int * bounds as int),
{
    let i: u64 = index as u64;
    let b: u64 = bounds as u64;
    assert(b * b <= 0xffff_ffff * 0xffff_ffff) by (nonlinear_arith)
        requires
            0 < b <= 0xffff_ffff,
    ;
    assert(b * b >= b) by (nonlinear_arith)
        requires
            0 < b,
    ;
    let bb: u64 = b * b;
    let x: u64 = i % b;
    let y: u64 = (i / b) % b;
    let z: u64 = i / bb;
    assert(i / b <= i) by (nonlinear_arith)
        requires
            0 < b,
            0 <= i,
    ;
    assert(i / bb <= i) by (nonlinear_arith)
        requires
            0 < bb,
            0 <= i,
    ;
    assert(i % b <= i) by (nonlinear_arith)
        requires
            0 < b,
            0 <= i,
    ;
    assert((i / b) % b <= i / b) by (nonlinear_arith)
        requires
            0 < b,
            0 <= i / b,
    ;
    ChunkPos { x: x as i32, y: y as i32, z: z as i32 }
}

pub fn chunk_pos_to_index_bounds(chunk_pos: ChunkPos, bounds: u32) -> (index: usize)
    requires
        bounds > 0,
        0 <= spec_chunk_pos_to_index_bounds(chunk_pos, bounds as int) <= usize::MAX,
    ensures
        index == spec_chunk_pos_to_index_bounds(chunk_pos, bounds as int),
{
    let b: i128 = bounds as i128;
    let x: i128 = chunk_pos.x as i128;
    let y: i128 = chunk_pos.y as i128;
    let z: i128 = chunk_pos.z as i128;
    let rem: i128 = if x >= 0 {
        x % b
    } else {
        -((-x) % b)
    };
    assert(b * b <= 0xffff_ffff * 0xffff_ffff && b * b > 0) by (nonlinear_arith)
        requires
            0 < b <= 0xffff_ffff,
    ;
    let bb: i128 = b * b;
    assert(-0x8000_0000 * 0xffff_ffff <= y * b <= 0x8000_0000 * 0xffff_ffff) by (nonlinear_arith)
        requires
            0 < b <= 0xffff_ffff,
            -0x8000_0000 <= y <= 0x8000_0000,
    ;
    assert(-0x8000_0000 * (0xffff_ffff * 0xffff_ffff) <= z * bb <= 0x8000_0000 * (0xffff_ffff
        * 0xffff_ffff)) by (nonlinear_arith)
        requires
            0 < bb <= 0xffff_ffff * 0xffff_ffff,
            -0x8000_0000 <= z <= 0x8000_0000,
    ;
    let total: i128 = rem + y * b + z * bb;
    total as usize
}

} // verus!
