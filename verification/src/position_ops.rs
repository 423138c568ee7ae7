//! Arithmetic on positions, component by component, and conversions
//! between positions and tuples.

use vstd::prelude::*;
use vstd::std_specs::convert::FromSpecImpl;
use vstd::std_specs::ops::{AddSpecImpl, DivSpecImpl, MulSpecImpl, RemSpecImpl, SubSpecImpl};
use std::ops::{Add, Div, Mul, Rem, Sub};
use crate::positions::{truncated_div, truncated_rem, ChunkPos, IVec3, VoxelPos, WorldPos};

verus! {

impl Add<WorldPos> for WorldPos {
    type Output = WorldPos;

    fn add(self, rhs: WorldPos) -> (sum: WorldPos) {
        WorldPos { x: self.x + rhs.x, y: self.y + rhs.y, z: self.z + rhs.z }
    }
}

impl AddSpecImpl<WorldPos> for WorldPos {
    open spec fn obeys_add_spec() -> bool {
        true
    }

    /// Every component of the result fits the machine integers.
    open spec fn add_req(self, rhs: WorldPos) -> bool {
        i32::MIN <= self.x + rhs.x <= i32::MAX && i32::MIN <= self.y + rhs.y <= i32::MAX && i32::MIN <= self.z + rhs.z <= i32::MAX
    }

    open spec fn add_spec(self, rhs: WorldPos) -> WorldPos {
        WorldPos { x: (self.x + rhs.x) as i32, y: (self.y + rhs.y) as i32, z: (self.z + rhs.z) as i32 }
    }
}

impl Add<ChunkPos> for ChunkPos {
    type Output = ChunkPos;

    fn add(self, rhs: ChunkPos) -> (sum: ChunkPos) {
        ChunkPos { x: self.x + rhs.x, y: self.y + rhs.y, z: self.z + rhs.z }
    }
}

impl AddSpecImpl<ChunkPos> for ChunkPos {
    open spec fn obeys_add_spec() -> bool {
        true
    }

    /// Every component of the result fits the machine integers.
    open spec fn add_req(self, rhs: ChunkPos) -> bool {
        i32::MIN <= self.x + rhs.x <= i32::MAX && i32::MIN <= self.y + rhs.y <= i32::MAX && i32::MIN <= self.z + rhs.z <= i32::MAX
    }

    open spec fn add_spec(self, rhs: ChunkPos) -> ChunkPos {
        ChunkPos { x: (self.x + rhs.x) as i32, y: (self.y + rhs.y) as i32, z: (self.z + rhs.z) as i32 }
    }
}

impl Sub<ChunkPos> for ChunkPos {
    type Output = ChunkPos;

    fn sub(self, rhs: ChunkPos) -> (difference: ChunkPos) {
        ChunkPos { x: self.x - rhs.x, y: self.y - rhs.y, z: self.z - rhs.z }
    }
}

impl SubSpecImpl<ChunkPos> for ChunkPos {
    open spec fn obeys_sub_spec() -> bool {
        true
    }

    /// Every component of the result fits the machine integers.
    open spec fn sub_req(self, rhs: ChunkPos) -> bool {
        i32::MIN <= self.x - rhs.x <= i32::MAX && i32::MIN <= self.y - rhs.y <= i32::MAX && i32::MIN <= self.z - rhs.z <= i32::MAX
    }

    open spec fn sub_spec(self, rhs: ChunkPos) -> ChunkPos {
        ChunkPos { x: (self.x - rhs.x) as i32, y: (self.y - rhs.y) as i32, z: (self.z - rhs.z) as i32 }
    }
}

impl Mul<i32> for ChunkPos {
    type Output = ChunkPos;

    fn mul(self, rhs: i32) -> (product: ChunkPos) {
        ChunkPos { x: self.x * rhs, y: self.y * rhs, z: self.z * rhs }
    }
}

impl MulSpecImpl<i32> for ChunkPos {
    open spec fn obeys_mul_spec() -> bool {
        true
    }

    /// Every component of the result fits the machine integers.
    open spec fn mul_req(self, rhs: i32) -> bool {
        i32::MIN <= self.x * rhs <= i32::MAX && i32::MIN <= self.y * rhs <= i32::MAX && i32::MIN <= self.z * rhs <= i32::MAX
    }

    open spec fn mul_spec(self, rhs: i32) -> ChunkPos {
        ChunkPos { x: (self.x * rhs) as i32, y: (self.y * rhs) as i32, z: (self.z * rhs) as i32 }
    }
}

impl Add<IVec3> for IVec3 {
    type Output = IVec3;

    fn add(self, rhs: IVec3) -> (sum: IVec3) {
        IVec3 { x: self.x + rhs.x, y: self.y + rhs.y, z: self.z + rhs.z }
    }
}

impl AddSpecImpl<IVec3> for IVec3 {
    open spec fn obeys_add_spec() -> bool {
        true
    }

    /// Every component of the result fits the machine integers.
    open spec fn add_req(self, rhs: IVec3) -> bool {
        i32::MIN <= self.x + rhs.x <= i32::MAX && i32::MIN <= self.y + rhs.y <= i32::MAX && i32::MIN <= self.z + rhs.z <= i32::MAX
    }

    open spec fn add_spec(self, rhs: IVec3) -> IVec3 {
        IVec3 { x: (self.x + rhs.x) as i32, y: (self.y + rhs.y) as i32, z: (self.z + rhs.z) as i32 }
    }
}

impl Sub<IVec3> for IVec3 {
    type Output = IVec3;

    fn sub(self, rhs: IVec3) -> (difference: IVec3) {
        IVec3 { x: self.x - rhs.x, y: self.y - rhs.y, z: self.z - rhs.z }
    }
}

impl SubSpecImpl<IVec3> for IVec3 {
    open spec fn obeys_sub_spec() -> bool {
        true
    }

    /// Every component of the result fits the machine integers.
    open spec fn sub_req(self, rhs: IVec3) -> bool {
        i32::MIN <= self.x - rhs.x <= i32::MAX && i32::MIN <= self.y - rhs.y <= i32::MAX && i32::MIN <= self.z - rhs.z <= i32::MAX
    }

    open spec fn sub_spec(self, rhs: IVec3) -> IVec3 {
        IVec3 { x: (self.x - rhs.x) as i32, y: (self.y - rhs.y) as i32, z: (self.z - rhs.z) as i32 }
    }
}

impl Add<VoxelPos> for VoxelPos {
    type Output = VoxelPos;

    fn add(self, rhs: VoxelPos) -> (sum: VoxelPos) {
        VoxelPos { x: self.x + rhs.x, y: self.y + rhs.y, z: self.z + rhs.z }
    }
}

impl AddSpecImpl<VoxelPos> for VoxelPos {
    open spec fn obeys_add_spec() -> bool {
        true
    }

    /// Every component of the result fits the machine integers.
    open spec fn add_req(self, rhs: VoxelPos) -> bool {
        0 <= self.x + rhs.x <= usize::MAX && 0 <= self.y + rhs.y <= usize::MAX && 0 <= self.z + rhs.z <= usize::MAX
    }

    open spec fn add_spec(self, rhs: VoxelPos) -> VoxelPos {
        VoxelPos { x: (self.x + rhs.x) as usize, y: (self.y + rhs.y) as usize, z: (self.z + rhs.z) as usize }
    }
}

impl Sub<VoxelPos> for VoxelPos {
    type Output = VoxelPos;

    fn sub(self, rhs: VoxelPos) -> (difference: VoxelPos) {
        VoxelPos { x: self.x - rhs.x, y: self.y - rhs.y, z: self.z - rhs.z }
    }
}

impl SubSpecImpl<VoxelPos> for VoxelPos {
    open spec fn obeys_sub_spec() -> bool {
        true
    }

    /// Every component of the result fits the machine integers.
    open spec fn sub_req(self, rhs: VoxelPos) -> bool {
        0 <= self.x - rhs.x <= usize::MAX && 0 <= self.y - rhs.y <= usize::MAX && 0 <= self.z - rhs.z <= usize::MAX
    }

    open spec fn sub_spec(self, rhs: VoxelPos) -> VoxelPos {
        VoxelPos { x: (self.x - rhs.x) as usize, y: (self.y - rhs.y) as usize, z: (self.z - rhs.z) as usize }
    }
}

impl Mul<usize> for VoxelPos {
    type Output = VoxelPos;

    fn mul(self, rhs: usize) -> (product: VoxelPos) {
        VoxelPos { x: self.x * rhs, y: self.y * rhs, z: self.z * rhs }
    }
}

impl MulSpecImpl<usize> for VoxelPos {
    open spec fn obeys_mul_spec() -> bool {
        true
    }

    /// Every component of the result fits the machine integers.
    open spec fn mul_req(self, rhs: usize) -> bool {
        0 <= self.x * rhs <= usize::MAX && 0 <= self.y * rhs <= usize::MAX && 0 <= self.z * rhs <= usize::MAX
    }

    open spec fn mul_spec(self, rhs: usize) -> VoxelPos {
        VoxelPos { x: (self.x * rhs) as usize, y: (self.y * rhs) as usize, z: (self.z * rhs) as usize }
    }
}

impl Div<usize> for VoxelPos {
    type Output = VoxelPos;

    fn div(self, rhs: usize) -> (quotient: VoxelPos) {
        VoxelPos { x: self.x / rhs, y: self.y / rhs, z: self.z / rhs }
    }
}

impl DivSpecImpl<usize> for VoxelPos {
    open spec fn obeys_div_spec() -> bool {
        true
    }

    /// The divisor is not zero.
    open spec fn div_req(self, rhs: usize) -> bool {
        rhs != 0
    }

    open spec fn div_spec(self, rhs: usize) -> VoxelPos {
        VoxelPos { x: (self.x / rhs) as usize, y: (self.y / rhs) as usize, z: (self.z / rhs) as usize }
    }
}

impl Rem<usize> for VoxelPos {
    type Output = VoxelPos;

    fn rem(self, rhs: usize) -> (remainder: VoxelPos) {
        VoxelPos { x: self.x % rhs, y: self.y % rhs, z: self.z % rhs }
    }
}

impl RemSpecImpl<usize> for VoxelPos {
    open spec fn obeys_rem_spec() -> bool {
        true
    }

    /// The divisor is not zero.
    open spec fn rem_req(self, rhs: usize) -> bool {
        rhs != 0
    }

    open spec fn rem_spec(self, rhs: usize) -> VoxelPos {
        VoxelPos { x: (self.x % rhs) as usize, y: (self.y % rhs) as usize, z: (self.z % rhs) as usize }
    }
}

impl From<(i32, i32, i32)> for WorldPos {
    fn from(pos: (i32, i32, i32)) -> (converted: WorldPos) {
        WorldPos { x: pos.0, y: pos.1, z: pos.2 }
    }
}

impl FromSpecImpl<(i32, i32, i32)> for WorldPos {
    open spec fn obeys_from_spec() -> bool {
        true
    }

    open spec fn from_spec(pos: (i32, i32, i32)) -> WorldPos {
        WorldPos { x: pos.0, y: pos.1, z: pos.2 }
    }
}

impl From<(i32, i32, i32)> for ChunkPos {
    fn from(pos: (i32, i32, i32)) -> (converted: ChunkPos) {
        ChunkPos { x: pos.0, y: pos.1, z: pos.2 }
    }
}

impl FromSpecImpl<(i32, i32, i32)> for ChunkPos {
    open spec fn obeys_from_spec() -> bool {
        true
    }

    open spec fn from_spec(pos: (i32, i32, i32)) -> ChunkPos {
        ChunkPos { x: pos.0, y: pos.1, z: pos.2 }
    }
}

impl From<ChunkPos> for (i32, i32, i32) {
    fn from(pos: ChunkPos) -> (converted: (i32, i32, i32)) {
        (pos.x, pos.y, pos.z)
    }
}

impl FromSpecImpl<ChunkPos> for (i32, i32, i32) {
    open spec fn obeys_from_spec() -> bool {
        true
    }

    open spec fn from_spec(pos: ChunkPos) -> (i32, i32, i32) {
        (pos.x, pos.y, pos.z)
    }
}

impl From<(i32, i32, i32)> for IVec3 {
    fn from(pos: (i32, i32, i32)) -> (converted: IVec3) {
        IVec3 { x: pos.0, y: pos.1, z: pos.2 }
    }
}

impl FromSpecImpl<(i32, i32, i32)> for IVec3 {
    open spec fn obeys_from_spec() -> bool {
        true
    }

    open spec fn from_spec(pos: (i32, i32, i32)) -> IVec3 {
        IVec3 { x: pos.0, y: pos.1, z: pos.2 }
    }
}

impl From<(usize, usize, usize)> for VoxelPos {
    fn from(pos: (usize, usize, usize)) -> (converted: VoxelPos) {
        VoxelPos { x: pos.0, y: pos.1, z: pos.2 }
    }
}

impl FromSpecImpl<(usize, usize, usize)> for VoxelPos {
    open spec fn obeys_from_spec() -> bool {
        true
    }

    open spec fn from_spec(pos: (usize, usize, usize)) -> VoxelPos {
        VoxelPos { x: pos.0, y: pos.1, z: pos.2 }
    }
}

impl From<VoxelPos> for (usize, usize, usize) {
    fn from(pos: VoxelPos) -> (converted: (usize, usize, usize)) {
        (pos.x, pos.y, pos.z)
    }
}

impl FromSpecImpl<VoxelPos> for (usize, usize, usize) {
    open spec fn obeys_from_spec() -> bool {
        true
    }

    open spec fn from_spec(pos: VoxelPos) -> (usize, usize, usize) {
        (pos.x, pos.y, pos.z)
    }
}

/// Whether a quotient fits the machine integers: the divisor is not zero,
/// and the smallest integer is not divided by -1.
pub open spec fn can_divide(a: i32, b: i32) -> bool {
    b != 0 && !(a == i32::MIN && b == -1)
}

/// Division of machine integers that rounds towards zero.
fn div_towards_zero(a: i32, b: i32) -> (q: i32)
    requires
        can_divide(a, b),
    ensures
        q == truncated_div(a as int, b as int),
{
    let wide_a: i64 = a as i64;
    let wide_b: i64 = b as i64;
    let size_a: i64 = if wide_a >= 0 {
        wide_a
    } else {
        -wide_a
    };
    let size_b: i64 = if wide_b >= 0 {
        wide_b
    } else {
        -wide_b
    };
    let size_q: i64 = size_a / size_b;
    assert(0 <= size_q <= size_a) by (nonlinear_arith)
        requires
            size_q == size_a / size_b,
            0 <= size_a,
            0 < size_b,
    ;
    assert(size_b >= 2 ==> size_q <= size_a / 2) by (nonlinear_arith)
        requires
            size_q == size_a / size_b,
            0 <= size_a,
            0 < size_b,
    ;
    let q: i64 = if (wide_a >= 0) == (wide_b > 0) {
        size_q
    } else {
        -size_q
    };
    q as i32
}

/// The remainder of a division of machine integers that rounds towards zero.
fn rem_towards_zero(a: i32, b: i32) -> (r: i32)
    requires
        b != 0,
    ensures
        r == truncated_rem(a as int, b as int),
{
    let wide_a: i64 = a as i64;
    let wide_b: i64 = b as i64;
    let size_a: i64 = if wide_a >= 0 {
        wide_a
    } else {
        -wide_a
    };
    let size_b: i64 = if wide_b >= 0 {
        wide_b
    } else {
        -wide_b
    };
    let size_r: i64 = size_a % size_b;
    assert(0 <= size_r <= size_a) by (nonlinear_arith)
        requires
            size_r == size_a % size_b,
            0 <= size_a,
            0 < size_b,
    ;
    let r: i64 = if wide_a >= 0 {
        size_r
    } else {
        -size_r
    };
    r as i32
}

impl Div<i32> for ChunkPos {
    type Output = ChunkPos;

    fn div(self, rhs: i32) -> (quotient: ChunkPos) {
        ChunkPos {
            x: div_towards_zero(self.x, rhs),
            y: div_towards_zero(self.y, rhs),
            z: div_towards_zero(self.z, rhs),
        }
    }
}

impl DivSpecImpl<i32> for ChunkPos {
    open spec fn obeys_div_spec() -> bool {
        true
    }

    /// Every component of the result fits the machine integers.
    open spec fn div_req(self, rhs: i32) -> bool {
        can_divide(self.x, rhs) && can_divide(self.y, rhs) && can_divide(self.z, rhs)
    }

    open spec fn div_spec(self, rhs: i32) -> ChunkPos {
        ChunkPos {
            x: truncated_div(self.x as int, rhs as int) as i32,
            y: truncated_div(self.y as int, rhs as int) as i32,
            z: truncated_div(self.z as int, rhs as int) as i32,
        }
    }
}

impl Rem<i32> for WorldPos {
    type Output = WorldPos;

    fn rem(self, rhs: i32) -> (remainder: WorldPos) {
        WorldPos {
            x: rem_towards_zero(self.x, rhs),
            y: rem_towards_zero(self.y, rhs),
            z: rem_towards_zero(self.z, rhs),
        }
    }
}

impl RemSpecImpl<i32> for WorldPos {
    open spec fn obeys_rem_spec() -> bool {
        true
    }

    /// The divisor is not zero.
    open spec fn rem_req(self, rhs: i32) -> bool {
        rhs != 0
    }

    open spec fn rem_spec(self, rhs: i32) -> WorldPos {
        WorldPos {
            x: truncated_rem(self.x as int, rhs as int) as i32,
            y: truncated_rem(self.y as int, rhs as int) as i32,
            z: truncated_rem(self.z as int, rhs as int) as i32,
        }
    }
}

} // verus!
