//! Spherical sampling: the offsets of the chunks around an observer, in the
//! order in which they are wanted.

use vstd::prelude::*;
use vstd::arithmetic::div_mod::{
    lemma_div_denominator,
    lemma_fundamental_div_mod,
    lemma_fundamental_div_mod_converse,
};
use crate::positions::{spec_index_to_chunk_pos_bounds, ChunkPos};

verus! {

/// The largest radius whose cube of offsets can be counted in the machine
/// integers that index it.
pub const MAX_SAMPLING_RADIUS: u32 = 644;

/// The offset from which distances of offsets are measured.
pub open spec fn origin() -> ChunkPos {
    ChunkPos { x: 0, y: 0, z: 0 }
}

/// The side of the cube of offsets around the origin.
pub open spec fn cube_side(radius: int) -> int {
    2 * radius + 1
}

/// The number of offsets in the cube.
pub open spec fn cube_volume(radius: int) -> int {
    cube_side(radius) * cube_side(radius) * cube_side(radius)
}

/// The offsets that are no further than `radius` from the origin on any axis.
pub open spec fn cube(radius: int) -> Set<ChunkPos> {
    Set::new(
        |pos: ChunkPos|
            -radius <= pos.x <= radius && -radius <= pos.y <= radius && -radius <= pos.z <= radius,
    )
}

/// The `index`th offset of the cube in raster order: x runs fastest, then
/// y, then z.
pub open spec fn raster_offset(radius: int, index: int) -> ChunkPos {
    let at = spec_index_to_chunk_pos_bounds(index, cube_side(radius));
    ChunkPos { x: (at.x - radius) as i32, y: (at.y - radius) as i32, z: (at.z - radius) as i32 }
}

/// The offsets of the cube in raster order.
pub open spec fn raster(radius: int) -> Seq<ChunkPos> {
    Seq::new(cube_volume(radius) as nat, |index: int| raster_offset(radius, index))
}

/// The cube of a radius that can be sampled fits the machine integers.
pub proof fn lemma_cube_volume(radius: int)
    requires
        0 <= radius <= 644,
    ensures
        1 <= cube_side(radius) <= 1289,
        1 <= cube_side(radius) * cube_side(radius) <= 1289 * 1289,
        1 <= cube_volume(radius) <= 1289 * 1289 * 1289,
{
    let r = cube_side(radius);
    assert(1 <= r * r <= 1289 * 1289) by (nonlinear_arith)
        requires
            1 <= r <= 1289,
    ;
    assert(1 <= (r * r) * r <= 1289 * 1289 * 1289) by (nonlinear_arith)
        requires
            1 <= r <= 1289,
            1 <= r * r <= 1289 * 1289,
    ;
}

/// An index of the cube is made of its three coordinates, and the
/// coordinates lie in the cube.
pub proof fn lemma_raster_coordinates(radius: int, index: int)
    requires
        0 <= radius <= 644,
        0 <= index < cube_volume(radius),
    ensures
        ({
            let r = cube_side(radius);
            let x = index % r;
            let y = (index / r) % r;
            let z = index / (r * r);
            &&& 0 <= x < r
            &&& 0 <= y < r
            &&& 0 <= z < r
            &&& index == x + r * (y + r * z)
        }),
        cube(radius).contains(raster_offset(radius, index)),
        raster_offset(radius, index).x == index % cube_side(radius) - radius,
        raster_offset(radius, index).y == (index / cube_side(radius)) % cube_side(radius) - radius,
        raster_offset(radius, index).z == index / (cube_side(radius) * cube_side(radius)) - radius,
{
    let r = cube_side(radius);
    lemma_cube_volume(radius);
    let x = index % r;
    let rest = index / r;
    let y = rest % r;
    let z = rest / r;
    lemma_fundamental_div_mod(index, r);
    lemma_fundamental_div_mod(rest, r);
    lemma_div_denominator(index, r, r);
    assert(z == index / (r * r));
    assert(0 <= rest) by (nonlinear_arith)
        requires
            index == r * rest + x,
            0 <= index,
            0 <= x < r,
            r >= 1,
    ;
    assert(0 <= z) by (nonlinear_arith)
        requires
            rest == r * z + y,
            0 <= rest,
            0 <= y < r,
            r >= 1,
    ;
    assert(z < r) by (nonlinear_arith)
        requires
            index == r * rest + x,
            rest == r * z + y,
            index < r * r * r,
            0 <= x,
            0 <= y,
            r >= 1,
    ;
    assert(index == x + r * (y + r * z)) by (nonlinear_arith)
        requires
            index == r * rest + x,
            rest == r * z + y,
    ;
}

/// Three coordinates of the cube belong to one index of the cube.
pub proof fn lemma_raster_index(radius: int, pos: ChunkPos)
    requires
        0 <= radius <= 644,
        cube(radius).contains(pos),
    ensures
        ({
            let r = cube_side(radius);
            let index = (pos.x + radius) + r * ((pos.y + radius) + r * (pos.z + radius));
            &&& 0 <= index < cube_volume(radius)
            &&& raster_offset(radius, index) == pos
        }),
{
    let r = cube_side(radius);
    lemma_cube_volume(radius);
    let x = pos.x + radius;
    let y = pos.y + radius;
    let z = pos.z + radius;
    let rest = y + r * z;
    let index = x + r * rest;
    assert(0 <= rest < r * r && rest == z * r + y) by (nonlinear_arith)
        requires
            rest == y + r * z,
            0 <= y < r,
            0 <= z < r,
    ;
    assert(0 <= index < r * r * r && index == rest * r + x) by (nonlinear_arith)
        requires
            index == x + r * rest,
            0 <= x < r,
            0 <= rest < r * r,
    ;
    lemma_fundamental_div_mod_converse(index, r, rest, x);
    lemma_fundamental_div_mod_converse(rest, r, z, y);
    lemma_div_denominator(index, r, r);
}

/// The raster order visits every offset of the cube once.
pub proof fn lemma_raster(radius: int)
    requires
        0 <= radius <= 644,
    ensures
        raster(radius).len() == cube_volume(radius),
        raster(radius).no_duplicates(),
        raster(radius).to_set() == cube(radius),
{
    let offsets = raster(radius);
    lemma_cube_volume(radius);
    assert forall|i: int, j: int|
        0 <= i < offsets.len() && 0 <= j < offsets.len() && i != j implies offsets[i]
        != offsets[j] by {
        lemma_raster_coordinates(radius, i);
        lemma_raster_coordinates(radius, j);
    }
    assert forall|pos: ChunkPos| offsets.to_set().contains(pos) <==> cube(radius).contains(pos) by {
        if offsets.contains(pos) {
            let i = choose|i: int| 0 <= i < offsets.len() && offsets[i] == pos;
            lemma_raster_coordinates(radius, i);
        }
        if cube(radius).contains(pos) {
            lemma_raster_index(radius, pos);
            let r = cube_side(radius);
            let index = (pos.x + radius) + r * ((pos.y + radius) + r * (pos.z + radius));
            assert(offsets[index] == pos);
        }
    }
    assert(offsets.to_set() =~= cube(radius));
}

/// The squared distance from the origin of an offset of the cube fits the
/// machine integers.
pub proof fn lemma_offset_distance(radius: int, pos: ChunkPos, center: ChunkPos)
    requires
        0 <= radius <= 1000,
        cube(radius).contains(pos),
    ensures
        pos.spec_distance_squared(origin()) <= 3_000_000,
        center.can_plus(pos) ==> center.spec_plus(pos).spec_distance_squared(center) <= 3_000_000,
{
    let (x, y, z) = (pos.x as int, pos.y as int, pos.z as int);
    assert(x * x <= 1_000_000 && y * y <= 1_000_000 && z * z <= 1_000_000) by (nonlinear_arith)
        requires
            -1000 <= x <= 1000,
            -1000 <= y <= 1000,
            -1000 <= z <= 1000,
    ;
}

/// Two queues that hold the same positions as often hold the same set of
/// positions, and the one holds each once if the other does.
pub proof fn lemma_same_positions(before: Seq<ChunkPos>, after: Seq<ChunkPos>)
    requires
        after.to_multiset() == before.to_multiset(),
    ensures
        after.to_set() == before.to_set(),
        before.no_duplicates() ==> after.no_duplicates(),
{
    broadcast use vstd::seq_lib::group_to_multiset_ensures;

    assert forall|pos: ChunkPos| after.to_set().contains(pos) <==> before.to_set().contains(pos) by {
        assert(after.contains(pos) <==> after.to_multiset().count(pos) > 0);
        assert(before.contains(pos) <==> before.to_multiset().count(pos) > 0);
    }
    assert(after.to_set() =~= before.to_set());
    if before.no_duplicates() {
        before.lemma_multiset_has_no_duplicates();
        after.lemma_multiset_has_no_duplicates_conv();
    }
}

} // verus!
