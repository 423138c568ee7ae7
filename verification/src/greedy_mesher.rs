//! Greedy meshing: merging the exposed faces of a chunk into as few
//! rectangles as a single scan finds.

use vstd::prelude::*;
use vstd::std_specs::bits::{
    axiom_u32_trailing_ones,
    axiom_u32_trailing_zeros,
    u32_trailing_ones,
    u32_trailing_zeros,
};
use crate::bits::{
    bit32,
    bit64,
    lemma_ascending_mask,
    lemma_clear_lowest_bit,
    lemma_descending_mask,
    lemma_key_parts,
    lemma_lowest_bit,
    lemma_nine_bits,
    lemma_set_bit32,
    lemma_set_bit64,
    lemma_strip_padding,
    lemma_same_bits32,
    lemma_word_of,
    lemma_zero32,
    lemma_zero64,
    word_of,
};
use crate::chunk_from_middle::{in_block, ChunksFromMiddle};
use crate::chunk_mesh::{generate_indices, spec_generate_indices, ChunkMesh, FaceDir, GreedyQuad};
use crate::lod::Lod;
use crate::vertex::VertexU32;
use crate::voxel::VoxelType;
use crate::mesh_model::{
    ao_samples,
    axis_normal,
    bucket_vertices,
    face_ao,
    face_dir_of,
    face_key,
    is_face,
    mesh_vertices,
    plane_bit,
    plane_of,
    plane_row,
    plane_voxel,
    quads_vertices,
    solid,
    stepped,
    vertices_upto,
};
use crate::positions::{IVec2, IVec3, VoxelPos};

verus! {

/// The place of the lowest set bit of `bits` at or above `y`; 32 or more
/// where there is none.
pub open spec fn run_start(bits: u32, y: u32) -> u32 {
    (y + u32_trailing_zeros(bits >> y)) as u32
}

/// The number of set bits in a row from `start` upwards.
pub open spec fn run_height(bits: u32, start: u32) -> u32 {
    u32_trailing_ones(bits >> start)
}

/// A word whose lowest `height` bits are set.
pub open spec fn low_ones(height: u32) -> u32 {
    if height >= 32 {
        0xffff_ffffu32
    } else {
        ((1u32 << height) - 1) as u32
    }
}

/// A word whose bits `start .. start + height` are set.
pub open spec fn run_mask(start: u32, height: u32) -> u32 {
    low_ones(height) << start
}

/// Whether the bits `start .. start + height` of `bits` are all set.
pub open spec fn has_run(bits: u32, start: u32, height: u32) -> bool {
    (bits >> start) & low_ones(height) == low_ones(height)
}

/// How far a run that begins in `row` spreads: the number of rows from `row`
/// on, of which `width` are known, that all hold the run. Rows from
/// `lod_size` on are never merged into.
pub open spec fn run_width(
    data: Seq<u32>,
    row: int,
    start: u32,
    height: u32,
    lod_size: int,
    width: int,
) -> int
    decreases lod_size - (row + width),
{
    if row + width < lod_size && has_run(data[row + width], start, height) {
        run_width(data, row, start, height, lod_size, width + 1)
    } else {
        width
    }
}

/// The plane after a rectangle has been taken out: the rows it was merged
/// into lose the run, the row it begins in keeps it.
pub open spec fn consume(data: Seq<u32>, row: int, width: int, mask: u32) -> Seq<u32> {
    Seq::new(
        data.len(),
        |r: int|
            if row < r < row + width {
                data[r] & !mask
            } else {
                data[r]
            },
    )
}

/// The rectangles that begin in `row` at or above `y`, lowest first, and the
/// plane that is left when they have been taken out.
pub open spec fn scan_row(data: Seq<u32>, row: int, y: u32, lod_size: int) -> (
    Seq<GreedyQuad>,
    Seq<u32>,
)
    decreases 32 - y,
{
    if y >= lod_size || lod_size > 32 {
        (Seq::empty(), data)
    } else {
        let start = run_start(data[row], y);
        if start >= lod_size {
            (Seq::empty(), data)
        } else {
            let height = run_height(data[row], start);
            let width = run_width(data, row, start, height, lod_size, 1);
            let quad = GreedyQuad {
                x: row as usize,
                y: start as usize,
                w: width as usize,
                h: height as usize,
            };
            proof {
                lemma_run(data[row], y);
            }
            let rest = scan_row(
                consume(data, row, width, run_mask(start, height)),
                row,
                (start + height) as u32,
                lod_size,
            );
            (seq![quad] + rest.0, rest.1)
        }
    }
}

/// The rectangles of a plane from `row` on, row by row.
pub open spec fn scan_plane(data: Seq<u32>, row: int, lod_size: int) -> Seq<GreedyQuad>
    decreases 32 - row,
{
    if row >= 32 {
        Seq::empty()
    } else {
        let found = scan_row(data, row, 0, lod_size);
        found.0 + scan_plane(found.1, row + 1, lod_size)
    }
}

/// A run that begins below bit 32 begins at a set bit, is at least one bit
/// high and ends at bit 32 or below.
pub proof fn lemma_run(bits: u32, y: u32)
    requires
        y < 32,
    ensures
        y <= run_start(bits, y) <= 64,
        run_start(bits, y) < 32 ==> {
            &&& (bits >> run_start(bits, y)) & 1 == 1
            &&& 1 <= run_height(bits, run_start(bits, y))
            &&& run_start(bits, y) + run_height(bits, run_start(bits, y)) <= 32
        },
{
    let shifted = bits >> y;
    let zeros = u32_trailing_zeros(shifted);
    axiom_u32_trailing_zeros(shifted);
    let start = run_start(bits, y);
    if start < 32 {
        assert((bits >> start) & 1 == 1) by (bit_vector)
            requires
                y < 32,
                zeros < 32,
                start == y + zeros,
                start < 32,
                shifted == bits >> y,
                (shifted >> zeros) & 1u32 == 1u32,
        ;
        let run = bits >> start;
        let ones = u32_trailing_ones(run);
        axiom_u32_trailing_ones(run);
        if ones == 0 {
            assert((run >> 0u32) & 1u32 == run & 1) by (bit_vector);
        }
        if start + ones > 32 {
            let j: u32 = (32 - start) as u32;
            assert((run >> j) & 1u32 == 1u32);
            assert((run >> j) & 1u32 == 0u32) by (bit_vector)
                requires
                    run == bits >> start,
                    0 < start < 32,
                    j == 32 - start,
            ;
        }
    }
}

/// Splits every row of a plane of faces into runs of set bits and merges
/// each run with the same run in the rows that follow, as far as it goes.
/// Each rectangle is one quad; the bits it takes from the rows that follow
/// are cleared, so that no face is covered twice.
pub fn greedy_mesh_binary_plane(data: [u32; 32], lod_size: usize) -> (quads: Vec<GreedyQuad>)
    requires
        lod_size <= 32,
    ensures
        quads@ == scan_plane(data@, 0, lod_size as int),
        quads@.len() <= 1024,
        forall|i: int|
            0 <= i < quads@.len() ==> {
                &&& (#[trigger] quads@[i]).x < 32
                &&& quads@[i].y < 32
                &&& 1 <= quads@[i].w <= 32
                &&& 1 <= quads@[i].h <= 32
            },
{
    let ghost whole = scan_plane(data@, 0, lod_size as int);
    let mut data = data;
    let mut greedy_quads: Vec<GreedyQuad> = Vec::new();

    let mut row: usize = 0;
    while row < 32
        invariant
            row <= 32,
            lod_size <= 32,
            greedy_quads@ + scan_plane(data@, row as int, lod_size as int) == whole,
            greedy_quads@.len() <= row * 32,
            forall|i: int|
                0 <= i < greedy_quads@.len() ==> {
                    &&& (#[trigger] greedy_quads@[i]).x < 32
                    &&& greedy_quads@[i].y < 32
                    &&& 1 <= greedy_quads@[i].w <= 32
                    &&& 1 <= greedy_quads@[i].h <= 32
                },
        decreases 32 - row,
    {
        let mut y: u32 = 0;

        while (y as usize) < lod_size
            invariant
                row < 32,
                lod_size <= 32,
                y <= 64,
                greedy_quads@.len() <= row * 32 + y,
                greedy_quads@.len() <= row * 32 + 32,
                forall|i: int|
                    0 <= i < greedy_quads@.len() ==> {
                        &&& (#[trigger] greedy_quads@[i]).x < 32
                        &&& greedy_quads@[i].y < 32
                        &&& 1 <= greedy_quads@[i].w <= 32
                        &&& 1 <= greedy_quads@[i].h <= 32
                    },
                greedy_quads@ + scan_row(data@, row as int, y, lod_size as int).0 + scan_plane(
                    scan_row(data@, row as int, y, lod_size as int).1,
                    row + 1,
                    lod_size as int,
                ) == whole,
            decreases 64 - y,
        {
            let ghost y_before = y;
            let ghost data_before = data@;
            proof {
                lemma_run(data[row as int], y);
            }
            // Find the first solid block
            y += (data[row] >> y).trailing_zeros();
            if y as usize >= lod_size {
                // Reached the top of the data
                continue;
            }
            let height: u32 = (data[row] >> y).trailing_ones();

            // Convert height into (height)-many 1 bits
            let height_as_mask: u32 = if height >= 32 {
                !0u32
            } else {
                assert((1u32 << height) >= 1) by (bit_vector)
                    requires
                        height < 32,
                ;
                (1u32 << height) - 1
            };
            assert(!0u32 == 0xffff_ffffu32) by (bit_vector);
            let mask: u32 = height_as_mask << y;

            // Grow horizontally
            let mut width: usize = 1;
            while row + width < lod_size
                invariant_except_break
                    run_width(data_before, row as int, y, height, lod_size as int, width as int)
                        == run_width(data_before, row as int, y, height, lod_size as int, 1),
                invariant
                    row < 32,
                    lod_size <= 32,
                    y < 32,
                    1 <= width,
                    row + width <= 32,
                    height_as_mask == low_ones(height),
                    mask == run_mask(y, height),
                    data_before.len() == 32,
                    data@ == consume(data_before, row as int, width as int, mask),
                ensures
                    width == run_width(data_before, row as int, y, height, lod_size as int, 1),
                decreases 32 - width,
            {
                // Fetch the bits which span height
                let next_row_h: u32 = (data[row + width] >> y) & height_as_mask;

                if next_row_h != height_as_mask {
                    // Can't expand horizontally any more
                    break;
                }
                // Get rid of the bits which have been expanded into

                data[row + width] = data[row + width] & !mask;
                assert(data@ =~= consume(data_before, row as int, width + 1, mask));

                width += 1;
            }

            greedy_quads.push(GreedyQuad::new(row, y as usize, width, height as usize));

            y += height;
            proof {
                let found = scan_row(data_before, row as int, y_before, lod_size as int);
                let rest = scan_row(data@, row as int, y, lod_size as int);
                assert(found.0 == seq![greedy_quads@.last()] + rest.0);
                assert(found.1 == rest.1);
                assert(greedy_quads@.drop_last() + found.0 =~= greedy_quads@ + rest.0);
            }
        }

        row += 1;
    }

    assert(scan_plane(data@, 32, lod_size as int) =~= Seq::empty());
    assert(greedy_quads@ + Seq::<GreedyQuad>::empty() =~= greedy_quads@);
    greedy_quads
}

/// The place of a column of solid bits: the columns of the y axis come
/// first, then those of the x axis, then those of the z axis, each a square
/// of 34 by 34 columns.
pub open spec fn column_index(a: int, i: int, j: int) -> int {
    (a * 34 + i) * 34 + j
}

/// Whether a cell of the padded chunk, which reaches one voxel beyond the
/// chunk on every side, is solid.
pub open spec fn padded_solid(chunks: &ChunksFromMiddle, x: int, y: int, z: int) -> bool {
    solid(chunks, IVec3 { x: (x - 1) as i32, y: (y - 1) as i32, z: (z - 1) as i32 })
}

/// Whether a position lies in the padded chunk.
pub open spec fn in_padded(x: int, y: int, z: int) -> bool {
    0 <= x < 34 && 0 <= y < 34 && 0 <= z < 34
}

/// The bit that stands for a cell of the padded chunk in the columns of one
/// axis: the columns of the y axis are found by z and x, those of the x axis
/// by y and z, those of the z axis by y and x.
pub open spec fn cell_bit(cols: Seq<u64>, a: int, x: int, y: int, z: int) -> bool {
    if a == 0 {
        bit64(cols[column_index(0, z, x)], y)
    } else if a == 1 {
        bit64(cols[column_index(1, y, z)], x)
    } else {
        bit64(cols[column_index(2, y, x)], z)
    }
}

/// No bit is set but for a solid cell of the padded chunk.
pub open spec fn columns_sound(chunks: &ChunksFromMiddle, cols: Seq<u64>) -> bool {
    &&& cols.len() == 3468
    &&& forall|a: int, x: int, y: int, z: int|
        0 <= a < 3 && in_padded(x, y, z) && #[trigger] cell_bit(cols, a, x, y, z) ==> padded_solid(
            chunks,
            x,
            y,
            z,
        )
    &&& forall|n: int, k: int| 0 <= n < 3468 && #[trigger] bit64(cols[n], k) ==> k < 34
}

/// Marks a cell of the padded chunk as solid in the columns of all three axes.
fn add_voxel_to_axis_cols(is_solid: bool, x: usize, y: usize, z: usize, axis_cols: &mut Vec<u64>)
    requires
        x < 34,
        y < 34,
        z < 34,
        old(axis_cols)@.len() == 3468,
    ensures
        final(axis_cols)@.len() == 3468,
        forall|a: int, cx: int, cy: int, cz: int|
            0 <= a < 3 && in_padded(cx, cy, cz) ==> #[trigger] cell_bit(
                final(axis_cols)@,
                a,
                cx,
                cy,
                cz,
            ) == (cell_bit(old(axis_cols)@, a, cx, cy, cz) || (is_solid && cx == x && cy == y && cz
                == z)),
        forall|n: int, k: int|
            0 <= n < 3468 && #[trigger] bit64(final(axis_cols)@[n], k) ==> bit64(
                old(axis_cols)@[n],
                k,
            ) || k < 34,
{
    if is_solid {
        let ghost before = axis_cols@;
        // x,z --- y axis
        let by_y: usize = z * 34 + x;
        // y,z --- x axis
        let by_x: usize = (34 + y) * 34 + z;
        // x,y --- z axis
        let by_z: usize = (68 + y) * 34 + x;
        let word_y: u64 = axis_cols[by_y];
        axis_cols[by_y] = word_y | (1u64 << (y as u64));
        let word_x: u64 = axis_cols[by_x];
        axis_cols[by_x] = word_x | (1u64 << (x as u64));
        let word_z: u64 = axis_cols[by_z];
        axis_cols[by_z] = word_z | (1u64 << (z as u64));
        proof {
            assert forall|a: int, cx: int, cy: int, cz: int|
                0 <= a < 3 && in_padded(cx, cy, cz) implies #[trigger] cell_bit(
                axis_cols@,
                a,
                cx,
                cy,
                cz,
            ) == (cell_bit(before, a, cx, cy, cz) || (cx == x && cy == y && cz == z)) by {
                if a == 0 {
                    lemma_set_bit64(word_y, y as u64, cy);
                } else if a == 1 {
                    lemma_set_bit64(word_x, x as u64, cx);
                } else {
                    lemma_set_bit64(word_z, z as u64, cz);
                }
            }
            assert forall|n: int, k: int| 0 <= n < 3468 && #[trigger] bit64(axis_cols@[n], k) implies bit64(
                before[n],
                k,
            ) || k < 34 by {
                if n == by_y {
                    lemma_set_bit64(word_y, y as u64, k);
                } else if n == by_x {
                    lemma_set_bit64(word_x, x as u64, k);
                } else if n == by_z {
                    lemma_set_bit64(word_z, z as u64, k);
                }
            }
        }
    }
}

/// Whether a cell of the padded chunk has been looked at when the voxels
/// inside the chunk have been visited up to `inner`, and the cells of the
/// two slabs across each axis up to `slab_z`, `slab_y` and `slab_x`.
pub open spec fn visited(
    x: int,
    y: int,
    z: int,
    inner: int,
    slab_z: int,
    slab_y: int,
    slab_x: int,
) -> bool {
    ||| (1 <= x < 33 && 1 <= y < 33 && 1 <= z < 33 && ((z - 1) * 32 + (y - 1)) * 32 + (x - 1)
        < inner)
    ||| ((z == 0 || z == 33) && y * 34 + x < slab_z)
    ||| ((y == 0 || y == 33) && z * 34 + x < slab_y)
    ||| ((x == 0 || x == 33) && z * 34 + y < slab_x)
}

/// The columns hold every solid cell that has been looked at.
pub open spec fn columns_cover(
    chunks: &ChunksFromMiddle,
    cols: Seq<u64>,
    inner: int,
    slab_z: int,
    slab_y: int,
    slab_x: int,
) -> bool {
    forall|a: int, x: int, y: int, z: int|
        0 <= a < 3 && in_padded(x, y, z) && visited(x, y, z, inner, slab_z, slab_y, slab_x)
            && padded_solid(chunks, x, y, z) ==> #[trigger] cell_bit(cols, a, x, y, z)
}

/// The columns hold the solid cells of the padded chunk and nothing else.
pub open spec fn columns_of(chunks: &ChunksFromMiddle, cols: Seq<u64>) -> bool {
    &&& cols.len() == 3468
    &&& forall|a: int, x: int, y: int, z: int|
        0 <= a < 3 && in_padded(x, y, z) ==> #[trigger] cell_bit(cols, a, x, y, z) == padded_solid(
            chunks,
            x,
            y,
            z,
        )
    &&& forall|n: int, k: int| 0 <= n < 3468 && #[trigger] bit64(cols[n], k) ==> k < 34
}

/// Looks at a cell of the padded chunk through the neighbour accessor and
/// marks it where it is solid.
fn mark_cell(chunks: &ChunksFromMiddle, x: usize, y: usize, z: usize, axis_cols: &mut Vec<u64>)
    requires
        x < 34,
        y < 34,
        z < 34,
        columns_sound(chunks, old(axis_cols)@),
    ensures
        columns_sound(chunks, final(axis_cols)@),
        forall|a: int, cx: int, cy: int, cz: int|
            0 <= a < 3 && in_padded(cx, cy, cz) ==> #[trigger] cell_bit(
                final(axis_cols)@,
                a,
                cx,
                cy,
                cz,
            ) == (cell_bit(old(axis_cols)@, a, cx, cy, cz) || (padded_solid(chunks, cx, cy, cz)
                && cx == x && cy == y && cz == z)),
{
    let voxel_pos = IVec3::new(x as i32 - 1, y as i32 - 1, z as i32 - 1);
    let voxel = chunks.get_voxel(voxel_pos);
    add_voxel_to_axis_cols(voxel.voxel_type.is_solid(), x, y, z, axis_cols);
}

/// Looks at a voxel of the middle chunk and marks its cell where it is solid.
fn mark_inner_cell(chunks: &ChunksFromMiddle, voxel_pos: VoxelPos, axis_cols: &mut Vec<u64>)
    requires
        voxel_pos.in_chunk(),
        columns_sound(chunks, old(axis_cols)@),
    ensures
        columns_sound(chunks, final(axis_cols)@),
        forall|a: int, cx: int, cy: int, cz: int|
            0 <= a < 3 && in_padded(cx, cy, cz) ==> #[trigger] cell_bit(
                final(axis_cols)@,
                a,
                cx,
                cy,
                cz,
            ) == (cell_bit(old(axis_cols)@, a, cx, cy, cz) || (padded_solid(chunks, cx, cy, cz)
                && cx == voxel_pos.x + 1 && cy == voxel_pos.y + 1 && cz == voxel_pos.z + 1)),
{
    let voxel = chunks.get_voxel_no_neighbour(voxel_pos);
    proof {
        let at = IVec3 { x: voxel_pos.x as i32, y: voxel_pos.y as i32, z: voxel_pos.z as i32 };
        assert(crate::chunk_from_middle::block_index(at) == 13);
        assert(crate::chunk_from_middle::block_voxel_pos(at) == voxel_pos);
        assert(*voxel == chunks.spec_get_voxel(at));
    }
    add_voxel_to_axis_cols(
        voxel.voxel_type.is_solid(),
        voxel_pos.x + 1,
        voxel_pos.y + 1,
        voxel_pos.z + 1,
        axis_cols,
    );
}

/// The solid cells of the padded chunk as columns of bits, for each of the
/// three axes one column for every line of cells along the axis.
fn solid_columns(chunks: &ChunksFromMiddle) -> (axis_cols: Vec<u64>)
    ensures
        columns_of(chunks, axis_cols@),
{
    let mut axis_cols: Vec<u64> = Vec::new();
    let mut n: usize = 0;
    while n < 3468
        invariant
            n <= 3468,
            axis_cols@.len() == n,
            forall|i: int| 0 <= i < n ==> axis_cols@[i] == 0,
        decreases 3468 - n,
    {
        axis_cols.push(0u64);
        n += 1;
    }
    proof {
        assert forall|i: int, k: int| 0 <= i < 3468 implies !#[trigger] bit64(axis_cols@[i], k) by {
            lemma_zero64(k);
        }
    }

    // Inner chunk voxels
    let mut index: usize = 0;
    while index < 32768
        invariant
            index <= 32768,
            columns_sound(chunks, axis_cols@),
            columns_cover(chunks, axis_cols@, index as int, 0, 0, 0),
        decreases 32768 - index,
    {
        let voxel_pos = VoxelPos::from_index(index);
        let ghost before = axis_cols@;
        mark_inner_cell(chunks, voxel_pos, &mut axis_cols);
        proof {
            VoxelPos::lemma_position_round_trip(index as int);
            assert forall|a: int, x: int, y: int, z: int|
                0 <= a < 3 && in_padded(x, y, z) && visited(x, y, z, index + 1, 0, 0, 0)
                    && padded_solid(chunks, x, y, z) implies #[trigger] cell_bit(
                axis_cols@,
                a,
                x,
                y,
                z,
            ) by {
                if visited(x, y, z, index as int, 0, 0, 0) {
                    assert(cell_bit(before, a, x, y, z));
                } else {
                    assert(((z - 1) * 32 + (y - 1)) * 32 + (x - 1) == index);
                    let at = VoxelPos { x: (x - 1) as usize, y: (y - 1) as usize, z: (z - 1) as usize };
                    VoxelPos::lemma_index_round_trip(at);
                    assert(at.spec_to_index() == index);
                    assert(at == voxel_pos);
                }
            }
        }
        index += 1;
    }

    // Neighbour chunk voxels
    let mut n: usize = 0;
    while n < 1156
        invariant
            n <= 1156,
            columns_sound(chunks, axis_cols@),
            columns_cover(chunks, axis_cols@, 32768, n as int, 0, 0),
        decreases 1156 - n,
    {
        let x = n % 34;
        let y = n / 34;
        let ghost before = axis_cols@;
        mark_cell(chunks, x, y, 0, &mut axis_cols);
        let ghost between = axis_cols@;
        mark_cell(chunks, x, y, 33, &mut axis_cols);
        proof {
            assert forall|a: int, cx: int, cy: int, cz: int|
                0 <= a < 3 && in_padded(cx, cy, cz) && visited(cx, cy, cz, 32768, n + 1, 0, 0)
                    && padded_solid(chunks, cx, cy, cz) implies #[trigger] cell_bit(
                axis_cols@,
                a,
                cx,
                cy,
                cz,
            ) by {
                assert(cell_bit(axis_cols@, a, cx, cy, cz) == (cell_bit(between, a, cx, cy, cz) || (
                padded_solid(chunks, cx, cy, cz) && cx == x && cy == y && cz == 33)));
                assert(cell_bit(between, a, cx, cy, cz) == (cell_bit(before, a, cx, cy, cz) || (
                padded_solid(chunks, cx, cy, cz) && cx == x && cy == y && cz == 0)));
                if visited(cx, cy, cz, 32768, n as int, 0, 0) {
                    assert(cell_bit(before, a, cx, cy, cz));
                }
            }
        }
        n += 1;
    }
    let mut n: usize = 0;
    while n < 1156
        invariant
            n <= 1156,
            columns_sound(chunks, axis_cols@),
            columns_cover(chunks, axis_cols@, 32768, 1156, n as int, 0),
        decreases 1156 - n,
    {
        let x = n % 34;
        let z = n / 34;
        let ghost before = axis_cols@;
        mark_cell(chunks, x, 0, z, &mut axis_cols);
        let ghost between = axis_cols@;
        mark_cell(chunks, x, 33, z, &mut axis_cols);
        proof {
            assert forall|a: int, cx: int, cy: int, cz: int|
                0 <= a < 3 && in_padded(cx, cy, cz) && visited(cx, cy, cz, 32768, 1156, n + 1, 0)
                    && padded_solid(chunks, cx, cy, cz) implies #[trigger] cell_bit(
                axis_cols@,
                a,
                cx,
                cy,
                cz,
            ) by {
                assert(cell_bit(axis_cols@, a, cx, cy, cz) == (cell_bit(between, a, cx, cy, cz) || (
                padded_solid(chunks, cx, cy, cz) && cx == x && cy == 33 && cz == z)));
                assert(cell_bit(between, a, cx, cy, cz) == (cell_bit(before, a, cx, cy, cz) || (
                padded_solid(chunks, cx, cy, cz) && cx == x && cy == 0 && cz == z)));
                if visited(cx, cy, cz, 32768, 1156, n as int, 0) {
                    assert(cell_bit(before, a, cx, cy, cz));
                }
            }
        }
        n += 1;
    }
    let mut n: usize = 0;
    while n < 1156
        invariant
            n <= 1156,
            columns_sound(chunks, axis_cols@),
            columns_cover(chunks, axis_cols@, 32768, 1156, 1156, n as int),
        decreases 1156 - n,
    {
        let y = n % 34;
        let z = n / 34;
        let ghost before = axis_cols@;
        mark_cell(chunks, 0, y, z, &mut axis_cols);
        let ghost between = axis_cols@;
        mark_cell(chunks, 33, y, z, &mut axis_cols);
        proof {
            assert forall|a: int, cx: int, cy: int, cz: int|
                0 <= a < 3 && in_padded(cx, cy, cz) && visited(cx, cy, cz, 32768, 1156, 1156, n + 1)
                    && padded_solid(chunks, cx, cy, cz) implies #[trigger] cell_bit(
                axis_cols@,
                a,
                cx,
                cy,
                cz,
            ) by {
                assert(cell_bit(axis_cols@, a, cx, cy, cz) == (cell_bit(between, a, cx, cy, cz) || (
                padded_solid(chunks, cx, cy, cz) && cx == 33 && cy == y && cz == z)));
                assert(cell_bit(between, a, cx, cy, cz) == (cell_bit(before, a, cx, cy, cz) || (
                padded_solid(chunks, cx, cy, cz) && cx == 0 && cy == y && cz == z)));
                if visited(cx, cy, cz, 32768, 1156, 1156, n as int) {
                    assert(cell_bit(before, a, cx, cy, cz));
                }
            }
        }
        n += 1;
    }

    proof {
        assert forall|a: int, x: int, y: int, z: int| 0 <= a < 3 && in_padded(x, y, z) implies #[trigger] cell_bit(
            axis_cols@,
            a,
            x,
            y,
            z,
        ) == padded_solid(chunks, x, y, z) by {
            assert(visited(x, y, z, 32768, 1156, 1156, 1156));
        }
    }
    axis_cols
}

/// A row of the plane that is kept for a bucket of faces. A bucket without
/// a plane has no face yet.
pub open spec fn stored_word(slots: Seq<u32>, planes: Seq<u32>, id: int, row: int) -> u32 {
    if slots[id] == 0 {
        0
    } else {
        planes[(slots[id] - 1) * 32 + row]
    }
}

/// A bit of the plane that is kept for a bucket of faces.
pub open spec fn stored_bit(slots: Seq<u32>, planes: Seq<u32>, id: int, row: int, bit: int) -> bool {
    bit32(stored_word(slots, planes, id, row), bit)
}

/// The planes of the buckets of one direction. A bucket is numbered by its
/// key and its place along the axis, and owns the plane that its slot names.
pub open spec fn buckets_wf(slots: Seq<u32>, planes: Seq<u32>) -> bool {
    &&& slots.len() == 32768
    &&& planes.len() % 32 == 0
    &&& planes.len() <= 32768 * 32
    &&& forall|id: int| 0 <= id < 32768 ==> #[trigger] slots[id] * 32 <= planes.len()
    &&& forall|id1: int, id2: int|
        0 <= id1 < 32768 && 0 <= id2 < 32768 && id1 != id2 && #[trigger] slots[id1] != 0
            ==> slots[id1] != #[trigger] slots[id2]
}

/// Sets the bit of a face in the plane of its bucket, which is made if the
/// face is the first of its bucket.
fn add_face(slots: &mut Vec<u32>, planes: &mut Vec<u32>, id: usize, row: usize, bit: u32)
    requires
        buckets_wf(old(slots)@, old(planes)@),
        old(planes)@.len() < 32768 * 32,
        id < 32768,
        row < 32,
        bit < 32,
    ensures
        buckets_wf(final(slots)@, final(planes)@),
        final(planes)@.len() <= old(planes)@.len() + 32,
        forall|i: int, r: int, b: int|
            0 <= i < 32768 && 0 <= r < 32 ==> #[trigger] stored_bit(
                final(slots)@,
                final(planes)@,
                i,
                r,
                b,
            ) == (stored_bit(old(slots)@, old(planes)@, i, r, b) || (i == id && r == row && b
                == bit)),
{
    let ghost slots_before = slots@;
    let ghost planes_before = planes@;
    if slots[id] == 0 {
        let count: usize = planes.len() / 32;
        let mut r: usize = 0;
        while r < 32
            invariant
                r <= 32,
                planes@.len() == planes_before.len() + r,
                forall|i: int| 0 <= i < planes_before.len() ==> planes@[i] == planes_before[i],
                forall|i: int| planes_before.len() <= i < planes@.len() ==> planes@[i] == 0,
            decreases 32 - r,
        {
            planes.push(0u32);
            r += 1;
        }
        slots[id] = (count + 1) as u32;
        proof {
            assert forall|i: int, r: int| 0 <= i < 32768 && 0 <= r < 32 implies #[trigger] stored_word(
                slots@,
                planes@,
                i,
                r,
            ) == stored_word(slots_before, planes_before, i, r) by {
                if i != id && slots_before[i] != 0 {
                    assert(slots_before[i] * 32 <= planes_before.len());
                }
            }
            assert forall|id1: int, id2: int|
                0 <= id1 < 32768 && 0 <= id2 < 32768 && id1 != id2 && #[trigger] slots@[id1] != 0 implies slots@[id1]
                != #[trigger] slots@[id2] by {
                assert(slots_before[id1] * 32 <= planes_before.len());
                assert(slots_before[id2] * 32 <= planes_before.len());
            }
            assert forall|i: int| 0 <= i < 32768 implies #[trigger] slots@[i] * 32 <= planes@.len() by {
                assert(slots_before[i] * 32 <= planes_before.len());
            }
        }
    }
    let ghost slots_between = slots@;
    let ghost planes_between = planes@;
    let slot: usize = slots[id] as usize;
    assert(slots@[id as int] * 32 <= planes@.len());
    let at: usize = (slot - 1) * 32 + row;
    let word: u32 = planes[at];
    planes[at] = word | (1u32 << bit);
    proof {
        assert forall|i: int, r: int, b: int| 0 <= i < 32768 && 0 <= r < 32 implies #[trigger] stored_bit(
            slots@,
            planes@,
            i,
            r,
            b,
        ) == (stored_bit(slots_before, planes_before, i, r, b) || (i == id && r == row && b
            == bit)) by {
            assert(stored_word(slots_between, planes_between, i, r) == stored_word(
                slots_before,
                planes_before,
                i,
                r,
            ));
            if i == id && r == row {
                lemma_set_bit32(word, bit, b);
            } else if slots@[i] != 0 {
                assert(slots@[i] * 32 <= planes@.len());
                if i != id {
                    assert(slots@[id as int] != slots@[i]);
                }
            } else {
                lemma_zero32(b);
            }
        }
        assert forall|i: int| 0 <= i < 32768 implies #[trigger] slots@[i] * 32 <= planes@.len() by {
            assert(slots_between[i] * 32 <= planes_between.len());
        }
    }
}

/// The step, in the plane of a face, to each of the nine voxels that are
/// sampled for occlusion: the face's own column in the middle, its eight
/// neighbours around it.
pub fn adjacent_ao_dir(index: usize) -> (dir: IVec2)
    requires
        index < 9,
    ensures
        dir.x == crate::mesh_model::ao_dir(index as int).0,
        dir.y == crate::mesh_model::ao_dir(index as int).1,
{
    IVec2::new((index / 3) as i32 - 1, (index % 3) as i32 - 1)
}

/// The occlusion around the face of a voxel of the middle chunk.
fn face_occlusion(chunks: &ChunksFromMiddle, axis: usize, voxel_pos: VoxelPos) -> (ao_index: u32)
    requires
        axis < 6,
        voxel_pos.in_chunk(),
    ensures
        ao_index == face_ao(
            chunks,
            axis as int,
            IVec3 { x: voxel_pos.x as i32, y: voxel_pos.y as i32, z: voxel_pos.z as i32 },
        ),
        ao_index < 512,
{
    let ghost at = IVec3 { x: voxel_pos.x as i32, y: voxel_pos.y as i32, z: voxel_pos.z as i32 };
    let ghost samples = ao_samples(chunks, axis as int, at);
    let mut ao_index: u32 = 0;
    let mut ao_i: usize = 0;
    while ao_i < 9
        invariant
            ao_i <= 9,
            axis < 6,
            voxel_pos.in_chunk(),
            at == (IVec3 { x: voxel_pos.x as i32, y: voxel_pos.y as i32, z: voxel_pos.z as i32 }),
            samples == ao_samples(chunks, axis as int, at),
            ao_index == word_of(samples, ao_i as int),
        decreases 9 - ao_i,
    {
        let ao_offset = adjacent_ao_dir(ao_i);
        // AO is sampled based on axis (ascent or descent)
        let ao_sample_offset = if axis == 0 {
            IVec3::new(ao_offset.x, -1, ao_offset.y)
        } else if axis == 1 {
            IVec3::new(ao_offset.x, 1, ao_offset.y)
        } else if axis == 2 {
            IVec3::new(-1, ao_offset.y, ao_offset.x)
        } else if axis == 3 {
            IVec3::new(1, ao_offset.y, ao_offset.x)
        } else if axis == 4 {
            IVec3::new(ao_offset.x, ao_offset.y, -1)
        } else {
            IVec3::new(ao_offset.x, ao_offset.y, 1)
        };
        assert(ao_sample_offset == crate::mesh_model::ao_sample_offset(axis as int, ao_i as int));

        let ao_voxel_pos = voxel_pos.to_ivec3() + ao_sample_offset;
        assert(ao_voxel_pos == stepped(at, ao_sample_offset));
        let ao_voxel = chunks.get_voxel(ao_voxel_pos);

        if ao_voxel.voxel_type.is_solid() {
            ao_index = ao_index | (1u32 << (ao_i as u32));
        }
        assert(samples(ao_i as int) == ao_voxel.voxel_type.spec_is_solid());
        ao_i += 1;
    }
    proof {
        lemma_nine_bits(samples);
    }
    ao_index
}

/// The faces of one line of voxels along an axis, as they are read off the
/// column of solid bits of that line: bit `k` is the face of the `k`th voxel.
pub open spec fn column_faces(solid_col: u64, axis: int) -> u64 {
    if axis % 2 == 0 {
        ((solid_col & !(solid_col << 1u64)) >> 1u64) & !(1u64 << 32u64)
    } else {
        ((solid_col & !(solid_col >> 1u64)) >> 1u64) & !(1u64 << 32u64)
    }
}

/// A bit of the faces of a line of voxels is set where the voxel shows a
/// face in the direction, and nowhere beyond the chunk.
proof fn lemma_column_faces(
    chunks: &ChunksFromMiddle,
    cols: Seq<u64>,
    axis: int,
    row: int,
    bit: int,
    k: int,
)
    requires
        columns_of(chunks, cols),
        0 <= axis < 6,
        0 <= row < 32,
        0 <= bit < 32,
        0 <= k,
    ensures
        bit64(column_faces(cols[column_index(axis / 2, bit + 1, row + 1)], axis), k) == (k < 32
            && is_face(chunks, axis, plane_voxel(axis, row, k, bit))),
{
    let a = axis / 2;
    let solid_col = cols[column_index(a, bit + 1, row + 1)];
    let faces = if axis % 2 == 0 {
        solid_col & !(solid_col << 1u64)
    } else {
        solid_col & !(solid_col >> 1u64)
    };
    lemma_strip_padding(faces, k);
    lemma_descending_mask(solid_col, k + 1);
    lemma_ascending_mask(solid_col, k + 1);
    let i = bit + 1;
    let j = row + 1;
    if k < 33 {
        // The cells of the column at the voxel, below it and above it
        if a == 0 {
            assert(bit64(solid_col, k) == cell_bit(cols, 0, j, k, i));
            assert(bit64(solid_col, k + 1) == cell_bit(cols, 0, j, k + 1, i));
            if k < 32 {
                assert(bit64(solid_col, k + 2) == cell_bit(cols, 0, j, k + 2, i));
            }
        } else if a == 1 {
            assert(bit64(solid_col, k) == cell_bit(cols, 1, k, i, j));
            assert(bit64(solid_col, k + 1) == cell_bit(cols, 1, k + 1, i, j));
            if k < 32 {
                assert(bit64(solid_col, k + 2) == cell_bit(cols, 1, k + 2, i, j));
            }
        } else {
            assert(bit64(solid_col, k) == cell_bit(cols, 2, j, i, k));
            assert(bit64(solid_col, k + 1) == cell_bit(cols, 2, j, i, k + 1));
            if k < 32 {
                assert(bit64(solid_col, k + 2) == cell_bit(cols, 2, j, i, k + 2));
            }
        }
    } else {
        if bit64(solid_col, k + 1) {
            assert(k + 1 < 34);
        }
    }
}

/// Whether the face at a place of a plane has been sorted into its bucket
/// when the lines of voxels have been gone through up to line `n`, and line
/// `n` itself up to voxel `low`.
pub open spec fn face_done(n: int, low: int, row: int, pos: int, bit: int) -> bool {
    bit * 32 + row < n || (bit * 32 + row == n && pos < low)
}

/// The buckets hold the faces that have been sorted in, and nothing else.
pub open spec fn buckets_hold(
    chunks: &ChunksFromMiddle,
    axis: int,
    slots: Seq<u32>,
    planes: Seq<u32>,
    n: int,
    low: int,
) -> bool {
    forall|i: int, r: int, b: int|
        0 <= i < 32768 && 0 <= r < 32 && 0 <= b < 32 ==> #[trigger] stored_bit(
            slots,
            planes,
            i,
            r,
            b,
        ) == (plane_bit(chunks, axis, (i / 32) as u32, i % 32, r, b) && face_done(
            n,
            low,
            r,
            i % 32,
            b,
        ))
}

/// Takes the lowest face off a column of faces.
fn take_lowest_face(col: u64) -> (taken: (usize, u64))
    requires
        col != 0,
    ensures
        taken.0 < 64,
        bit64(col, taken.0 as int),
        forall|k: int| 0 <= k < taken.0 ==> !bit64(col, k),
        forall|k: int| bit64(taken.1, k) == (bit64(col, k) && k != taken.0),
        taken.1 < col,
{
    proof {
        lemma_lowest_bit(col);
        assert forall|k: int| bit64((col & ((col - 1) as u64)), k) == (bit64(col, k) && k
            != vstd::std_specs::bits::u64_trailing_zeros(col)) by {
            lemma_clear_lowest_bit(col, k);
        }
        assert(col & ((col - 1) as u64) < col) by (bit_vector)
            requires
                col != 0,
        ;
    }
    let y: usize = col.trailing_zeros() as usize;
    // Clear least significant, set, bit
    (y, col & (col - 1))
}

/// Sorts the face of one voxel into the bucket of its key and its place
/// along the axis.
fn sort_face(
    chunks: &ChunksFromMiddle,
    axis: usize,
    x: usize,
    y: usize,
    z: usize,
    slots: &mut Vec<u32>,
    planes: &mut Vec<u32>,
)
    requires
        axis < 6,
        x < 32,
        y < 32,
        z < 32,
        buckets_wf(old(slots)@, old(planes)@),
        old(planes)@.len() < 32768 * 32,
    ensures
        buckets_wf(final(slots)@, final(planes)@),
        final(planes)@.len() <= old(planes)@.len() + 32,
        face_key(chunks, axis as int, plane_voxel(axis as int, x as int, y as int, z as int))
            < 1024,
        forall|i: int, r: int, b: int|
            0 <= i < 32768 && 0 <= r < 32 ==> #[trigger] stored_bit(
                final(slots)@,
                final(planes)@,
                i,
                r,
                b,
            ) == (stored_bit(old(slots)@, old(planes)@, i, r, b) || (i == face_key(
                chunks,
                axis as int,
                plane_voxel(axis as int, x as int, y as int, z as int),
            ) * 32 + y && r == x && b == z)),
{
    // Get the voxel position based on axis
    let voxel_pos: VoxelPos = if axis == 0 || axis == 1 {
        VoxelPos::new(x, y, z)  // Down, Up
    } else if axis == 2 || axis == 3 {
        VoxelPos::new(y, z, x)  // Left, Right
    } else {
        VoxelPos::new(x, z, y)  // Front, Back
    };
    let ghost at = plane_voxel(axis as int, x as int, y as int, z as int);
    assert(at == (IVec3 { x: voxel_pos.x as i32, y: voxel_pos.y as i32, z: voxel_pos.z as i32 }));

    // Calculate ambient occlusion
    let ao_index = face_occlusion(chunks, axis, voxel_pos);

    let current_voxel = chunks.get_voxel_no_neighbour(voxel_pos);
    proof {
        assert(crate::chunk_from_middle::block_index(at) == 13);
        assert(crate::chunk_from_middle::block_voxel_pos(at) == voxel_pos);
        assert(*current_voxel == chunks.spec_get_voxel(at));
    }

    // Can only greedy mesh same voxel types with same AO
    let tag: u32 = u32::from(current_voxel.voxel_type);
    let voxel_hash: u32 = ao_index | (tag << 9u32);
    proof {
        lemma_key_parts(ao_index, tag);
        assert(voxel_hash == face_key(chunks, axis as int, at));
    }
    add_face(slots, planes, voxel_hash as usize * 32 + y, x, z as u32);
}

/// Sorting in the lowest face that is left of a line of voxels keeps the
/// buckets in step with the faces gone through.
proof fn lemma_sorted_in(
    chunks: &ChunksFromMiddle,
    cols: Seq<u64>,
    axis: int,
    n: int,
    low: int,
    y: int,
    slots_before: Seq<u32>,
    planes_before: Seq<u32>,
    slots: Seq<u32>,
    planes: Seq<u32>,
    faces: u64,
)
    requires
        columns_of(chunks, cols),
        0 <= axis < 6,
        0 <= n < 1024,
        0 <= low <= y < 32,
        buckets_hold(chunks, axis, slots_before, planes_before, n, low),
        faces == column_faces(cols[column_index(axis / 2, n / 32 + 1, n % 32 + 1)], axis),
        forall|k: int| low <= k < y ==> !#[trigger] bit64(faces, k),
        bit64(faces, y),
        face_key(chunks, axis, plane_voxel(axis, n % 32, y, n / 32)) < 1024,
        forall|i: int, r: int, b: int|
            0 <= i < 32768 && 0 <= r < 32 ==> #[trigger] stored_bit(slots, planes, i, r, b) == (
            stored_bit(slots_before, planes_before, i, r, b) || (i == face_key(
                chunks,
                axis,
                plane_voxel(axis, n % 32, y, n / 32),
            ) * 32 + y && r == n % 32 && b == n / 32)),
    ensures
        buckets_hold(chunks, axis, slots, planes, n, y + 1),
{
    let x = n % 32;
    let z = n / 32;
    let key = face_key(chunks, axis, plane_voxel(axis, x, y, z));
    let id = key * 32 + y;
    assert forall|i: int, r: int, b: int|
        0 <= i < 32768 && 0 <= r < 32 && 0 <= b < 32 implies #[trigger] stored_bit(
        slots,
        planes,
        i,
        r,
        b,
    ) == (plane_bit(chunks, axis, (i / 32) as u32, i % 32, r, b) && face_done(
        n,
        y + 1,
        r,
        i % 32,
        b,
    )) by {
        let pos = i % 32;
        assert(stored_bit(slots_before, planes_before, i, r, b) == (plane_bit(
            chunks,
            axis,
            (i / 32) as u32,
            pos,
            r,
            b,
        ) && face_done(n, low, r, pos, b)));
        if r == x && b == z {
            lemma_column_faces(chunks, cols, axis, x, z, pos);
            if pos == y {
                assert((i == id) == (i / 32 == key));
            } else {
                assert(i != id);
            }
        } else {
            assert(b * 32 + r != n);
        }
    }
}

/// When no face is left of a line of voxels, the line has been gone through.
proof fn lemma_line_done(
    chunks: &ChunksFromMiddle,
    cols: Seq<u64>,
    axis: int,
    n: int,
    low: int,
    slots: Seq<u32>,
    planes: Seq<u32>,
    faces: u64,
)
    requires
        columns_of(chunks, cols),
        0 <= axis < 6,
        0 <= n < 1024,
        0 <= low <= 32,
        buckets_hold(chunks, axis, slots, planes, n, low),
        faces == column_faces(cols[column_index(axis / 2, n / 32 + 1, n % 32 + 1)], axis),
        forall|k: int| low <= k ==> !#[trigger] bit64(faces, k),
    ensures
        buckets_hold(chunks, axis, slots, planes, n + 1, 0),
{
    let x = n % 32;
    let z = n / 32;
    assert forall|i: int, r: int, b: int|
        0 <= i < 32768 && 0 <= r < 32 && 0 <= b < 32 implies #[trigger] stored_bit(
        slots,
        planes,
        i,
        r,
        b,
    ) == (plane_bit(chunks, axis, (i / 32) as u32, i % 32, r, b) && face_done(
        n + 1,
        0,
        r,
        i % 32,
        b,
    )) by {
        let pos = i % 32;
        assert(stored_bit(slots, planes, i, r, b) == (plane_bit(
            chunks,
            axis,
            (i / 32) as u32,
            pos,
            r,
            b,
        ) && face_done(n, low, r, pos, b)));
        if r == x && b == z {
            lemma_column_faces(chunks, cols, axis, x, z, pos);
        } else {
            assert(b * 32 + r != n);
        }
    }
}

/// Sorts the faces of one direction into buckets by key and by place along
/// the axis, and sets for each face a bit in the plane of its bucket.
fn bucket_faces(chunks: &ChunksFromMiddle, axis_cols: &Vec<u64>, axis: usize) -> (buckets: (
    Vec<u32>,
    Vec<u32>,
))
    requires
        axis < 6,
        columns_of(chunks, axis_cols@),
    ensures
        buckets_wf(buckets.0@, buckets.1@),
        buckets_hold(chunks, axis as int, buckets.0@, buckets.1@, 1024, 0),
{
    let mut slots: Vec<u32> = Vec::new();
    let mut i: usize = 0;
    while i < 32768
        invariant
            i <= 32768,
            slots@.len() == i,
            forall|j: int| 0 <= j < i ==> slots@[j] == 0,
        decreases 32768 - i,
    {
        slots.push(0u32);
        i += 1;
    }
    let mut planes: Vec<u32> = Vec::new();
    proof {
        assert forall|i: int, r: int, b: int|
            0 <= i < 32768 && 0 <= r < 32 && 0 <= b < 32 implies !#[trigger] stored_bit(
            slots@,
            planes@,
            i,
            r,
            b,
        ) by {
            lemma_zero32(b);
        }
    }

    // Find faces and build binary planes based on the voxel+ao
    let mut n: usize = 0;
    while n < 1024
        invariant
            n <= 1024,
            axis < 6,
            columns_of(chunks, axis_cols@),
            buckets_wf(slots@, planes@),
            planes@.len() <= n * 32 * 32,
            buckets_hold(chunks, axis as int, slots@, planes@, n as int, 0),
        decreases 1024 - n,
    {
        let z: usize = n / 32;
        let x: usize = n % 32;
        // Skip the padding by adding 1 to x and 1 to z
        let solid_col: u64 = axis_cols[((axis / 2) * 34 + (z + 1)) * 34 + (x + 1)];
        // Set if current is solid and next is air
        let faces: u64 = if axis % 2 == 0 {
            solid_col & !(solid_col << 1u64)
        } else {
            solid_col & !(solid_col >> 1u64)
        };
        // Remove the padding at either end because it's invalid
        let mut col: u64 = (faces >> 1u64) & !(1u64 << 32u64);
        let ghost col_before = col;
        let ghost mut low: int = 0;
        assert(col_before == column_faces(
            axis_cols@[column_index(axis as int / 2, z + 1, x + 1)],
            axis as int,
        ));

        while col != 0
            invariant
                n < 1024,
                z == n / 32,
                x == n % 32,
                axis < 6,
                0 <= low <= 32,
                columns_of(chunks, axis_cols@),
                col_before == column_faces(
                    axis_cols@[column_index(axis as int / 2, n / 32 + 1, n % 32 + 1)],
                    axis as int,
                ),
                forall|k: int| #[trigger] bit64(col, k) == (bit64(col_before, k) && k >= low),
                buckets_wf(slots@, planes@),
                planes@.len() <= (n * 32 + low) * 32,
                buckets_hold(chunks, axis as int, slots@, planes@, n as int, low),
            decreases col,
        {
            let ghost col_old = col;
            let (y, rest) = take_lowest_face(col);
            col = rest;
            proof {
                lemma_column_faces(chunks, axis_cols@, axis as int, x as int, z as int, y as int);
                assert(bit64(col_old, y as int));
                assert(bit64(col_before, y as int) && y >= low);
                assert(y < 32);
                assert forall|k: int| low <= k < y implies !bit64(col_before, k) by {
                    assert(!bit64(col_old, k));
                }
            }
            let ghost slots_before = slots@;
            let ghost planes_before = planes@;
            sort_face(chunks, axis, x, y, z, &mut slots, &mut planes);
            proof {
                lemma_sorted_in(
                    chunks,
                    axis_cols@,
                    axis as int,
                    n as int,
                    low,
                    y as int,
                    slots_before,
                    planes_before,
                    slots@,
                    planes@,
                    col_before,
                );
                assert forall|k: int| #[trigger] bit64(col, k) == (bit64(col_before, k) && k >= y
                    + 1) by {
                    assert(bit64(col, k) == (bit64(col_old, k) && k != y));
                    assert(bit64(col_old, k) == (bit64(col_before, k) && k >= low));
                    if low <= k < y {
                        assert(!bit64(col_old, k));
                    }
                }
                low = y + 1;
            }
        }
        proof {
            assert forall|k: int| low <= k implies !bit64(col_before, k) by {
                lemma_zero64(k);
                assert(bit64(col, k) == (bit64(col_before, k) && k >= low));
            }
            lemma_line_done(
                chunks,
                axis_cols@,
                axis as int,
                n as int,
                low,
                slots@,
                planes@,
                col_before,
            );
        }
        n += 1;
    }
    (slots, planes)
}

/// A plane without faces is cut into no quad.
pub proof fn lemma_scan_empty_plane(data: Seq<u32>, row: int, lod_size: int)
    requires
        data.len() == 32,
        forall|r: int| 0 <= r < 32 ==> data[r] == 0,
        0 <= row <= 32,
    ensures
        scan_plane(data, row, lod_size) == Seq::<GreedyQuad>::empty(),
    decreases 32 - row,
{
    if row < 32 {
        assert(0u32 >> 0u32 == 0u32) by (bit_vector);
        axiom_u32_trailing_zeros(0u32);
        assert(scan_row(data, row, 0, lod_size) == (Seq::<GreedyQuad>::empty(), data));
        lemma_scan_empty_plane(data, row + 1, lod_size);
        assert(scan_plane(data, row, lod_size) =~= Seq::<GreedyQuad>::empty());
    }
}

/// The plane that is kept for a bucket is the plane of the bucket's faces.
proof fn lemma_stored_plane(
    chunks: &ChunksFromMiddle,
    axis: int,
    slots: Seq<u32>,
    planes: Seq<u32>,
    id: int,
    row: int,
)
    requires
        buckets_hold(chunks, axis, slots, planes, 1024, 0),
        0 <= id < 32768,
        0 <= row < 32,
    ensures
        stored_word(slots, planes, id, row) == plane_of(chunks, axis, (id / 32) as u32, id % 32)[row],
{
    let key = (id / 32) as u32;
    let pos = id % 32;
    let bits = plane_row(chunks, axis, key, pos, row);
    assert forall|k: int| 0 <= k < 32 implies bit32(stored_word(slots, planes, id, row), k)
        == bit32(word_of(bits, 32), k) by {
        lemma_word_of(bits, 32, k);
        assert(stored_bit(slots, planes, id, row, k) == (plane_bit(chunks, axis, key, pos, row, k)
            && face_done(1024, 0, row, pos, k)));
    }
    lemma_same_bits32(stored_word(slots, planes, id, row), word_of(bits, 32));
}

/// The corners of a list of quads grow by the corners of a quad that is
/// added to the list.
proof fn lemma_quads_vertices_step(
    quads: Seq<GreedyQuad>,
    j: int,
    face_dir: FaceDir,
    axis_pos: u32,
    ao: u32,
    voxel_type: VoxelType,
)
    requires
        0 <= j < quads.len(),
    ensures
        quads_vertices(quads.take(j + 1), face_dir, axis_pos, ao, voxel_type) == quads_vertices(
            quads.take(j),
            face_dir,
            axis_pos,
            ao,
            voxel_type,
        ) + quads[j].spec_vertices(face_dir, axis_pos, 1, ao, voxel_type),
{
    assert(quads.take(j + 1).drop_last() =~= quads.take(j));
    assert(quads.take(j + 1).last() == quads[j]);
}

/// The direction with a number: down, up, left, right, front, back.
fn face_dir_for(axis: usize) -> (face_dir: FaceDir)
    ensures
        face_dir == face_dir_of(axis as int),
{
    if axis == 0 {
        FaceDir::Down
    } else if axis == 1 {
        FaceDir::Up
    } else if axis == 2 {
        FaceDir::Left
    } else if axis == 3 {
        FaceDir::Right
    } else if axis == 4 {
        FaceDir::Front
    } else {
        FaceDir::Back
    }
}

/// Copies the 32 rows of a plane out of the store of planes.
fn load_plane(planes: &Vec<u32>, base: usize) -> (plane: [u32; 32])
    requires
        base + 32 <= planes@.len(),
    ensures
        forall|i: int| 0 <= i < 32 ==> plane@[i] == planes@[base + i],
{
    let mut plane: [u32; 32] = [0u32;32];
    let mut r: usize = 0;
    while r < 32
        invariant
            r <= 32,
            base + 32 <= planes.len(),
            forall|i: int| 0 <= i < r ==> plane@[i] == planes@[base + i],
        decreases 32 - r,
    {
        plane[r] = planes[base + r];
        r += 1;
    }
    plane
}

/// Appends the corners of a list of quads that lie in one plane.
fn append_quads(
    quads: &Vec<GreedyQuad>,
    vertices: &mut Vec<VertexU32>,
    face_dir: FaceDir,
    axis_pos: u32,
    ao: u32,
    voxel_type: VoxelType,
)
    requires
        axis_pos < 32,
        forall|i: int|
            0 <= i < quads@.len() ==> {
                &&& (#[trigger] quads@[i]).x < 32
                &&& quads@[i].y < 32
                &&& 1 <= quads@[i].w <= 32
                &&& 1 <= quads@[i].h <= 32
            },
    ensures
        final(vertices)@ == old(vertices)@ + quads_vertices(
            quads@,
            face_dir,
            axis_pos,
            ao,
            voxel_type,
        ),
        final(vertices)@.len() == old(vertices)@.len() + 4 * quads@.len(),
{
    let ghost before = vertices@;
    let mut j: usize = 0;
    assert(vertices@ =~= before + quads_vertices(
        quads@.take(0),
        face_dir,
        axis_pos,
        ao,
        voxel_type,
    ));
    while j < quads.len()
        invariant
            j <= quads@.len(),
            axis_pos < 32,
            forall|i: int|
                0 <= i < quads@.len() ==> {
                    &&& (#[trigger] quads@[i]).x < 32
                    &&& quads@[i].y < 32
                    &&& 1 <= quads@[i].w <= 32
                    &&& 1 <= quads@[i].h <= 32
                },
            vertices@ == before + quads_vertices(
                quads@.take(j as int),
                face_dir,
                axis_pos,
                ao,
                voxel_type,
            ),
            vertices@.len() == before.len() + 4 * j,
        decreases quads@.len() - j,
    {
        let q = quads[j];
        assert(q.fits(axis_pos, 1));
        q.append_vertices(vertices, face_dir, axis_pos, &Lod::L32, ao, voxel_type);
        proof {
            lemma_quads_vertices_step(quads@, j as int, face_dir, axis_pos, ao, voxel_type);
            assert(vertices@ =~= before + quads_vertices(
                quads@.take(j + 1),
                face_dir,
                axis_pos,
                ao,
                voxel_type,
            ));
        }
        j += 1;
    }
    assert(quads@.take(quads@.len() as int) =~= quads@);
}

/// Cuts the plane of one bucket into quads and appends their corners.
fn emit_bucket(
    chunks: &ChunksFromMiddle,
    slots: &Vec<u32>,
    planes: &Vec<u32>,
    axis: usize,
    lod_size: usize,
    id: usize,
    vertices: &mut Vec<VertexU32>,
)
    requires
        axis < 6,
        id < 32768,
        lod_size <= 32,
        buckets_wf(slots@, planes@),
        buckets_hold(chunks, axis as int, slots@, planes@, 1024, 0),
    ensures
        final(vertices)@ == old(vertices)@ + bucket_vertices(
            chunks,
            lod_size as int,
            axis as int,
            (id / 32) as u32,
            (id % 32) as int,
        ),
        final(vertices)@.len() <= old(vertices)@.len() + 4096,
{
    let voxel_ao: u32 = (id / 32) as u32;
    let axis_pos: u32 = (id % 32) as u32;
    let ghost wanted = plane_of(chunks, axis as int, voxel_ao, axis_pos as int);
    let ghost before = vertices@;
    let slot = slots[id];
    if slot != 0 {
        assert(slots@[id as int] * 32 <= planes@.len());
        let plane = load_plane(planes, (slot as usize - 1) * 32);
        proof {
            assert forall|row: int| 0 <= row < 32 implies plane@[row] == wanted[row] by {
                lemma_stored_plane(chunks, axis as int, slots@, planes@, id as int, row);
            }
            assert(plane@ =~= wanted);
        }

        let ao: u32 = voxel_ao & 0b111111111u32;
        assert(voxel_ao >> 9u32 <= 1) by (bit_vector)
            requires
                voxel_ao < 1024,
        ;
        let voxel_type = VoxelType::from_u32(voxel_ao >> 9u32);

        let quads_from_axis = greedy_mesh_binary_plane(plane, lod_size);
        append_quads(&quads_from_axis, vertices, face_dir_for(axis), axis_pos, ao, voxel_type);
    } else {
        proof {
            assert forall|row: int| 0 <= row < 32 implies wanted[row] == 0 by {
                lemma_stored_plane(chunks, axis as int, slots@, planes@, id as int, row);
            }
            lemma_scan_empty_plane(wanted, 0, lod_size as int);
            assert(bucket_vertices(chunks, lod_size as int, axis as int, voxel_ao, axis_pos as int)
                =~= Seq::<VertexU32>::empty());
            assert(before + Seq::<VertexU32>::empty() =~= before);
        }
    }
}

/// Cuts the planes of the buckets of one direction into quads and appends
/// the corners of the quads, bucket after bucket.
fn emit_buckets(
    chunks: &ChunksFromMiddle,
    slots: &Vec<u32>,
    planes: &Vec<u32>,
    axis: usize,
    lod: Lod,
    vertices: &mut Vec<VertexU32>,
)
    requires
        axis < 6,
        buckets_wf(slots@, planes@),
        buckets_hold(chunks, axis as int, slots@, planes@, 1024, 0),
        old(vertices)@ == vertices_upto(chunks, lod.spec_size() as int, axis * 32768),
        old(vertices)@.len() <= axis * 32768 * 4096,
    ensures
        final(vertices)@ == vertices_upto(chunks, lod.spec_size() as int, (axis + 1) * 32768),
        final(vertices)@.len() <= (axis + 1) * 32768 * 4096,
{
    let lod_size = lod.size();

    let mut id: usize = 0;
    while id < 32768
        invariant
            id <= 32768,
            axis < 6,
            lod_size == lod.spec_size(),
            lod_size <= 32,
            buckets_wf(slots@, planes@),
            buckets_hold(chunks, axis as int, slots@, planes@, 1024, 0),
            vertices@ == vertices_upto(chunks, lod_size as int, axis * 32768 + id),
            vertices@.len() <= (axis * 32768 + id) * 4096,
        decreases 32768 - id,
    {
        let ghost number = axis * 32768 + id;
        assert(number / 32768 == axis && (number / 32) % 1024 == id / 32 && number % 32 == id
            % 32);
        emit_bucket(chunks, slots, planes, axis, lod_size, id, vertices);
        id += 1;
    }
}

/// Where no voxel of the middle chunk shows a face, the mesh has no corner.
pub proof fn lemma_no_faces(chunks: &ChunksFromMiddle, lod_size: int, n: int)
    requires
        forall|axis: int, x: int, y: int, z: int|
            0 <= axis < 6 && 0 <= x < 32 && 0 <= y < 32 && 0 <= z < 32 ==> !#[trigger] is_face(
                chunks,
                axis,
                IVec3 { x: x as i32, y: y as i32, z: z as i32 },
            ),
        0 <= n <= 196608,
    ensures
        vertices_upto(chunks, lod_size, n) == Seq::<VertexU32>::empty(),
    decreases n,
{
    if n > 0 {
        lemma_no_faces(chunks, lod_size, n - 1);
        let axis = (n - 1) / 32768;
        let key = (((n - 1) / 32) % 1024) as u32;
        let pos = (n - 1) % 32;
        let plane = plane_of(chunks, axis, key, pos);
        assert forall|row: int| 0 <= row < 32 implies plane[row] == 0 by {
            let bits = plane_row(chunks, axis, key, pos, row);
            assert forall|k: int| 0 <= k < 32 implies bit32(word_of(bits, 32), k) == bit32(0, k) by {
                lemma_word_of(bits, 32, k);
                lemma_zero32(k);
                let at = plane_voxel(axis, row, pos, k);
                assert(!is_face(chunks, axis, IVec3 { x: at.x, y: at.y, z: at.z }));
            }
            lemma_same_bits32(word_of(bits, 32), 0);
        }
        lemma_scan_empty_plane(plane, 0, lod_size);
        assert(bucket_vertices(chunks, lod_size, axis, key, pos) =~= Seq::<VertexU32>::empty());
        assert(vertices_upto(chunks, lod_size, n) =~= Seq::<VertexU32>::empty());
    }
}

/// A block of chunks that are all stored as one voxel of the same type
/// shows no face.
pub proof fn lemma_uniform_block(chunks: &ChunksFromMiddle)
    requires
        chunks.spec_all_same(),
    ensures
        forall|axis: int, x: int, y: int, z: int|
            0 <= axis < 6 && 0 <= x < 32 && 0 <= y < 32 && 0 <= z < 32 ==> !#[trigger] is_face(
                chunks,
                axis,
                IVec3 { x: x as i32, y: y as i32, z: z as i32 },
            ),
{
    assert forall|pos: IVec3| in_block(pos) implies chunks.spec_get_voxel(pos).voxel_type
        == chunks.chunk(0)@[0].voxel_type by {
        let index = crate::chunk_from_middle::block_index(pos);
        assert(0 <= index < 27);
        let chunk = chunks.chunk(index);
        assert(chunk.is_homogeneous());
        chunk.lemma_view();
        let place = crate::chunk_from_middle::block_voxel_pos(pos).spec_to_index();
        assert(0 <= place < 32768);
        assert(chunk@[place] == chunk.stored(0));
        assert(chunk@[0] == chunk.stored(0));
    }
    assert forall|axis: int, x: int, y: int, z: int|
        0 <= axis < 6 && 0 <= x < 32 && 0 <= y < 32 && 0 <= z < 32 implies !#[trigger] is_face(
        chunks,
        axis,
        IVec3 { x: x as i32, y: y as i32, z: z as i32 },
    ) by {
        let at = IVec3 { x: x as i32, y: y as i32, z: z as i32 };
        assert(in_block(at));
        assert(in_block(stepped(at, axis_normal(axis))));
    }
}

/// The mesh of the middle chunk of a block of chunks: every face of a solid
/// voxel that is not hidden by a solid neighbour, the neighbours in the
/// chunks around included, merged with the faces beside it that share its
/// direction, voxel type and occlusion. There is no mesh where there is no
/// face.
pub fn build_chunk_mesh(chunks_from_middle: &ChunksFromMiddle, lod: Lod) -> (mesh: Option<ChunkMesh>)
    ensures
        match mesh {
            Some(mesh) => {
                &&& mesh.vertices@ == mesh_vertices(chunks_from_middle, lod.spec_size() as int)
                &&& mesh.vertices@.len() > 0
                &&& mesh.indices@ == spec_generate_indices(mesh.vertices@.len() as int)
            },
            None => mesh_vertices(chunks_from_middle, lod.spec_size() as int).len() == 0,
        },
{
    if chunks_from_middle.are_all_voxels_same() {
        proof {
            lemma_uniform_block(chunks_from_middle);
            lemma_no_faces(chunks_from_middle, lod.spec_size() as int, 196608);
        }
        return None;
    }
    // Solid binary for (x, y, z) axes
    let axis_cols = solid_columns(chunks_from_middle);

    // Greedy meshing planes for all 6 axes
    let mut vertices: Vec<VertexU32> = Vec::new();
    let mut axis: usize = 0;
    while axis < 6
        invariant
            axis <= 6,
            columns_of(chunks_from_middle, axis_cols@),
            vertices@ == vertices_upto(chunks_from_middle, lod.spec_size() as int, axis * 32768),
            vertices@.len() <= axis * 32768 * 4096,
        decreases 6 - axis,
    {
        let (slots, planes) = bucket_faces(chunks_from_middle, &axis_cols, axis);
        emit_buckets(chunks_from_middle, &slots, &planes, axis, lod, &mut vertices);
        axis += 1;
    }

    if vertices.is_empty() {
        None
    } else {
        let indices = generate_indices(vertices.len());
        Some(ChunkMesh { vertices, indices })
    }
}

} // verus!
