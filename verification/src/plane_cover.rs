//! What greedy meshing of a plane is good for: at the finest level of
//! detail the quads of a plane cover every face of the plane, and no face
//! twice.

use vstd::prelude::*;
use vstd::std_specs::bits::{axiom_u32_trailing_ones, axiom_u32_trailing_zeros};
use crate::bits::bit32;
use crate::chunk_mesh::GreedyQuad;
use crate::greedy_mesher::{
    consume,
    has_run,
    lemma_run,
    low_ones,
    run_height,
    run_mask,
    run_start,
    run_width,
    scan_plane,
    scan_row,
};

verus! {

/// Whether a quad covers the face at bit `bit` of row `row`.
pub open spec fn covers(quad: GreedyQuad, row: int, bit: int) -> bool {
    quad.x <= row < quad.x + quad.w && quad.y <= bit < quad.y + quad.h
}

/// Whether one of the quads covers a face.
pub open spec fn covered(quads: Seq<GreedyQuad>, row: int, bit: int) -> bool {
    exists|i: int| 0 <= i < quads.len() && covers(#[trigger] quads[i], row, bit)
}

/// Whether no two of the quads cover the same face.
pub open spec fn apart(quads: Seq<GreedyQuad>) -> bool {
    forall|i: int, j: int, row: int, bit: int|
        0 <= i < j < quads.len() && #[trigger] covers(quads[i], row, bit) ==> !#[trigger] covers(
            quads[j],
            row,
            bit,
        )
}

/// The quads of a plane at the finest level of detail cover the faces of
/// the plane, each face once, and nothing else.
pub proof fn lemma_plane_cover(data: Seq<u32>)
    requires
        data.len() == 32,
    ensures
        forall|row: int, bit: int|
            0 <= row < 32 && 0 <= bit < 32 ==> #[trigger] covered(
                scan_plane(data, 0, 32),
                row,
                bit,
            ) == bit32(data[row], bit),
        apart(scan_plane(data, 0, 32)),
        forall|i: int|
            0 <= i < scan_plane(data, 0, 32).len() ==> {
                &&& (#[trigger] scan_plane(data, 0, 32)[i]).x + scan_plane(data, 0, 32)[i].w <= 32
                &&& scan_plane(data, 0, 32)[i].y + scan_plane(data, 0, 32)[i].h <= 32
            },
{
    lemma_plane_cover_from(data, 0);
}

/// Facts about a list of quads that is made of two lists.
proof fn lemma_covered_concat(first: Seq<GreedyQuad>, second: Seq<GreedyQuad>, row: int, bit: int)
    ensures
        covered(first + second, row, bit) == (covered(first, row, bit) || covered(
            second,
            row,
            bit,
        )),
{
    let both = first + second;
    if covered(first, row, bit) {
        let i = choose|i: int| 0 <= i < first.len() && covers(#[trigger] first[i], row, bit);
        assert(both[i] == first[i]);
    }
    if covered(second, row, bit) {
        let i = choose|i: int| 0 <= i < second.len() && covers(#[trigger] second[i], row, bit);
        assert(both[first.len() + i] == second[i]);
    }
    if covered(both, row, bit) {
        let i = choose|i: int| 0 <= i < both.len() && covers(#[trigger] both[i], row, bit);
        if i < first.len() {
            assert(first[i] == both[i]);
        } else {
            assert(second[i - first.len()] == both[i]);
        }
    }
}

/// Two lists of quads that cover different faces, none twice, make a list
/// that covers no face twice.
proof fn lemma_apart_concat(first: Seq<GreedyQuad>, second: Seq<GreedyQuad>)
    requires
        apart(first),
        apart(second),
        forall|row: int, bit: int| !(covered(first, row, bit) && covered(second, row, bit)),
    ensures
        apart(first + second),
{
    let both = first + second;
    assert forall|i: int, j: int, row: int, bit: int|
        0 <= i < j < both.len() && #[trigger] covers(both[i], row, bit) implies !#[trigger] covers(
        both[j],
        row,
        bit,
    ) by {
        let n = first.len() as int;
        if j < n {
            assert(both[i] == first[i] && both[j] == first[j]);
        } else if i >= n {
            assert(both[i] == second[i - n] && both[j] == second[j - n]);
        } else {
            assert(both[i] == first[i] && both[j] == second[j - n]);
            if covers(both[j], row, bit) {
                assert(covered(first, row, bit));
                assert(covered(second, row, bit));
            }
        }
    }
}

/// No bit is set between the place where a run is looked for and the place
/// where it begins.
proof fn lemma_before_run(bits: u32, y: u32, b: int)
    requires
        y < 32,
        y <= b < 32,
        b < run_start(bits, y),
    ensures
        !bit32(bits, b),
{
    let shifted = bits >> y;
    axiom_u32_trailing_zeros(shifted);
    let j: u32 = (b - y) as u32;
    let bb: u32 = b as u32;
    assert((shifted >> j) & 1u32 == 0u32);
    assert((bits >> bb) & 1u32 == 0u32) by (bit_vector)
        requires
            shifted == bits >> y,
            y <= bb < 32,
            j == bb - y,
            (shifted >> j) & 1u32 == 0u32,
    ;
}

/// Every bit of a run is set.
proof fn lemma_in_run(bits: u32, start: u32, b: int)
    requires
        start < 32,
        start <= b < start + run_height(bits, start),
        b < 32,
    ensures
        bit32(bits, b),
{
    let shifted = bits >> start;
    axiom_u32_trailing_ones(shifted);
    let j: u32 = (b - start) as u32;
    let bb: u32 = b as u32;
    assert((shifted >> j) & 1u32 == 1u32);
    assert((bits >> bb) & 1u32 == 1u32) by (bit_vector)
        requires
            shifted == bits >> start,
            start <= bb < 32,
            j == bb - start,
            (shifted >> j) & 1u32 == 1u32,
    ;
}

/// The word whose lowest bits are set, in numbers.
proof fn lemma_low_ones(height: u32)
    ensures
        (height >= 32 && low_ones(height) == 0xffff_ffffu32) || (height < 32 && low_ones(height) == (
        1u32 << height) - 1),
{
    if height < 32 {
        assert((1u32 << height) >= 1) by (bit_vector)
            requires
                height < 32,
        ;
    }
}

/// A row that holds a run has every bit of the run set.
proof fn lemma_has_run(bits: u32, start: u32, height: u32, b: int)
    requires
        has_run(bits, start, height),
        start <= b < start + height,
        start + height <= 32,
    ensures
        bit32(bits, b),
{
    let ones = low_ones(height);
    let bb: u32 = b as u32;
    lemma_low_ones(height);
    assert((bits >> bb) & 1u32 == 1u32) by (bit_vector)
        requires
            (bits >> start) & ones == ones,
            (height >= 32 && ones == 0xffff_ffffu32) || (height < 32 && ones == (1u32 << height)
                - 1),
            start <= bb,
            bb < start + height,
            start + height <= 32,
    ;
}

/// A row that a run has been taken out of has lost the bits of the run and
/// no other.
proof fn lemma_consumed(bits: u32, start: u32, height: u32, b: int)
    requires
        start + height <= 32,
        0 <= b < 32,
    ensures
        bit32(bits & !run_mask(start, height), b) == (bit32(bits, b) && !(start <= b < start
            + height)),
{
    let ones = low_ones(height);
    let mask = run_mask(start, height);
    let bb: u32 = b as u32;
    lemma_low_ones(height);
    if start < 32 {
        assert((((bits & !mask) >> bb) & 1u32 == 1u32) == (((bits >> bb) & 1u32 == 1u32) && !(start
            <= bb && bb < start + height))) by (bit_vector)
            requires
                mask == ones << start,
                (height >= 32 && ones == 0xffff_ffffu32) || (height < 32 && ones == (1u32
                    << height) - 1),
                start < 32,
                bb < 32,
                start + height <= 32,
        ;
    } else {
        assert(height == 0);
        assert(ones == 0) by (bit_vector)
            requires
                ones == (1u32 << 0u32) - 1,
        ;
        assert(bits & !(0u32 << start) == bits) by (bit_vector);
        assert(mask == 0u32 << start);
    }
}

/// A run spreads over rows that all hold it, and not beyond the plane.
proof fn lemma_run_width(
    data: Seq<u32>,
    row: int,
    start: u32,
    height: u32,
    width: int,
    r: int,
)
    requires
        data.len() == 32,
        0 <= row < 32,
        1 <= width,
        row + width <= 32,
        forall|k: int| row < k < row + width ==> has_run(#[trigger] data[k], start, height),
    ensures
        width <= run_width(data, row, start, height, 32, width),
        row + run_width(data, row, start, height, 32, width) <= 32,
        row < r < row + run_width(data, row, start, height, 32, width) ==> has_run(
            data[r],
            start,
            height,
        ),
    decreases 32 - (row + width),
{
    if row + width < 32 && has_run(data[row + width], start, height) {
        lemma_run_width(data, row, start, height, width + 1, r);
    }
}

/// What the quads that begin in one row cover: the faces of the row from
/// `y` on, and the faces that they take from the rows that follow.
proof fn lemma_row_cover(data: Seq<u32>, row: int, y: u32)
    requires
        data.len() == 32,
        0 <= row < 32,
        y <= 32,
    ensures
        scan_row(data, row, y, 32).1.len() == 32,
        forall|r: int| 0 <= r <= row ==> scan_row(data, row, y, 32).1[r] == data[r],
        forall|r: int, b: int|
            0 <= r < 32 && 0 <= b < 32 && #[trigger] bit32(scan_row(data, row, y, 32).1[r], b)
                ==> bit32(data[r], b),
        forall|r: int, b: int|
            0 <= r < 32 && 0 <= b < 32 ==> #[trigger] covered(
                scan_row(data, row, y, 32).0,
                r,
                b,
            ) == ((r == row && b >= y && bit32(data[row], b)) || (r > row && bit32(data[r], b)
                && !bit32(scan_row(data, row, y, 32).1[r], b))),
        apart(scan_row(data, row, y, 32).0),
        forall|i: int|
            0 <= i < scan_row(data, row, y, 32).0.len() ==> {
                &&& (#[trigger] scan_row(data, row, y, 32).0[i]).x == row
                &&& scan_row(data, row, y, 32).0[i].x + scan_row(data, row, y, 32).0[i].w <= 32
                &&& scan_row(data, row, y, 32).0[i].y + scan_row(data, row, y, 32).0[i].h <= 32
            },
    decreases 32 - y,
{
    let found = scan_row(data, row, y, 32);
    if y >= 32 {
        assert forall|r: int, b: int| 0 <= r < 32 && 0 <= b < 32 implies #[trigger] covered(
            found.0,
            r,
            b,
        ) == ((r == row && b >= y && bit32(data[row], b)) || (r > row && bit32(data[r], b)
            && !bit32(found.1[r], b))) by {}
    } else {
        let start = run_start(data[row], y);
        lemma_run(data[row], y);
        if start >= 32 {
            assert forall|r: int, b: int| 0 <= r < 32 && 0 <= b < 32 implies #[trigger] covered(
                found.0,
                r,
                b,
            ) == ((r == row && b >= y && bit32(data[row], b)) || (r > row && bit32(data[r], b)
                && !bit32(found.1[r], b))) by {
                if r == row && b >= y {
                    lemma_before_run(data[row], y, b);
                }
            }
        } else {
            let height = run_height(data[row], start);
            let width = run_width(data, row, start, height, 32, 1);
            let mask = run_mask(start, height);
            let quad = GreedyQuad {
                x: row as usize,
                y: start as usize,
                w: width as usize,
                h: height as usize,
            };
            let taken = consume(data, row, width, mask);
            let next: u32 = (start + height) as u32;
            let rest = scan_row(taken, row, next, 32);
            assert(found.0 == seq![quad] + rest.0);
            assert(found.1 == rest.1);
            lemma_run_width(data, row, start, height, 1, 0);
            lemma_row_cover(taken, row, next);
            assert forall|r: int| 0 <= r <= row implies found.1[r] == data[r] by {
                assert(rest.1[r] == taken[r]);
                assert(taken[r] == data[r]);
            }

            assert forall|r: int, b: int| 0 <= r < 32 && 0 <= b < 32 implies #[trigger] bit32(
                taken[r],
                b,
            ) == (bit32(data[r], b) && !(row < r < row + width && start <= b < start + height)) by {
                if row < r < row + width {
                    lemma_consumed(data[r], start, height, b);
                }
            }
            assert forall|r: int, b: int|
                row < r < row + width && start <= b < start + height implies #[trigger] bit32(
                data[r],
                b,
            ) by {
                lemma_run_width(data, row, start, height, 1, r);
                lemma_has_run(data[r], start, height, b);
            }
            assert forall|r: int, b: int| 0 <= r < 32 && 0 <= b < 32 implies #[trigger] covered(
                seq![quad],
                r,
                b,
            ) == covers(quad, r, b) by {
                if covers(quad, r, b) {
                    assert(seq![quad][0] == quad);
                }
            }
            assert forall|r: int, b: int| 0 <= r < 32 && 0 <= b < 32 implies #[trigger] covered(
                found.0,
                r,
                b,
            ) == ((r == row && b >= y && bit32(data[row], b)) || (r > row && bit32(data[r], b)
                && !bit32(found.1[r], b))) by {
                lemma_covered_concat(seq![quad], rest.0, r, b);
                assert(covered(seq![quad], r, b) == covers(quad, r, b));
                assert(covered(rest.0, r, b) == ((r == row && b >= next && bit32(taken[row], b))
                    || (r > row && bit32(taken[r], b) && !bit32(rest.1[r], b))));
                assert(bit32(taken[r], b) == (bit32(data[r], b) && !(row < r < row + width
                    && start <= b < start + height)));
                if r == row {
                    if y <= b < start {
                        lemma_before_run(data[row], y, b);
                    }
                    if start <= b < start + height {
                        lemma_in_run(data[row], start, b);
                    }
                } else if r > row {
                    if bit32(rest.1[r], b) {
                        assert(bit32(taken[r], b));
                    }
                    if r < row + width && start <= b < start + height {
                        assert(bit32(data[r], b));
                    }
                }
            }
            assert forall|r: int, b: int| !(covered(seq![quad], r, b) && covered(rest.0, r, b)) by {
                if covered(seq![quad], r, b) && covered(rest.0, r, b) {
                    let i = choose|i: int|
                        0 <= i < seq![quad].len() && covers(#[trigger] seq![quad][i], r, b);
                    assert(seq![quad][i] == quad);
                    let j = choose|j: int| 0 <= j < rest.0.len() && covers(#[trigger] rest.0[j], r, b);
                    assert(rest.0[j].x == row);
                    assert(0 <= r < 32 && 0 <= b < 32);
                    assert(covered(rest.0, r, b) == ((r == row && b >= next && bit32(
                        taken[row],
                        b,
                    )) || (r > row && bit32(taken[r], b) && !bit32(rest.1[r], b))));
                    assert(bit32(taken[r], b) == (bit32(data[r], b) && !(row < r < row + width
                        && start <= b < start + height)));
                }
            }
            assert(apart(seq![quad])) by {
                assert forall|i: int, j: int, r: int, b: int|
                    0 <= i < j < seq![quad].len() && #[trigger] covers(
                        seq![quad][i],
                        r,
                        b,
                    ) implies !#[trigger] covers(seq![quad][j], r, b) by {}
            }
            lemma_apart_concat(seq![quad], rest.0);
            assert forall|i: int| 0 <= i < found.0.len() implies {
                &&& (#[trigger] found.0[i]).x == row
                &&& found.0[i].x + found.0[i].w <= 32
                &&& found.0[i].y + found.0[i].h <= 32
            } by {
                if i > 0 {
                    assert(found.0[i] == rest.0[i - 1]);
                }
            }
        }
    }
}

/// The quads that begin in the rows from `row` on cover the faces of these
/// rows, each face once.
proof fn lemma_plane_cover_from(data: Seq<u32>, row: int)
    requires
        data.len() == 32,
        0 <= row <= 32,
    ensures
        forall|r: int, b: int|
            0 <= r < 32 && 0 <= b < 32 ==> #[trigger] covered(scan_plane(data, row, 32), r, b) == (
            r >= row && bit32(data[r], b)),
        apart(scan_plane(data, row, 32)),
        forall|i: int|
            0 <= i < scan_plane(data, row, 32).len() ==> {
                &&& (#[trigger] scan_plane(data, row, 32)[i]).x >= row
                &&& scan_plane(data, row, 32)[i].x + scan_plane(data, row, 32)[i].w <= 32
                &&& scan_plane(data, row, 32)[i].y + scan_plane(data, row, 32)[i].h <= 32
            },
    decreases 32 - row,
{
    let quads = scan_plane(data, row, 32);
    if row >= 32 {
        assert forall|r: int, b: int| 0 <= r < 32 && 0 <= b < 32 implies #[trigger] covered(
            quads,
            r,
            b,
        ) == (r >= row && bit32(data[r], b)) by {}
    } else {
        let found = scan_row(data, row, 0, 32);
        let later = scan_plane(found.1, row + 1, 32);
        assert(quads == found.0 + later);
        lemma_row_cover(data, row, 0);
        lemma_plane_cover_from(found.1, row + 1);
        assert forall|r: int, b: int| 0 <= r < 32 && 0 <= b < 32 implies #[trigger] covered(
            quads,
            r,
            b,
        ) == (r >= row && bit32(data[r], b)) by {
            lemma_covered_concat(found.0, later, r, b);
            assert(covered(found.0, r, b) == ((r == row && b >= 0 && bit32(data[row], b)) || (r
                > row && bit32(data[r], b) && !bit32(found.1[r], b))));
            assert(covered(later, r, b) == (r >= row + 1 && bit32(found.1[r], b)));
            if bit32(found.1[r], b) {
                assert(bit32(data[r], b));
            }
        }
        assert forall|r: int, b: int| !(covered(found.0, r, b) && covered(later, r, b)) by {
            if covered(found.0, r, b) && covered(later, r, b) {
                let i = choose|i: int| 0 <= i < found.0.len() && covers(#[trigger] found.0[i], r, b);
                let j = choose|j: int| 0 <= j < later.len() && covers(#[trigger] later[j], r, b);
                assert(found.0[i].x == row && found.0[i].x + found.0[i].w <= 32);
                assert(later[j].x >= row + 1 && later[j].x + later[j].w <= 32);
                assert(0 <= r < 32 && 0 <= b < 32);
                assert(covered(found.0, r, b) == ((r == row && b >= 0 && bit32(data[row], b))
                    || (r > row && bit32(data[r], b) && !bit32(found.1[r], b))));
                assert(covered(later, r, b) == (r >= row + 1 && bit32(found.1[r], b)));
            }
        }
        lemma_apart_concat(found.0, later);
        assert forall|i: int| 0 <= i < quads.len() implies {
            &&& (#[trigger] quads[i]).x >= row
            &&& quads[i].x + quads[i].w <= 32
            &&& quads[i].y + quads[i].h <= 32
        } by {
            if i < found.0.len() {
                assert(quads[i] == found.0[i]);
            } else {
                assert(quads[i] == later[i - found.0.len()]);
            }
        }
    }
}

} // verus!
