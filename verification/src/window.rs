//! The square window of chunks that must be resident around the viewer.

use vstd::prelude::*;
use crate::viewer::WorldPosition;

verus! {

/// Chunk `c` lies at most `distance` chunks from `center` along each axis.
pub open spec fn in_window(center: (i32, i32), distance: i32, c: (i32, i32)) -> bool {
    &&& center.0 - distance <= c.0 <= center.0 + distance
    &&& center.1 - distance <= c.1 <= center.1 + distance
}

/// The chunks that must be resident for a viewer in chunk `center`: the
/// Cartesian product of `center.0 - distance ..= center.0 + distance` and
/// `center.1 - distance ..= center.1 + distance`, as far as the grid reaches.
pub open spec fn required_set(center: (i32, i32), distance: i32) -> Set<(i32, i32)> {
    Set::new(|c: (i32, i32)| in_window(center, distance, c))
}

/// The window is not empty and nowhere cut off by the end of the grid.
pub open spec fn window_fits(center: (i32, i32), distance: i32) -> bool {
    &&& 0 <= distance
    &&& i32::MIN <= center.0 - distance
    &&& center.0 + distance <= i32::MAX
    &&& i32::MIN <= center.1 - distance
    &&& center.1 + distance <= i32::MAX
}

/// Row-major order on chunk coordinates: by `x`, then by `z`.
pub open spec fn row_major_less(a: (i32, i32), b: (i32, i32)) -> bool {
    a.0 < b.0 || (a.0 == b.0 && a.1 < b.1)
}

/// The chunks with `x` from `low.0` to `high.0` and `z` from `low.1` to `high.1`.
spec fn rectangle(low: (int, int), high: (int, int)) -> Set<(i32, i32)> {
    Set::new(|c: (i32, i32)| low.0 <= c.0 <= high.0 && low.1 <= c.1 <= high.1)
}

/// Counting row by row, index `i` names row `i / depth` and place `i % depth` in it.
proof fn lemma_cell_of_index(i: int, width: int, depth: int)
    requires
        0 <= width,
        0 <= depth,
        0 <= i < width * depth,
    ensures
        depth > 0,
        0 <= i / depth < width,
        0 <= i % depth < depth,
        i == (i / depth) * depth + i % depth,
{
    assert(depth > 0) by (nonlinear_arith)
        requires
            0 <= i < width * depth,
            width >= 0,
            depth >= 0,
    ;
    vstd::arithmetic::div_mod::lemma_fundamental_div_mod(i, depth);
    vstd::arithmetic::div_mod::lemma_mod_bound(i, depth);
    vstd::arithmetic::div_mod::lemma_div_pos_is_pos(i, depth);
    assert(i / depth < width) by (nonlinear_arith)
        requires
            i == depth * (i / depth) + i % depth,
            0 <= i % depth,
            i < width * depth,
            depth >= 1,
    ;
    assert(depth * (i / depth) == (i / depth) * depth) by (nonlinear_arith);
}

/// A rectangle of chunks holds its width times its height.
proof fn lemma_rectangle_len(low: (int, int), high: (int, int))
    requires
        i32::MIN <= low.0 <= high.0 + 1 <= i32::MAX + 1,
        i32::MIN <= low.1 <= high.1 + 1 <= i32::MAX + 1,
    ensures
        rectangle(low, high).finite(),
        rectangle(low, high).len() == (high.0 - low.0 + 1) * (high.1 - low.1 + 1),
{
    let width: int = high.0 - low.0 + 1;
    let depth: int = high.1 - low.1 + 1;
    assert(width * depth >= 0) by (nonlinear_arith)
        requires
            width >= 0,
            depth >= 0,
    ;
    let cells = Seq::new(
        (width * depth) as nat,
        |i: int| ((low.0 + i / depth) as i32, (low.1 + i % depth) as i32),
    );
    assert(cells.len() == width * depth);
    assert forall|i: int, j: int|
        0 <= i < cells.len() && 0 <= j < cells.len() && i != j implies cells[i] != cells[j] by {
        lemma_cell_of_index(i, width, depth);
        lemma_cell_of_index(j, width, depth);
    }
    assert forall|c: (i32, i32)| cells.to_set().contains(c) <==> rectangle(low, high).contains(
        c,
    ) by {
        if cells.to_set().contains(c) {
            let i = choose|i: int| 0 <= i < cells.len() && cells[i] == c;
            lemma_cell_of_index(i, width, depth);
        }
        if rectangle(low, high).contains(c) {
            let row: int = c.0 - low.0;
            let col: int = c.1 - low.1;
            let i: int = row * depth + col;
            assert(0 <= i < width * depth) by (nonlinear_arith)
                requires
                    0 <= row < width,
                    0 <= col < depth,
                    i == row * depth + col,
            ;
            vstd::arithmetic::div_mod::lemma_fundamental_div_mod_converse(i, depth, row, col);
            assert(cells[i] == c);
        }
    }
    assert(cells.to_set() =~= rectangle(low, high));
    cells.unique_seq_to_set();
    vstd::seq_lib::seq_to_set_is_finite(cells);
}

/// The required set has `2 * distance + 1` rows of as many chunks each.
pub proof fn lemma_required_set_len(center: (i32, i32), distance: i32)
    requires
        window_fits(center, distance),
    ensures
        required_set(center, distance).finite(),
        required_set(center, distance).len() == (2 * distance + 1) * (2 * distance + 1),
{
    let low = (center.0 - distance, center.1 - distance);
    let high = (center.0 + distance, center.1 + distance);
    lemma_rectangle_len(low, high);
    assert(required_set(center, distance) =~= rectangle(low, high));
}

/// When the viewer steps into the next chunk along `x`, the window slides by
/// one column: `2 * distance + 1` chunks enter it, as many leave it, and the
/// other `2 * distance` columns stay.
pub proof fn lemma_step_swaps_a_column(center: (i32, i32), next: (i32, i32), distance: i32)
    requires
        window_fits(center, distance),
        window_fits(next, distance),
        next.0 == center.0 + 1,
        next.1 == center.1,
    ensures
        required_set(next, distance).difference(required_set(center, distance)).finite(),
        required_set(center, distance).difference(required_set(next, distance)).finite(),
        required_set(center, distance).intersect(required_set(next, distance)).finite(),
        required_set(next, distance).difference(required_set(center, distance)).len() == 2
            * distance + 1,
        required_set(center, distance).difference(required_set(next, distance)).len() == 2
            * distance + 1,
        required_set(center, distance).intersect(required_set(next, distance)).len() == 2
            * distance * (2 * distance + 1),
        forall|c: (i32, i32)|
            #![trigger in_window(next, distance, c)]
            in_window(next, distance, c) && !in_window(center, distance, c) <==> c.0 == next.0
                + distance && center.1 - distance <= c.1 <= center.1 + distance,
{
    let low_z: int = center.1 - distance;
    let high_z: int = center.1 + distance;
    let entering = (next.0 + distance, next.0 + distance);
    let leaving = (center.0 - distance, center.0 - distance);
    let staying = (center.0 - distance + 1, center.0 + distance);
    lemma_rectangle_len((entering.0, low_z), (entering.1, high_z));
    lemma_rectangle_len((leaving.0, low_z), (leaving.1, high_z));
    lemma_rectangle_len((staying.0, low_z), (staying.1, high_z));
    assert(required_set(next, distance).difference(required_set(center, distance)) =~= rectangle(
        (entering.0, low_z),
        (entering.1, high_z),
    ));
    assert(required_set(center, distance).difference(required_set(next, distance)) =~= rectangle(
        (leaving.0, low_z),
        (leaving.1, high_z),
    ));
    assert(required_set(center, distance).intersect(required_set(next, distance)) =~= rectangle(
        (staying.0, low_z),
        (staying.1, high_z),
    ));
    assert(1 * (2 * distance + 1) == 2 * distance + 1);
    assert((staying.1 - staying.0 + 1) * (high_z - low_z + 1) == 2 * distance * (2 * distance
        + 1)) by (nonlinear_arith)
        requires
            staying.1 - staying.0 + 1 == 2 * distance,
            high_z - low_z + 1 == 2 * distance + 1,
    ;
}

/// The chunks that must be resident for `viewer`, in row-major order: every
/// chunk at most `distance` chunks from the viewer's along each axis, once.
/// A negative `distance` requires nothing.
pub fn required_chunks(viewer: &WorldPosition, distance: i32) -> (chunks: Vec<(i32, i32)>)
    ensures
        forall|c: (i32, i32)|
            #![trigger chunks@.contains(c)]
            #![trigger in_window(viewer.coord(), distance, c)]
            chunks@.contains(c) <==> in_window(viewer.coord(), distance, c),
        forall|i: int, j: int|
            0 <= i < j < chunks.len() ==> row_major_less(#[trigger] chunks[i], #[trigger] chunks[j]),
        chunks@.no_duplicates(),
        chunks@.to_set() == required_set(viewer.coord(), distance),
        window_fits(viewer.coord(), distance) ==> chunks.len() == (2 * distance + 1) * (2 * distance
            + 1),
{
    let mut chunks: Vec<(i32, i32)> = Vec::new();
    if distance < 0 {
        assert(chunks@.to_set() =~= required_set(viewer.coord(), distance));
        return chunks;
    }
    let reach: i64 = distance as i64;
    let first_x: i64 = clip(viewer.chunk_x as i64 - reach);
    let last_x: i64 = clip(viewer.chunk_x as i64 + reach);
    let first_z: i64 = clip(viewer.chunk_z as i64 - reach);
    let last_z: i64 = clip(viewer.chunk_z as i64 + reach);
    let ghost center = viewer.coord();
    let mut x: i64 = first_x;
    while x <= last_x
        invariant
            first_x <= x <= last_x + 1,
            first_z <= last_z,
            i32::MIN <= first_x && last_x <= i32::MAX,
            i32::MIN <= first_z && last_z <= i32::MAX,
            forall|c: (i32, i32)|
                in_window(center, distance, c) <==> (first_x <= c.0 <= last_x && first_z <= c.1
                    <= last_z),
            forall|c: (i32, i32)|
                chunks@.contains(c) <==> (in_window(center, distance, c) && c.0 < x),
            forall|i: int, j: int|
                0 <= i < j < chunks.len() ==> row_major_less(
                    #[trigger] chunks[i],
                    #[trigger] chunks[j],
                ),
            chunks.len() == (x - first_x) * (last_z - first_z + 1),
        decreases last_x + 1 - x,
    {
        let mut z: i64 = first_z;
        while z <= last_z
            invariant
                first_x <= x <= last_x,
                first_z <= z <= last_z + 1,
                i32::MIN <= first_x && last_x <= i32::MAX,
                i32::MIN <= first_z && last_z <= i32::MAX,
                forall|c: (i32, i32)|
                    in_window(center, distance, c) <==> (first_x <= c.0 <= last_x && first_z
                        <= c.1 <= last_z),
                forall|c: (i32, i32)|
                    chunks@.contains(c) <==> (in_window(center, distance, c) && (c.0 < x || (c.0
                        == x && c.1 < z))),
                forall|i: int, j: int|
                    0 <= i < j < chunks.len() ==> row_major_less(
                        #[trigger] chunks[i],
                        #[trigger] chunks[j],
                    ),
                chunks.len() == (x - first_x) * (last_z - first_z + 1) + (z - first_z),
            decreases last_z + 1 - z,
        {
            let ghost before = chunks@;
            let next: (i32, i32) = (x as i32, z as i32);
            chunks.push(next);
            proof {
                assert forall|c: (i32, i32)| chunks@.contains(c) <==> (in_window(center, distance, c) && (c.0 < x || (c.0 == x && c.1 < z + 1))) by {
                    vstd::seq_lib::lemma_seq_contains_after_push(before, next, c);
                }
                assert forall|i: int, j: int| 0 <= i < j < chunks.len() implies row_major_less(#[trigger] chunks[i], #[trigger] chunks[j]) by {
                    if j == before.len() {
                        assert(before.contains(before[i]));
                    }
                }
            }
            z = z + 1;
        }
        proof {
            assert((x + 1 - first_x) * (last_z - first_z + 1) == (x - first_x) * (last_z - first_z
                + 1) + (last_z - first_z + 1)) by (nonlinear_arith);
        }
        x = x + 1;
    }
    proof {
        assert forall|i: int, j: int| 0 <= i < j < chunks.len() implies chunks[i] != chunks[j] by {
            assert(row_major_less(chunks[i], chunks[j]));
        }
        assert(chunks@.to_set() =~= required_set(center, distance));
        if window_fits(center, distance) {
            assert((last_x + 1 - first_x) * (last_z - first_z + 1) == (2 * distance + 1) * (2
                * distance + 1)) by (nonlinear_arith)
                requires
                    last_x + 1 - first_x == 2 * distance + 1,
                    last_z - first_z + 1 == 2 * distance + 1,
            ;
        }
    }
    chunks
}

/// `value` moved to the nearest bound where it leaves the 32-bit range.
fn clip(value: i64) -> (clipped: i64)
    ensures
        clipped == crate::viewer::saturate(value as int),
{
    if value < i32::MIN as i64 {
        i32::MIN as i64
    } else if value > i32::MAX as i64 {
        i32::MAX as i64
    } else {
        value
    }
}

} // verus!
