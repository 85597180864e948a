//! The viewer's place on the chunk grid.

use crate::config::ConfigError;
use vstd::prelude::*;

verus! {

/// The chunk the viewer stands in.
#[derive(Clone, Copy, Debug, PartialEq, Eq, Structural)]
pub struct WorldPosition {
    pub chunk_x: i32,
    pub chunk_z: i32,
}

/// The grid index of a world coordinate, before it is fitted into 32 bits:
/// the largest `i` with `i * chunk_size <= position`.
pub open spec fn grid_index(position: int, chunk_size: int) -> int
    recommends
        chunk_size > 0,
{
    position / chunk_size
}

/// `value` moved to the nearest bound where it leaves the 32-bit range.
pub open spec fn saturate(value: int) -> int {
    if value < i32::MIN {
        i32::MIN as int
    } else if value > i32::MAX {
        i32::MAX as int
    } else {
        value
    }
}

/// The chunk with index `index` holds `position`: chunks are `chunk_size`
/// units wide and chunk 0 begins at the origin.
pub open spec fn chunk_spans(index: int, chunk_size: int, position: int) -> bool {
    index * chunk_size <= position < (index + 1) * chunk_size
}

/// `grid_index` rounds toward negative infinity, not toward zero: it names the
/// one chunk that holds `position`, also left of the origin.
pub proof fn lemma_grid_index_floors(position: int, chunk_size: int)
    requires
        chunk_size > 0,
    ensures
        chunk_spans(grid_index(position, chunk_size), chunk_size, position),
        forall|i: int| #[trigger]
            chunk_spans(i, chunk_size, position) ==> i == grid_index(position, chunk_size),
{
    let q = position / chunk_size;
    vstd::arithmetic::div_mod::lemma_fundamental_div_mod(position, chunk_size);
    vstd::arithmetic::div_mod::lemma_mod_bound(position, chunk_size);
    assert(chunk_size * q == q * chunk_size) by (nonlinear_arith);
    assert((q + 1) * chunk_size == q * chunk_size + chunk_size) by (nonlinear_arith);
    assert forall|i: int| #[trigger] chunk_spans(i, chunk_size, position) implies i == q by {
        assert((i + 1) * chunk_size == i * chunk_size + chunk_size) by (nonlinear_arith);
        vstd::arithmetic::div_mod::lemma_fundamental_div_mod_converse(
            position,
            chunk_size,
            i,
            position - i * chunk_size,
        );
    }
}

/// A position may be rounded down to whole units before its chunk is looked
/// up: for the position `numerator / denominator`, the chunk of the rounded
/// position is the chunk of the position itself.
pub proof fn lemma_whole_units_suffice(numerator: int, denominator: int, chunk_size: int)
    requires
        denominator > 0,
        chunk_size > 0,
    ensures
        denominator * chunk_size > 0,
        grid_index(numerator / denominator, chunk_size) == numerator / (denominator * chunk_size),
{
    let whole = numerator / denominator;
    let index = grid_index(whole, chunk_size);
    lemma_grid_index_floors(numerator, denominator);
    lemma_grid_index_floors(whole, chunk_size);
    assert(chunk_spans(whole, denominator, numerator));
    assert(chunk_spans(index, chunk_size, whole));
    assert(denominator * chunk_size > 0) by (nonlinear_arith)
        requires
            denominator > 0,
            chunk_size > 0,
    ;
    assert(chunk_spans(index, denominator * chunk_size, numerator)) by (nonlinear_arith)
        requires
            whole * denominator <= numerator < (whole + 1) * denominator,
            index * chunk_size <= whole < (index + 1) * chunk_size,
            denominator > 0,
            chunk_size > 0,
    ;
    lemma_grid_index_floors(numerator, denominator * chunk_size);
}

/// The chunk index of a world coordinate given in whole units (the coordinate
/// rounded down), for chunks `chunk_size` units wide. Index 0 spans
/// `0 .. chunk_size`, index -1 spans `-chunk_size .. 0`. An index beyond the
/// 32-bit range is given as the nearest bound. A chunk size of zero is an error.
pub fn chunk_index(position: i64, chunk_size: u32) -> (index: Result<i32, ConfigError>)
    ensures
        chunk_size == 0 ==> index == Err::<i32, ConfigError>(ConfigError::ZeroChunkSize),
        chunk_size > 0 ==> index == Ok::<i32, ConfigError>(
            saturate(grid_index(position as int, chunk_size as int)) as i32,
        ),
{
    if chunk_size == 0 {
        return Err(ConfigError::ZeroChunkSize);
    }
    let size: u64 = chunk_size as u64;
    let floored: i64 = if position >= 0 {
        let steps: u64 = position as u64 / size;
        proof {
            vstd::arithmetic::div_mod::lemma_fundamental_div_mod(position as int, size as int);
            vstd::arithmetic::div_mod::lemma_mod_bound(position as int, size as int);
            assert(chunk_spans(steps as int, size as int, position as int)) by (nonlinear_arith)
                requires
                    position == size * steps + (position as int % size as int),
                    0 <= (position as int % size as int) < size,
            ;
        }
        steps as i64
    } else {
        // position == -(behind + 1), so its chunk lies `behind / size + 1` to the left of 0
        let behind: u64 = (-(position + 1)) as u64;
        let steps: u64 = behind / size;
        proof {
            vstd::arithmetic::div_mod::lemma_fundamental_div_mod(behind as int, size as int);
            vstd::arithmetic::div_mod::lemma_mod_bound(behind as int, size as int);
            assert(chunk_spans(-(steps as int) - 1, size as int, position as int))
                by (nonlinear_arith)
                requires
                    behind == size * steps + (behind as int % size as int),
                    0 <= (behind as int % size as int) < size,
                    position == -(behind as int) - 1,
            ;
        }
        -(steps as i64) - 1
    };
    proof {
        lemma_grid_index_floors(position as int, size as int);
    }
    if floored < i32::MIN as i64 {
        Ok(i32::MIN)
    } else if floored > i32::MAX as i64 {
        Ok(i32::MAX)
    } else {
        Ok(floored as i32)
    }
}

impl WorldPosition {
    /// The viewer's chunk as a coordinate pair.
    pub open spec fn coord(self) -> (i32, i32) {
        (self.chunk_x, self.chunk_z)
    }

    /// A viewer standing in chunk `(chunk_x, chunk_z)`.
    pub fn new(chunk_x: i32, chunk_z: i32) -> (viewer: WorldPosition)
        ensures
            viewer.coord() == (chunk_x, chunk_z),
    {
        WorldPosition { chunk_x, chunk_z }
    }

    /// Moves the viewer to chunk `(chunk_x, chunk_z)` and tells whether that is
    /// another chunk than before. Chunks are reconciled only after a `true`.
    pub fn update(&mut self, chunk_x: i32, chunk_z: i32) -> (changed: bool)
        ensures
            final(self).coord() == (chunk_x, chunk_z),
            changed == (old(self).coord() != (chunk_x, chunk_z)),
    {
        let changed = self.chunk_x != chunk_x || self.chunk_z != chunk_z;
        self.chunk_x = chunk_x;
        self.chunk_z = chunk_z;
        changed
    }
}

/// Follows the viewer to the world position `(x, z)`, given in whole units
/// (each coordinate rounded down), over chunks `chunk_size` units wide: the
/// viewer's chunk becomes the one that holds the position. `Ok(true)` where
/// that is another chunk than before, `Ok(false)` where the viewer stayed in
/// its chunk. With a chunk size of zero the viewer is left where it was.
pub fn update_world_position(
    viewer: &mut WorldPosition,
    x: i64,
    z: i64,
    chunk_size: u32,
) -> (changed: Result<bool, ConfigError>)
    ensures
        chunk_size == 0 ==> changed == Err::<bool, ConfigError>(ConfigError::ZeroChunkSize)
            && *final(viewer) == *old(viewer),
        chunk_size > 0 ==> {
            let target = (
                saturate(grid_index(x as int, chunk_size as int)) as i32,
                saturate(grid_index(z as int, chunk_size as int)) as i32,
            );
            &&& final(viewer).coord() == target
            &&& changed == Ok::<bool, ConfigError>(old(viewer).coord() != target)
        },
{
    let chunk_x = match chunk_index(x, chunk_size) {
        Ok(index) => index,
        Err(error) => {
            return Err(error);
        },
    };
    let chunk_z = match chunk_index(z, chunk_size) {
        Ok(index) => index,
        Err(error) => {
            return Err(error);
        },
    };
    Ok(viewer.update(chunk_x, chunk_z))
}

impl Default for WorldPosition {
    /// The viewer starts in chunk `(0, 0)`.
    fn default() -> (viewer: WorldPosition)
        ensures
            viewer.coord() == (0i32, 0i32),
    {
        WorldPosition { chunk_x: 0, chunk_z: 0 }
    }
}

} // verus!
