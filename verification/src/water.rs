//! Whether a chunk needs a water plane.

use crate::config::{ConfigError, WATER_LEVEL_BITS};
use crate::height::Height;
use vstd::prelude::*;

verus! {

/// The water level.
pub open spec fn water_level_of() -> Height {
    Height { bits: WATER_LEVEL_BITS }
}

/// The water level: one world unit.
pub fn water_level() -> (level: Height)
    ensures
        level == water_level_of(),
{
    Height { bits: WATER_LEVEL_BITS }
}

/// `height` lies under water.
pub open spec fn submerged(height: Height) -> bool {
    height.below(water_level_of())
}

/// Grid point `(x, z)` is one of the `(subdivisions + 1)` by
/// `(subdivisions + 1)` points at which a chunk is sampled.
pub open spec fn on_grid(subdivisions: u32, x: u32, z: u32) -> bool {
    x <= subdivisions && z <= subdivisions
}

/// Whether the terrain height `height` calls for water.
pub fn is_submerged(height: Height) -> (wet: bool)
    ensures
        wet == submerged(height),
{
    height.is_below(&water_level())
}

/// Grid point `a` is sampled before grid point `b`: the points are taken row
/// by row, `z` outermost.
pub open spec fn sampled_before(a: (u32, u32), b: (u32, u32)) -> bool {
    a.1 < b.1 || (a.1 == b.1 && a.0 < b.0)
}

/// `sample` can give a height above water, or none at all, at grid point `(x, z)`.
pub open spec fn can_be_dry<F: Fn(u32, u32) -> Height>(sample: F, x: u32, z: u32) -> bool {
    exists|height: Height| #[trigger] call_ensures(sample, (x, z), height) && !submerged(height)
}

/// `sample` can give a height under water at grid point `(x, z)`.
pub open spec fn can_be_wet<F: Fn(u32, u32) -> Height>(sample: F, x: u32, z: u32) -> bool {
    exists|height: Height| #[trigger] call_ensures(sample, (x, z), height) && submerged(height)
}

/// What the search for water does after it has sampled a grid point.
#[derive(Clone, Copy, Debug, PartialEq, Eq, Structural)]
pub enum ScanStep {
    /// The search goes on with the sample at this grid point.
    Sample { x: u32, z: u32 },
    /// The search has ended: the point just sampled lies under water.
    Wet,
    /// The search has ended: the grid is used up and no point lay under water.
    Dry,
}

/// What the search does after the height at grid point `(x, z)` came out as
/// `height`: it ends at once where that lies under water, and otherwise goes
/// on with the next point of the row, then with the first of the next row,
/// until the grid is used up.
pub open spec fn step_after(subdivisions: u32, x: u32, z: u32, height: Height) -> ScanStep {
    if submerged(height) {
        ScanStep::Wet
    } else if x < subdivisions {
        ScanStep::Sample { x: (x + 1) as u32, z }
    } else if z < subdivisions {
        ScanStep::Sample { x: 0, z: (z + 1) as u32 }
    } else {
        ScanStep::Dry
    }
}

/// Decides how the search for water goes on after the height at grid point
/// `(x, z)` came out as `height`.
pub fn scan_step(subdivisions: u32, x: u32, z: u32, height: Height) -> (step: ScanStep)
    ensures
        step == step_after(subdivisions, x, z, height),
        step matches ScanStep::Sample { x: next_x, z: next_z } ==> (on_grid(subdivisions, x, z)
            ==> on_grid(subdivisions, next_x, next_z)) && sampled_before((x, z), (next_x, next_z)),
{
    if is_submerged(height) {
        ScanStep::Wet
    } else if x < subdivisions {
        ScanStep::Sample { x: x + 1, z }
    } else if z < subdivisions {
        ScanStep::Sample { x: 0, z: z + 1 }
    } else {
        ScanStep::Dry
    }
}

/// The first point of the sampling grid at which the terrain lies under
/// water, if there is one. `sample` gives the terrain height at a grid point
/// `(x, z)`, both from `0` to `subdivisions`. The search begins at `(0, 0)`
/// and samples what `scan_step` says, so the points are taken row by row, `z`
/// outermost, and none is sampled after the one that is returned. Zero
/// subdivisions are an error, and then nothing is sampled.
pub fn first_wet_point<F: Fn(u32, u32) -> Height>(subdivisions: u32, sample: F) -> (found: Result<
    Option<(u32, u32)>,
    ConfigError,
>)
    requires
        forall|x: u32, z: u32| #[trigger]
            on_grid(subdivisions, x, z) ==> call_requires(sample, (x, z)),
    ensures
        subdivisions == 0 ==> found == Err::<Option<(u32, u32)>, ConfigError>(
            ConfigError::ZeroSubdivisions,
        ),
        subdivisions > 0 ==> found is Ok,
        found matches Ok(Some(point)) ==> {
            &&& on_grid(subdivisions, point.0, point.1)
            &&& can_be_wet(sample, point.0, point.1)
            &&& forall|x: u32, z: u32| #[trigger]
                on_grid(subdivisions, x, z) && sampled_before((x, z), point) ==> can_be_dry(
                    sample,
                    x,
                    z,
                )
        },
        found matches Ok(None) ==> forall|x: u32, z: u32| #[trigger]
            on_grid(subdivisions, x, z) ==> can_be_dry(sample, x, z),
{
    if subdivisions == 0 {
        return Err(ConfigError::ZeroSubdivisions);
    }
    let mut x: u32 = 0;
    let mut z: u32 = 0;
    loop
        invariant
            0 < subdivisions,
            on_grid(subdivisions, x, z),
            forall|x: u32, z: u32| #[trigger]
                on_grid(subdivisions, x, z) ==> call_requires(sample, (x, z)),
            forall|px: u32, pz: u32| #[trigger]
                on_grid(subdivisions, px, pz) && sampled_before((px, pz), (x, z)) ==> can_be_dry(
                    sample,
                    px,
                    pz,
                ),
        decreases subdivisions - z, subdivisions - x,
    {
        let height = sample(x, z);
        match scan_step(subdivisions, x, z, height) {
            ScanStep::Wet => {
                assert(call_ensures(sample, (x, z), height) && submerged(height));
                return Ok(Some((x, z)));
            },
            ScanStep::Sample { x: next_x, z: next_z } => {
                assert(call_ensures(sample, (x, z), height) && !submerged(height));
                assert(can_be_dry(sample, x, z));
                x = next_x;
                z = next_z;
            },
            ScanStep::Dry => {
                assert(call_ensures(sample, (x, z), height) && !submerged(height));
                assert(can_be_dry(sample, x, z));
                return Ok(None);
            },
        }
    }
}

/// Whether a chunk needs a water plane: whether the terrain lies under water
/// at any point of the sampling grid, as `first_wet_point` finds it. The
/// plane, where needed, covers the whole chunk.
pub fn chunk_needs_water<F: Fn(u32, u32) -> Height>(subdivisions: u32, sample: F) -> (needed:
    Result<bool, ConfigError>)
    requires
        forall|x: u32, z: u32| #[trigger]
            on_grid(subdivisions, x, z) ==> call_requires(sample, (x, z)),
    ensures
        subdivisions == 0 ==> needed == Err::<bool, ConfigError>(ConfigError::ZeroSubdivisions),
        subdivisions > 0 ==> needed is Ok,
        needed == Ok::<bool, ConfigError>(true) ==> exists|x: u32, z: u32|
            #[trigger] on_grid(subdivisions, x, z) && can_be_wet(sample, x, z),
        needed == Ok::<bool, ConfigError>(false) ==> forall|x: u32, z: u32| #[trigger]
            on_grid(subdivisions, x, z) ==> can_be_dry(sample, x, z),
{
    match first_wet_point(subdivisions, sample) {
        Ok(Some(point)) => {
            assert(on_grid(subdivisions, point.0, point.1) && can_be_wet(sample, point.0, point.1));
            Ok(true)
        },
        Ok(None) => Ok(false),
        Err(error) => Err(error),
    }
}

} // verus!
