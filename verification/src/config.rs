//! The fixed settings of the streamer and the error for settings it cannot work with.

use vstd::prelude::*;

verus! {

/// The side of a chunk, in world units.
pub const CHUNK_SIZE: u32 = 50;

/// How many chunks are kept resident around the viewer's chunk in each direction.
pub const RENDER_DISTANCE: i32 = 3;

/// Into how many steps the terrain mesh of a chunk is divided along each side.
pub const TERRAIN_SUBDIVISIONS: u32 = 50;

/// Into how many steps a chunk is divided along each side when it is searched for water.
pub const WATER_SUBDIVISIONS: u32 = 20;

/// The bits of the water level, one world unit.
pub const WATER_LEVEL_BITS: u32 = 0x3F80_0000;

/// A setting with which nothing can be computed.
#[derive(Clone, Copy, Debug, PartialEq, Eq, Structural)]
pub enum ConfigError {
    /// The chunk size is zero.
    ZeroChunkSize,
    /// A subdivision count is zero.
    ZeroSubdivisions,
}

} // verus!
