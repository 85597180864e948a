//! The colour ramp of the terrain: which colours a height lies between.

use crate::height::Height;
use vstd::prelude::*;

verus! {

/// The bits of the height from which sand begins to turn into grass: three tenths of a unit.
pub const SAND_LEVEL_BITS: u32 = 0x3E99_999A;

/// The bits of the height at which grass is reached: one unit and a half.
pub const GRASS_LEVEL_BITS: u32 = 0x3FC0_0000;

/// The bits of the height at which rock is reached: three units.
pub const ROCK_LEVEL_BITS: u32 = 0x4040_0000;

/// The bits of the height at which snow is reached: four units.
pub const SNOW_LEVEL_BITS: u32 = 0x4080_0000;

/// The bits of the colour channel values, in single precision.
pub const TWO_TENTHS: u32 = 0x3E4C_CCCD;

pub const THREE_TENTHS: u32 = 0x3E99_999A;

pub const FOUR_TENTHS: u32 = 0x3ECC_CCCD;

pub const FIVE_TENTHS: u32 = 0x3F00_0000;

pub const SIX_TENTHS: u32 = 0x3F19_999A;

pub const SEVEN_TENTHS: u32 = 0x3F33_3333;

pub const EIGHT_TENTHS: u32 = 0x3F4C_CCCD;

pub const NINE_TENTHS: u32 = 0x3F66_6666;

pub const ONE: u32 = 0x3F80_0000;

/// The chunk that a terrain or water entity belongs to.
#[derive(Clone, Copy, Debug, PartialEq, Eq, Structural)]
pub struct TerrainChunk {
    pub chunk_x: i32,
    pub chunk_z: i32,
}

impl TerrainChunk {
    /// The chunk's coordinate pair.
    pub open spec fn coord(self) -> (i32, i32) {
        (self.chunk_x, self.chunk_z)
    }

    /// The mark for an entity of chunk `coord`.
    pub fn new(coord: (i32, i32)) -> (chunk: TerrainChunk)
        ensures
            chunk.coord() == coord,
    {
        TerrainChunk { chunk_x: coord.0, chunk_z: coord.1 }
    }

    /// The world position, in whole units, at which the chunk's meshes are
    /// placed, for chunks `chunk_size` units wide: `chunk_size` times the
    /// coordinate on each axis. Neighbouring chunks lie `chunk_size` apart.
    pub fn world_offset(&self, chunk_size: u32) -> (offset: (i64, i64))
        ensures
            offset.0 == self.chunk_x * chunk_size,
            offset.1 == self.chunk_z * chunk_size,
    {
        proof {
            assert(-0x8000_0000 * 0xFFFF_FFFF <= self.chunk_x * chunk_size <= 0x8000_0000
                * 0xFFFF_FFFF) by (nonlinear_arith)
                requires
                    -0x8000_0000 <= self.chunk_x <= 0x8000_0000,
                    0 <= chunk_size <= 0xFFFF_FFFF,
            ;
            assert(-0x8000_0000 * 0xFFFF_FFFF <= self.chunk_z * chunk_size <= 0x8000_0000
                * 0xFFFF_FFFF) by (nonlinear_arith)
                requires
                    -0x8000_0000 <= self.chunk_z <= 0x8000_0000,
                    0 <= chunk_size <= 0xFFFF_FFFF,
            ;
        }
        (self.chunk_x as i64 * chunk_size as i64, self.chunk_z as i64 * chunk_size as i64)
    }
}

/// A colour by its four channels, each the bits of a single-precision value
/// between zero and one.
#[derive(Clone, Copy, Debug, PartialEq, Eq, Structural)]
pub struct Rgba {
    pub red: u32,
    pub green: u32,
    pub blue: u32,
    pub alpha: u32,
}

/// The four colours that the ramp passes through, from low to high ground.
#[derive(Clone, Copy, Debug, PartialEq, Eq, Structural)]
pub enum ColorStop {
    Sand,
    Grass,
    Rock,
    Snow,
}

/// The stretch of the ramp that a height lies in. Below the ramp the colour is
/// sand and above it snow; in between it is blended from the stops at the two
/// ends of the stretch.
#[derive(Clone, Copy, Debug, PartialEq, Eq, Structural)]
pub enum TerrainBand {
    Sand,
    SandToGrass,
    GrassToRock,
    RockToSnow,
    Snow,
}

impl ColorStop {
    /// The height at which the ramp shows this colour unblended.
    pub open spec fn level_of(self) -> Height {
        match self {
            ColorStop::Sand => Height { bits: SAND_LEVEL_BITS },
            ColorStop::Grass => Height { bits: GRASS_LEVEL_BITS },
            ColorStop::Rock => Height { bits: ROCK_LEVEL_BITS },
            ColorStop::Snow => Height { bits: SNOW_LEVEL_BITS },
        }
    }

    /// The colour of this stop: sand (.8, .7, .4), grass (.3, .6, .2),
    /// rock (.5, .4, .3), snow (.9, .9, .9), each opaque.
    pub open spec fn color_of(self) -> Rgba {
        match self {
            ColorStop::Sand => Rgba {
                red: EIGHT_TENTHS,
                green: SEVEN_TENTHS,
                blue: FOUR_TENTHS,
                alpha: ONE,
            },
            ColorStop::Grass => Rgba {
                red: THREE_TENTHS,
                green: SIX_TENTHS,
                blue: TWO_TENTHS,
                alpha: ONE,
            },
            ColorStop::Rock => Rgba {
                red: FIVE_TENTHS,
                green: FOUR_TENTHS,
                blue: THREE_TENTHS,
                alpha: ONE,
            },
            ColorStop::Snow => Rgba {
                red: NINE_TENTHS,
                green: NINE_TENTHS,
                blue: NINE_TENTHS,
                alpha: ONE,
            },
        }
    }

    /// The height at which the ramp shows this colour unblended.
    pub fn level(&self) -> (level: Height)
        ensures
            level == self.level_of(),
    {
        match self {
            ColorStop::Sand => Height { bits: SAND_LEVEL_BITS },
            ColorStop::Grass => Height { bits: GRASS_LEVEL_BITS },
            ColorStop::Rock => Height { bits: ROCK_LEVEL_BITS },
            ColorStop::Snow => Height { bits: SNOW_LEVEL_BITS },
        }
    }

    /// The colour of this stop.
    pub fn color(&self) -> (color: Rgba)
        ensures
            color == self.color_of(),
    {
        match self {
            ColorStop::Sand => Rgba {
                red: EIGHT_TENTHS,
                green: SEVEN_TENTHS,
                blue: FOUR_TENTHS,
                alpha: ONE,
            },
            ColorStop::Grass => Rgba {
                red: THREE_TENTHS,
                green: SIX_TENTHS,
                blue: TWO_TENTHS,
                alpha: ONE,
            },
            ColorStop::Rock => Rgba {
                red: FIVE_TENTHS,
                green: FOUR_TENTHS,
                blue: THREE_TENTHS,
                alpha: ONE,
            },
            ColorStop::Snow => Rgba {
                red: NINE_TENTHS,
                green: NINE_TENTHS,
                blue: NINE_TENTHS,
                alpha: ONE,
            },
        }
    }
}

impl TerrainBand {
    /// The stop at the low end of the stretch.
    pub open spec fn lower_of(self) -> ColorStop {
        match self {
            TerrainBand::Sand => ColorStop::Sand,
            TerrainBand::SandToGrass => ColorStop::Sand,
            TerrainBand::GrassToRock => ColorStop::Grass,
            TerrainBand::RockToSnow => ColorStop::Rock,
            TerrainBand::Snow => ColorStop::Snow,
        }
    }

    /// The stop at the high end of the stretch.
    pub open spec fn upper_of(self) -> ColorStop {
        match self {
            TerrainBand::Sand => ColorStop::Sand,
            TerrainBand::SandToGrass => ColorStop::Grass,
            TerrainBand::GrassToRock => ColorStop::Rock,
            TerrainBand::RockToSnow => ColorStop::Snow,
            TerrainBand::Snow => ColorStop::Snow,
        }
    }

    /// The place of the stretch on the ramp, counted from the lowest.
    pub open spec fn place(self) -> int {
        match self {
            TerrainBand::Sand => 0,
            TerrainBand::SandToGrass => 1,
            TerrainBand::GrassToRock => 2,
            TerrainBand::RockToSnow => 3,
            TerrainBand::Snow => 4,
        }
    }

    /// The stop at the low end of the stretch: the colour at its lowest height.
    pub fn lower(&self) -> (stop: ColorStop)
        ensures
            stop == self.lower_of(),
    {
        match self {
            TerrainBand::Sand => ColorStop::Sand,
            TerrainBand::SandToGrass => ColorStop::Sand,
            TerrainBand::GrassToRock => ColorStop::Grass,
            TerrainBand::RockToSnow => ColorStop::Rock,
            TerrainBand::Snow => ColorStop::Snow,
        }
    }

    /// The stop at the high end of the stretch: the colour that the blend approaches.
    pub fn upper(&self) -> (stop: ColorStop)
        ensures
            stop == self.upper_of(),
    {
        match self {
            TerrainBand::Sand => ColorStop::Sand,
            TerrainBand::SandToGrass => ColorStop::Grass,
            TerrainBand::GrassToRock => ColorStop::Rock,
            TerrainBand::RockToSnow => ColorStop::Snow,
            TerrainBand::Snow => ColorStop::Snow,
        }
    }

    /// Whether the colour of the stretch is blended from two stops.
    pub fn is_blend(&self) -> (blend: bool)
        ensures
            blend == (self.lower_of() != self.upper_of()),
    {
        match self {
            TerrainBand::Sand => false,
            TerrainBand::SandToGrass => true,
            TerrainBand::GrassToRock => true,
            TerrainBand::RockToSnow => true,
            TerrainBand::Snow => false,
        }
    }
}

/// The stretch of the ramp for a height: sand below the sand level, then a
/// stretch from each stop up to the next, each without its upper end, and snow
/// from the snow level on. A height that is no number counts as snow.
pub open spec fn band_of(height: Height) -> TerrainBand {
    if height.below(ColorStop::Sand.level_of()) {
        TerrainBand::Sand
    } else if height.below(ColorStop::Grass.level_of()) {
        TerrainBand::SandToGrass
    } else if height.below(ColorStop::Rock.level_of()) {
        TerrainBand::GrassToRock
    } else if height.below(ColorStop::Snow.level_of()) {
        TerrainBand::RockToSnow
    } else {
        TerrainBand::Snow
    }
}

/// The stretch of the colour ramp that `height` lies in.
pub fn terrain_band(height: Height) -> (band: TerrainBand)
    ensures
        band == band_of(height),
{
    if height.is_below(&ColorStop::Sand.level()) {
        TerrainBand::Sand
    } else if height.is_below(&ColorStop::Grass.level()) {
        TerrainBand::SandToGrass
    } else if height.is_below(&ColorStop::Rock.level()) {
        TerrainBand::GrassToRock
    } else if height.is_below(&ColorStop::Snow.level()) {
        TerrainBand::RockToSnow
    } else {
        TerrainBand::Snow
    }
}

/// The levels of the four stops rise from sand to snow.
pub proof fn lemma_levels_rise()
    ensures
        ColorStop::Sand.level_of().below(ColorStop::Grass.level_of()),
        ColorStop::Grass.level_of().below(ColorStop::Rock.level_of()),
        ColorStop::Rock.level_of().below(ColorStop::Snow.level_of()),
{
    ColorStop::Sand.level_of().lemma_magnitude_orders(ColorStop::Grass.level_of());
    ColorStop::Grass.level_of().lemma_magnitude_orders(ColorStop::Rock.level_of());
    ColorStop::Rock.level_of().lemma_magnitude_orders(ColorStop::Snow.level_of());
}

/// The ramp has no jump: at the level of a stop the stretch begins with that
/// stop, so the colour there is the stop's own, and each stretch ends with
/// the stop that the next one begins with.
pub proof fn lemma_ramp_is_continuous(stop: ColorStop)
    ensures
        band_of(stop.level_of()).lower_of() == stop,
        forall|low: TerrainBand, high: TerrainBand|
            #![trigger low.upper_of(), high.lower_of()]
            high.place() == low.place() + 1 ==> low.upper_of() == high.lower_of(),
{
    lemma_levels_rise();
    let level = stop.level_of();
    level.lemma_magnitude_orders(ColorStop::Sand.level_of());
    level.lemma_magnitude_orders(ColorStop::Grass.level_of());
    level.lemma_magnitude_orders(ColorStop::Rock.level_of());
    level.lemma_magnitude_orders(ColorStop::Snow.level_of());
}

/// The ramp is clamped at both ends and rises in between: every height below
/// the sand level is sand, every height not below the snow level is snow, and
/// a higher height never lies in a lower stretch.
pub proof fn lemma_ramp_is_clamped_and_rises(low: Height, high: Height)
    ensures
        low.below(ColorStop::Sand.level_of()) ==> band_of(low) == TerrainBand::Sand,
        !low.below(ColorStop::Snow.level_of()) ==> band_of(low) == TerrainBand::Snow,
        low.below(high) ==> band_of(low).place() <= band_of(high).place(),
{
    lemma_levels_rise();
    if !low.below(ColorStop::Snow.level_of()) && !low.nan() {
        // what is not below snow is below nothing lower
        assert(!low.below(ColorStop::Rock.level_of()));
        assert(!low.below(ColorStop::Grass.level_of()));
        assert(!low.below(ColorStop::Sand.level_of()));
    }
}

} // verus!
