use terrain_chunks::config::CHUNK_SIZE;
use terrain_chunks::height::Height;
use terrain_chunks::terrain::{
    terrain_band, ColorStop, Rgba, TerrainBand, TerrainChunk, EIGHT_TENTHS, FIVE_TENTHS,
    FOUR_TENTHS, NINE_TENTHS, ONE, SEVEN_TENTHS, SIX_TENTHS, THREE_TENTHS, TWO_TENTHS,
};

fn height(value: f32) -> Height {
    Height::from_bits(value.to_bits())
}

fn channels(color: Rgba) -> [f32; 4] {
    [
        f32::from_bits(color.red),
        f32::from_bits(color.green),
        f32::from_bits(color.blue),
        f32::from_bits(color.alpha),
    ]
}

fn lerp(from: [f32; 4], to: [f32; 4], t: f32) -> [f32; 4] {
    let t = t.clamp(0.0, 1.0);
    [
        from[0] + (to[0] - from[0]) * t,
        from[1] + (to[1] - from[1]) * t,
        from[2] + (to[2] - from[2]) * t,
        from[3] + (to[3] - from[3]) * t,
    ]
}

/// The colour of a height, blended as a renderer would from what the library says.
fn color(value: f32) -> [f32; 4] {
    let band = terrain_band(height(value));
    let (lower, upper) = (band.lower(), band.upper());
    if !band.is_blend() {
        return channels(lower.color());
    }
    let low = f32::from_bits(lower.level().to_bits());
    let high = f32::from_bits(upper.level().to_bits());
    lerp(channels(lower.color()), channels(upper.color()), (value - low) / (high - low))
}

const SAND: [f32; 4] = [0.8, 0.7, 0.4, 1.0];
const GRASS: [f32; 4] = [0.3, 0.6, 0.2, 1.0];
const ROCK: [f32; 4] = [0.5, 0.4, 0.3, 1.0];
const SNOW: [f32; 4] = [0.9, 0.9, 0.9, 1.0];

#[test]
fn stop_colors_are_the_bits_of_their_channels() {
    assert_eq!(channels(ColorStop::Sand.color()), SAND);
    assert_eq!(channels(ColorStop::Grass.color()), GRASS);
    assert_eq!(channels(ColorStop::Rock.color()), ROCK);
    assert_eq!(channels(ColorStop::Snow.color()), SNOW);
}

#[test]
fn stop_levels_are_the_ramp_thresholds() {
    assert_eq!(f32::from_bits(ColorStop::Sand.level().to_bits()), 0.3);
    assert_eq!(f32::from_bits(ColorStop::Grass.level().to_bits()), 1.5);
    assert_eq!(f32::from_bits(ColorStop::Rock.level().to_bits()), 3.0);
    assert_eq!(f32::from_bits(ColorStop::Snow.level().to_bits()), 4.0);
}

#[test]
fn bands_follow_the_thresholds() {
    assert_eq!(terrain_band(height(-5.0)), TerrainBand::Sand);
    assert_eq!(terrain_band(height(0.0)), TerrainBand::Sand);
    assert_eq!(terrain_band(height(0.29999998)), TerrainBand::Sand);
    assert_eq!(terrain_band(height(0.3)), TerrainBand::SandToGrass);
    assert_eq!(terrain_band(height(1.0)), TerrainBand::SandToGrass);
    assert_eq!(terrain_band(height(1.4999999)), TerrainBand::SandToGrass);
    assert_eq!(terrain_band(height(1.5)), TerrainBand::GrassToRock);
    assert_eq!(terrain_band(height(2.9999998)), TerrainBand::GrassToRock);
    assert_eq!(terrain_band(height(3.0)), TerrainBand::RockToSnow);
    assert_eq!(terrain_band(height(3.9999998)), TerrainBand::RockToSnow);
    assert_eq!(terrain_band(height(4.0)), TerrainBand::Snow);
    assert_eq!(terrain_band(height(10.0)), TerrainBand::Snow);
    assert_eq!(terrain_band(height(f32::INFINITY)), TerrainBand::Snow);
    assert_eq!(terrain_band(height(f32::NEG_INFINITY)), TerrainBand::Sand);
    assert_eq!(terrain_band(height(f32::NAN)), TerrainBand::Snow);
}

#[test]
fn band_ends_are_neighbouring_stops() {
    let bands = [
        (TerrainBand::Sand, ColorStop::Sand, ColorStop::Sand, false),
        (TerrainBand::SandToGrass, ColorStop::Sand, ColorStop::Grass, true),
        (TerrainBand::GrassToRock, ColorStop::Grass, ColorStop::Rock, true),
        (TerrainBand::RockToSnow, ColorStop::Rock, ColorStop::Snow, true),
        (TerrainBand::Snow, ColorStop::Snow, ColorStop::Snow, false),
    ];
    for (band, lower, upper, blend) in bands {
        assert_eq!(band.lower(), lower);
        assert_eq!(band.upper(), upper);
        assert_eq!(band.is_blend(), blend);
    }
    for pair in bands.windows(2) {
        assert_eq!(pair[0].2, pair[1].1);
    }
}

#[test]
fn ramp_is_continuous_at_the_sand_level() {
    assert_eq!(terrain_band(height(0.3)).lower(), ColorStop::Sand);
    assert_eq!(color(0.3), SAND);
}

#[test]
fn ramp_reaches_each_stop_at_its_level() {
    assert_eq!(color(1.5), GRASS);
    assert_eq!(color(3.0), ROCK);
    assert_eq!(color(4.0), SNOW);
}

#[test]
fn ramp_is_clamped_at_both_ends() {
    assert_eq!(color(-5.0), SAND);
    assert_eq!(color(0.0), SAND);
    assert_eq!(color(-5.0), color(0.0));
    assert_eq!(color(10.0), SNOW);
}

#[test]
fn ramp_blends_halfway_between_stops() {
    let mid = color(0.9);
    for channel in 0..4 {
        let expected = SAND[channel] + (GRASS[channel] - SAND[channel]) * ((0.9 - 0.3) / (1.5 - 0.3));
        assert_eq!(mid[channel], expected);
    }
    let upper = color(3.5);
    for channel in 0..3 {
        assert!((upper[channel] - 0.5 * (ROCK[channel] + SNOW[channel])).abs() < 1.0e-6);
    }
}

#[test]
fn chunk_mark_holds_the_coordinate() {
    let chunk = TerrainChunk::new((3, -2));
    assert_eq!((chunk.chunk_x, chunk.chunk_z), (3, -2));
}

#[test]
fn world_offset_is_the_coordinate_times_the_chunk_size() {
    assert_eq!(TerrainChunk::new((0, 0)).world_offset(CHUNK_SIZE), (0, 0));
    assert_eq!(TerrainChunk::new((3, -2)).world_offset(CHUNK_SIZE), (150, -100));
    assert_eq!(
        TerrainChunk::new((i32::MIN, i32::MAX)).world_offset(u32::MAX),
        (-2147483648i64 * 4294967295i64, 2147483647i64 * 4294967295i64)
    );
}

#[test]
fn channel_constants_are_the_bits_of_their_values() {
    assert_eq!(TWO_TENTHS, 0.2f32.to_bits());
    assert_eq!(THREE_TENTHS, 0.3f32.to_bits());
    assert_eq!(FOUR_TENTHS, 0.4f32.to_bits());
    assert_eq!(FIVE_TENTHS, 0.5f32.to_bits());
    assert_eq!(SIX_TENTHS, 0.6f32.to_bits());
    assert_eq!(SEVEN_TENTHS, 0.7f32.to_bits());
    assert_eq!(EIGHT_TENTHS, 0.8f32.to_bits());
    assert_eq!(NINE_TENTHS, 0.9f32.to_bits());
    assert_eq!(ONE, 1.0f32.to_bits());
}
