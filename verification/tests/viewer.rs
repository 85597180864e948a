use terrain_chunks::config::{ConfigError, CHUNK_SIZE};
use terrain_chunks::viewer::{chunk_index, update_world_position, WorldPosition};

#[test]
fn position_left_of_origin_is_in_chunk_minus_one() {
    let x: f32 = -1.0;
    assert_eq!(chunk_index(x.floor() as i64, 50), Ok(-1));
    assert_eq!(chunk_index(-1, CHUNK_SIZE), Ok(-1));
}

#[test]
fn chunk_index_floors() {
    assert_eq!(chunk_index(0, 50), Ok(0));
    assert_eq!(chunk_index(49, 50), Ok(0));
    assert_eq!(chunk_index(50, 50), Ok(1));
    assert_eq!(chunk_index(125, 50), Ok(2));
    assert_eq!(chunk_index(-50, 50), Ok(-1));
    assert_eq!(chunk_index(-51, 50), Ok(-2));
    assert_eq!(chunk_index(-100, 50), Ok(-2));
    assert_eq!(chunk_index(-101, 50), Ok(-3));
    assert_eq!(chunk_index(-7, 1), Ok(-7));
}

#[test]
fn chunk_index_agrees_with_floor_of_the_quotient() {
    let positions: [f32; 9] = [-250.5, -100.0, -50.25, -0.5, 0.0, 0.75, 49.999, 50.0, 1234.5];
    for position in positions {
        let expected = (position / 50.0).floor() as i32;
        assert_eq!(chunk_index(position.floor() as i64, 50), Ok(expected), "at {}", position);
    }
}

#[test]
fn chunk_index_saturates() {
    assert_eq!(chunk_index(i64::MAX, 1), Ok(i32::MAX));
    assert_eq!(chunk_index(i64::MIN, 1), Ok(i32::MIN));
    assert_eq!(chunk_index(i64::MIN, u32::MAX), Ok(i32::MIN));
    assert_eq!(chunk_index(i64::MAX, u32::MAX), Ok(i32::MAX));
    assert_eq!(chunk_index(i64::MAX, u32::MAX - 1), Ok(i32::MAX));
    assert_eq!(chunk_index((i32::MAX as i64) * 50 + 49, 50), Ok(i32::MAX));
    assert_eq!(chunk_index((i32::MIN as i64) * 50, 50), Ok(i32::MIN));
    assert_eq!(chunk_index((i32::MIN as i64) * 50 - 1, 50), Ok(i32::MIN));
}

#[test]
fn chunk_index_rejects_zero_chunk_size() {
    assert_eq!(chunk_index(10, 0), Err(ConfigError::ZeroChunkSize));
    assert_eq!(chunk_index(-10, 0), Err(ConfigError::ZeroChunkSize));
}

#[test]
fn viewer_starts_in_chunk_zero() {
    let viewer = WorldPosition::default();
    assert_eq!((viewer.chunk_x, viewer.chunk_z), (0, 0));
}

#[test]
fn update_reports_a_change_only_when_the_chunk_differs() {
    let mut viewer = WorldPosition::new(0, 0);
    assert!(!viewer.update(0, 0));
    assert!(viewer.update(1, 0));
    assert_eq!(viewer, WorldPosition::new(1, 0));
    assert!(!viewer.update(1, 0));
    assert!(viewer.update(1, -1));
    assert_eq!(viewer, WorldPosition::new(1, -1));
}

#[test]
fn viewer_changes_chunk_only_at_a_boundary() {
    let mut viewer = WorldPosition::default();
    assert_eq!(update_world_position(&mut viewer, 10, 10, 50), Ok(false));
    assert_eq!(update_world_position(&mut viewer, 49, 0, 50), Ok(false));
    assert_eq!(update_world_position(&mut viewer, 50, 0, 50), Ok(true));
    assert_eq!(viewer, WorldPosition::new(1, 0));
    assert_eq!(update_world_position(&mut viewer, 99, 49, 50), Ok(false));
    assert_eq!(update_world_position(&mut viewer, 99, -1, 50), Ok(true));
    assert_eq!(viewer, WorldPosition::new(1, -1));
}

#[test]
fn viewer_stays_put_with_zero_chunk_size() {
    let mut viewer = WorldPosition::new(3, 4);
    assert_eq!(update_world_position(&mut viewer, 500, 500, 0), Err(ConfigError::ZeroChunkSize));
    assert_eq!(viewer, WorldPosition::new(3, 4));
}
