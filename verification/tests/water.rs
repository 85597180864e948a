use std::cell::RefCell;
use terrain_chunks::config::{ConfigError, WATER_SUBDIVISIONS};
use terrain_chunks::height::Height;
use terrain_chunks::water::{
    chunk_needs_water, first_wet_point, is_submerged, scan_step, water_level, ScanStep,
};

fn height(value: f32) -> Height {
    Height::from_bits(value.to_bits())
}

#[test]
fn water_level_is_one_unit() {
    assert_eq!(f32::from_bits(water_level().to_bits()), 1.0);
}

#[test]
fn a_height_is_submerged_below_the_water_level_only() {
    assert!(is_submerged(height(0.99999994)));
    assert!(is_submerged(height(0.0)));
    assert!(is_submerged(height(-22.0)));
    assert!(!is_submerged(height(1.0)));
    assert!(!is_submerged(height(1.0000001)));
    assert!(!is_submerged(height(25.0)));
    assert!(!is_submerged(height(f32::NAN)));
}

#[test]
fn one_sample_below_the_level_calls_for_water() {
    for (wet_x, wet_z) in [(0, 0), (3, 1), (20, 20), (0, 20), (20, 0)] {
        let sample = |x: u32, z: u32| {
            if (x, z) == (wet_x, wet_z) {
                height(0.5)
            } else {
                height(2.0)
            }
        };
        assert_eq!(chunk_needs_water(WATER_SUBDIVISIONS, sample), Ok(true));
    }
}

#[test]
fn no_sample_below_the_level_calls_for_no_water() {
    assert_eq!(chunk_needs_water(20, |_, _| height(1.0)), Ok(false));
    assert_eq!(chunk_needs_water(20, |x, z| height(1.0 + (x + z) as f32)), Ok(false));
    assert_eq!(chunk_needs_water(1, |_, _| height(f32::NAN)), Ok(false));
}

#[test]
fn a_wet_point_outside_the_grid_is_not_seen() {
    let sample = |x: u32, z: u32| if x > 4 || z > 4 { height(0.0) } else { height(3.0) };
    assert_eq!(chunk_needs_water(4, sample), Ok(false));
    assert_eq!(chunk_needs_water(5, sample), Ok(true));
}

#[test]
fn every_grid_point_is_sampled_once_row_by_row_when_dry() {
    let seen: RefCell<Vec<(u32, u32)>> = RefCell::new(Vec::new());
    let result = chunk_needs_water(2, |x, z| {
        seen.borrow_mut().push((x, z));
        height(5.0)
    });
    assert_eq!(result, Ok(false));
    assert_eq!(
        seen.into_inner(),
        vec![(0, 0), (1, 0), (2, 0), (0, 1), (1, 1), (2, 1), (0, 2), (1, 2), (2, 2)]
    );
}

#[test]
fn sampling_stops_at_the_first_wet_point() {
    let seen: RefCell<Vec<(u32, u32)>> = RefCell::new(Vec::new());
    let result = chunk_needs_water(20, |x, z| {
        seen.borrow_mut().push((x, z));
        if z == 1 && x >= 2 {
            height(-3.0)
        } else {
            height(1.5)
        }
    });
    assert_eq!(result, Ok(true));
    let seen = seen.into_inner();
    assert_eq!(seen.len(), 21 + 3);
    assert_eq!(seen.last(), Some(&(2, 1)));
}

#[test]
fn zero_subdivisions_are_rejected_before_sampling() {
    let calls = RefCell::new(0);
    let result = chunk_needs_water(0, |_, _| {
        *calls.borrow_mut() += 1;
        height(0.0)
    });
    assert_eq!(result, Err(ConfigError::ZeroSubdivisions));
    assert_eq!(calls.into_inner(), 0);
}

#[test]
fn first_wet_point_is_the_first_in_row_order() {
    let sample = |x: u32, z: u32| {
        if (x, z) == (4, 1) || (x, z) == (0, 2) || (x, z) == (5, 1) {
            height(0.25)
        } else {
            height(7.0)
        }
    };
    assert_eq!(first_wet_point(6, sample), Ok(Some((4, 1))));
    assert_eq!(first_wet_point(3, sample), Ok(Some((0, 2))));
    assert_eq!(first_wet_point(1, sample), Ok(None));
    assert_eq!(first_wet_point(0, sample), Err(ConfigError::ZeroSubdivisions));
}

#[test]
fn first_wet_point_can_be_any_corner() {
    for corner in [(0, 0), (9, 0), (0, 9), (9, 9)] {
        let sample = |x: u32, z: u32| if (x, z) == corner { height(0.0) } else { height(1.0) };
        assert_eq!(first_wet_point(9, sample), Ok(Some(corner)));
    }
}

#[test]
fn scan_ends_at_once_under_water() {
    assert_eq!(scan_step(20, 0, 0, height(0.5)), ScanStep::Wet);
    assert_eq!(scan_step(20, 20, 20, height(-1.0)), ScanStep::Wet);
    assert_eq!(scan_step(20, 7, 3, height(0.99999994)), ScanStep::Wet);
}

#[test]
fn scan_goes_on_row_by_row_above_water() {
    assert_eq!(scan_step(20, 0, 0, height(1.0)), ScanStep::Sample { x: 1, z: 0 });
    assert_eq!(scan_step(20, 19, 4, height(2.0)), ScanStep::Sample { x: 20, z: 4 });
    assert_eq!(scan_step(20, 20, 4, height(2.0)), ScanStep::Sample { x: 0, z: 5 });
    assert_eq!(scan_step(20, 20, 19, height(2.0)), ScanStep::Sample { x: 0, z: 20 });
    assert_eq!(scan_step(20, 20, 20, height(2.0)), ScanStep::Dry);
    assert_eq!(scan_step(u32::MAX, u32::MAX, u32::MAX, height(2.0)), ScanStep::Dry);
    assert_eq!(scan_step(1, 1, 1, height(f32::NAN)), ScanStep::Dry);
}

#[test]
fn scan_steps_visit_the_whole_grid_once() {
    let mut visited = vec![(0u32, 0u32)];
    let mut step = scan_step(3, 0, 0, height(9.0));
    while let ScanStep::Sample { x, z } = step {
        visited.push((x, z));
        step = scan_step(3, x, z, height(9.0));
    }
    assert_eq!(step, ScanStep::Dry);
    assert_eq!(visited.len(), 16);
    for z in 0..=3u32 {
        for x in 0..=3u32 {
            assert_eq!(visited[(z * 4 + x) as usize], (x, z));
        }
    }
}
