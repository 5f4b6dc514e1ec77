use falling_sand::bitplane::{set_pixel, BitPlane};
use falling_sand::density::{calculate_screen_density, performance_plan};
use falling_sand::dirty::dirty_row_intervals;
use falling_sand::utils::{cos_q16, rand_range, sin_q16};
use rand::SeedableRng;

#[test]
fn density_breakpoints_map_to_plan() {
    assert_eq!(performance_plan(25), (3, 1));
    assert_eq!(performance_plan(26), (2, 1));
    assert_eq!(performance_plan(50), (2, 1));
    assert_eq!(performance_plan(51), (2, 2));
    assert_eq!(performance_plan(75), (2, 2));
    assert_eq!(performance_plan(76), (1, 3));
    assert_eq!(performance_plan(0), (3, 1));
    assert_eq!(performance_plan(100), (1, 3));
}

#[test]
fn density_of_empty_plane_is_zero() {
    let p = BitPlane::new(20, 20);
    assert_eq!(calculate_screen_density(&p), 0);
}

#[test]
fn density_counts_strided_bytes() {
    // 20x20 plane: stride 5, 100 bytes, sampled capacity (100/8)*8 == 96.
    // Lighting the first eight pixels of row 0 fills exactly sampled
    // byte 0, so the estimate is 8 * 100 / 96 == 8.
    let mut p = BitPlane::new(20, 20);
    for x in 0..8 {
        set_pixel(&mut p, x, 0, true);
    }
    assert_eq!(calculate_screen_density(&p), 8);
}

#[test]
fn dirty_interval_coalescing() {
    let mask = vec![false, true, true, false, false, true, false];
    let intervals = dirty_row_intervals(&mask);
    assert_eq!(intervals, vec![(1, 3), (5, 6)]);
}

#[test]
fn dirty_interval_open_at_end() {
    let mask = vec![false, true, true];
    let intervals = dirty_row_intervals(&mask);
    assert_eq!(intervals, vec![(1, 3)]);
}

#[test]
fn dirty_interval_all_clear() {
    let mask = vec![false; 64];
    let intervals = dirty_row_intervals(&mask);
    assert!(intervals.is_empty());
}

#[test]
fn dirty_interval_all_marked() {
    let mask = vec![true; 5];
    let intervals = dirty_row_intervals(&mask);
    assert_eq!(intervals, vec![(0, 5)]);
}

#[test]
fn sine_exact_cardinal_points() {
    assert_eq!(sin_q16(0), 0);
    assert_eq!(sin_q16(90), 65536);
    assert_eq!(sin_q16(180), 0);
    assert_eq!(sin_q16(270), -65536);
    assert_eq!(sin_q16(360), 0);
    assert_eq!(cos_q16(0), 65536);
    assert_eq!(cos_q16(90), 0);
    assert_eq!(cos_q16(180), -65536);
    assert_eq!(cos_q16(270), 0);
}

#[test]
fn sine_thirty_degrees_is_exactly_half() {
    assert_eq!(sin_q16(30), 32768);
    assert_eq!(sin_q16(150), 32768);
    assert_eq!(sin_q16(210), -32768);
}

#[test]
fn rand_range_respects_bounds() {
    let mut rng = rand::rngs::SmallRng::seed_from_u64(7);
    for _ in 0..200 {
        let v = rand_range(5, 10, &mut rng);
        assert!((5..10).contains(&v));
    }
    assert_eq!(rand_range(9, 9, &mut rng), 9);
    assert_eq!(rand_range(9, 3, &mut rng), 9);
}

#[test]
fn empty_range_draws_nothing() {
    // an empty range must not advance the generator: both generators
    // stay in lockstep afterwards
    let mut a = rand::rngs::SmallRng::seed_from_u64(11);
    let mut b = rand::rngs::SmallRng::seed_from_u64(11);
    assert_eq!(rand_range(9, 3, &mut a), 9);
    assert_eq!(rand_range(4, 4, &mut a), 4);
    for _ in 0..8 {
        assert_eq!(rand_range(0, 1000, &mut a), rand_range(0, 1000, &mut b));
    }
}
