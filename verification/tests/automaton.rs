use falling_sand::automaton::{update_pixel_with_velocity, update_sand_with_velocity};
use falling_sand::bitplane::{get_pixel, set_pixel, BitPlane};
use falling_sand::dirty::dirty_row_intervals;
use falling_sand::velocity::{get_velocity, set_velocity, SandVelocity, VelocityField};

fn count_particles(p: &BitPlane) -> usize {
    let mut n = 0;
    for y in 0..p.height {
        for x in 0..p.width {
            if get_pixel(p, x, y) {
                n += 1;
            }
        }
    }
    n
}

fn one_pass(sand: &mut BitPlane, plat: &BitPlane, vel: &mut VelocityField) -> Vec<bool> {
    let mut mask = vec![false; sand.height];
    update_sand_with_velocity(sand, plat, vel, &mut mask, 1);
    mask
}

#[test]
fn single_particle_falls_straight_down() {
    let mut sand = BitPlane::new(20, 20);
    let plat = BitPlane::new(20, 20);
    let mut vel = VelocityField::new(20, 20);
    set_pixel(&mut sand, 10, 0, true);
    one_pass(&mut sand, &plat, &mut vel);
    assert!(!get_pixel(&sand, 10, 0));
    assert!(get_pixel(&sand, 10, 1));
}

#[test]
fn blocked_particle_slides_down_right() {
    let mut sand = BitPlane::new(20, 20);
    let mut plat = BitPlane::new(20, 20);
    let mut vel = VelocityField::new(20, 20);
    set_pixel(&mut sand, 10, 0, true);
    set_pixel(&mut plat, 10, 1, true);
    set_pixel(&mut plat, 9, 1, true);
    one_pass(&mut sand, &mut plat, &mut vel);
    assert!(!get_pixel(&sand, 10, 0));
    assert!(get_pixel(&sand, 11, 1));
}

#[test]
fn blocked_particle_prefers_down_left() {
    let mut sand = BitPlane::new(20, 20);
    let mut plat = BitPlane::new(20, 20);
    let mut vel = VelocityField::new(20, 20);
    set_pixel(&mut sand, 10, 0, true);
    set_pixel(&mut plat, 10, 1, true);
    one_pass(&mut sand, &mut plat, &mut vel);
    assert!(!get_pixel(&sand, 10, 0));
    assert!(get_pixel(&sand, 9, 1));
}

#[test]
fn fully_blocked_particle_stays() {
    let mut sand = BitPlane::new(20, 20);
    let mut plat = BitPlane::new(20, 20);
    let mut vel = VelocityField::new(20, 20);
    set_pixel(&mut sand, 10, 5, true);
    set_pixel(&mut plat, 9, 6, true);
    set_pixel(&mut plat, 10, 6, true);
    set_pixel(&mut plat, 11, 6, true);
    one_pass(&mut sand, &mut plat, &mut vel);
    assert!(get_pixel(&sand, 10, 5));
}

#[test]
fn bottom_row_particle_never_moves() {
    let mut sand = BitPlane::new(20, 20);
    let plat = BitPlane::new(20, 20);
    let mut vel = VelocityField::new(20, 20);
    set_pixel(&mut sand, 10, 19, true);
    for _ in 0..5 {
        one_pass(&mut sand, &plat, &mut vel);
    }
    assert!(get_pixel(&sand, 10, 19));
    assert_eq!(count_particles(&sand), 1);
}

#[test]
fn pass_preserves_particle_count() {
    let mut sand = BitPlane::new(20, 20);
    let mut plat = BitPlane::new(20, 20);
    let mut vel = VelocityField::new(20, 20);
    for x in [1usize, 4, 7, 10, 13, 16, 19] {
        set_pixel(&mut sand, x, 0, true);
        set_pixel(&mut sand, x, 3, true);
    }
    set_pixel(&mut plat, 7, 4, true);
    set_pixel(&mut plat, 10, 1, true);
    let before = count_particles(&sand);
    for _ in 0..8 {
        one_pass(&mut sand, &plat, &mut vel);
        assert_eq!(count_particles(&sand), before);
    }
}

#[test]
fn empty_plane_stays_empty_with_no_intervals() {
    let mut sand = BitPlane::new(20, 20);
    let plat = BitPlane::new(20, 20);
    let mut vel = VelocityField::new(20, 20);
    let mut mask = vec![false; 20];
    for _ in 0..4 {
        update_sand_with_velocity(&mut sand, &plat, &mut vel, &mut mask, 1);
    }
    assert_eq!(count_particles(&sand), 0);
    let intervals = dirty_row_intervals(&mask);
    assert_eq!(intervals.len(), 0);
}

#[test]
fn moves_mark_changed_rows() {
    let mut sand = BitPlane::new(20, 20);
    let plat = BitPlane::new(20, 20);
    let mut vel = VelocityField::new(20, 20);
    set_pixel(&mut sand, 5, 8, true);
    let mask = one_pass(&mut sand, &plat, &mut vel);
    assert!(mask[8]);
    assert!(mask[9]);
    assert!(!mask[0]);
}

#[test]
fn fast_particle_drifts_sideways_with_friction() {
    let mut sand = BitPlane::new(20, 20);
    let mut plat = BitPlane::new(20, 20);
    let mut vel = VelocityField::new(20, 20);
    set_pixel(&mut sand, 5, 5, true);
    for x in 0..20 {
        set_pixel(&mut plat, x, 6, true);
    }
    set_velocity(&mut vel, 5, 5, SandVelocity { vx: 5, vy: 0 });
    one_pass(&mut sand, &plat, &mut vel);
    // decay leaves vx == 4, above the drift threshold: one cell to the right
    assert!(!get_pixel(&sand, 5, 5));
    assert!(get_pixel(&sand, 6, 5));
    assert_eq!(get_velocity(&vel, 5, 5), SandVelocity { vx: 0, vy: 0 });
}

#[test]
fn pass_keeps_velocities_in_the_clamp_range() {
    let mut sand = BitPlane::new(20, 20);
    let plat = BitPlane::new(20, 20);
    let mut vel = VelocityField::new(20, 20);
    for x in 2..18 {
        set_pixel(&mut sand, x, 10, true);
        set_velocity(&mut vel, x, 10, SandVelocity { vx: 20, vy: -20 });
    }
    for _ in 0..4 {
        one_pass(&mut sand, &plat, &mut vel);
        for x in 0..20 {
            for y in 0..20 {
                let v = get_velocity(&vel, x, y);
                assert!((-20..=20).contains(&v.vx));
                assert!((-20..=20).contains(&v.vy));
            }
        }
    }
}

#[test]
fn falling_transfers_velocity_to_destination() {
    let mut sand = BitPlane::new(20, 20);
    let plat = BitPlane::new(20, 20);
    let mut vel = VelocityField::new(20, 20);
    set_pixel(&mut sand, 4, 2, true);
    set_velocity(&mut vel, 4, 2, SandVelocity { vx: 1, vy: 2 });
    let moved = update_pixel_with_velocity(&mut sand, &plat, &mut vel, 4, 2);
    assert!(moved);
    assert!(get_pixel(&sand, 4, 3));
    assert_eq!(get_velocity(&vel, 4, 2), SandVelocity { vx: 0, vy: 0 });
    assert_eq!(get_velocity(&vel, 4, 3), SandVelocity { vx: 1, vy: 2 });
}
