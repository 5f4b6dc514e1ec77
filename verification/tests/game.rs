use falling_sand::bitplane::{get_pixel, set_pixel, BitPlane};
use falling_sand::consts::{PIXEL_WIDTH, ROWS};
use falling_sand::forces::apply_platform_forces;
use falling_sand::platform::{
    create_initial_platforms, draw_platform, is_platform, redraw_platforms, Platform,
};
use falling_sand::sim::{tick, FallingSand, FrameInput};
use falling_sand::velocity::{get_velocity, SandVelocity, VelocityField};
use rand::SeedableRng;

fn idle_input() -> FrameInput {
    FrameInput {
        any_pressed: false,
        a: false,
        b: false,
        left: false,
        right: false,
        up: false,
        down: false,
        angle_delta: 0,
    }
}

#[test]
fn platform_new_remembers_heading() {
    let p = Platform::new(10, 20, 45);
    assert_eq!(p.x, 10);
    assert_eq!(p.y, 20);
    assert_eq!(p.angle, 45);
    assert_eq!(p.prev_angle, 45);
    assert_eq!(p.rotation_delta(), 0);
}

#[test]
fn update_angle_wraps_and_tracks_delta() {
    let mut p = Platform::new(10, 10, 350);
    p.update_angle(20);
    assert_eq!(p.angle, 10);
    assert_eq!(p.prev_angle, 350);
    assert_eq!(p.rotation_delta(), 20);
    p.update_angle(-30);
    assert_eq!(p.angle, 340);
    assert_eq!(p.prev_angle, 10);
    assert_eq!(p.rotation_delta(), -30);
}

#[test]
fn rotation_delta_takes_shortest_path() {
    let mut p = Platform::new(0, 0, 0);
    p.update_angle(190);
    assert_eq!(p.angle, 190);
    assert_eq!(p.rotation_delta(), -170);
    let mut q = Platform::new(0, 0, 300);
    q.update_angle(-190);
    assert_eq!(q.angle, 110);
    assert_eq!(q.rotation_delta(), 170);
}

#[test]
fn half_turn_delta_is_positive() {
    // a raw difference of exactly -180 wraps into (-180, 180] as +180
    let mut p = Platform::new(0, 0, 200);
    p.update_angle(180);
    assert_eq!(p.angle, 20);
    assert_eq!(p.prev_angle, 200);
    assert_eq!(p.rotation_delta(), 180);
    let mut q = Platform::new(0, 0, 0);
    q.update_angle(-180);
    assert_eq!(q.angle, 180);
    assert_eq!(q.rotation_delta(), 180);
}

#[test]
fn initial_platforms_lie_in_the_spawn_band() {
    let mut rng = rand::rngs::SmallRng::seed_from_u64(3);
    let platforms = create_initial_platforms(&mut rng);
    assert_eq!(platforms.len(), 8);
    for p in &platforms {
        assert!((50..350).contains(&p.x));
        assert!((30..190).contains(&p.y));
        assert!(p.angle < 360);
        assert_eq!(p.prev_angle, p.angle);
    }
}

#[test]
fn redraw_paints_static_ledges() {
    let mut plane = BitPlane::new(PIXEL_WIDTH, ROWS);
    let platforms: Vec<Platform> = Vec::new();
    redraw_platforms(&mut plane, &platforms);
    assert!(is_platform(&plane, 50, ROWS - 20));
    assert!(is_platform(&plane, 349, ROWS - 20));
    assert!(!is_platform(&plane, 49, ROWS - 20));
    assert!(!is_platform(&plane, 350, ROWS - 20));
    assert!(is_platform(&plane, 80, ROWS - 60));
    assert!(is_platform(&plane, 250, ROWS - 80));
    assert!(is_platform(&plane, 150, ROWS - 120));
    assert!(!is_platform(&plane, 0, 0));
}

#[test]
fn horizontal_platform_draws_a_thick_run() {
    let mut plane = BitPlane::new(PIXEL_WIDTH, ROWS);
    let p = Platform::new(100, 100, 0);
    draw_platform(&mut plane, &p);
    for x in 100..125 {
        assert!(get_pixel(&plane, x, 100));
        assert!(get_pixel(&plane, x, 101));
    }
    assert!(get_pixel(&plane, 125, 100));
    assert!(!get_pixel(&plane, 126, 100));
    assert!(!get_pixel(&plane, 99, 100));
    assert!(!get_pixel(&plane, 100, 102));
}

#[test]
fn rotating_platform_pushes_nearby_sand_perpendicular() {
    let mut sand = BitPlane::new(PIXEL_WIDTH, ROWS);
    let mut vel = VelocityField::new(PIXEL_WIDTH, ROWS);
    let mut p = Platform::new(10, 10, 0);
    p.update_angle(10);
    assert_eq!(p.rotation_delta(), 10);
    set_pixel(&mut sand, 12, 11, true);
    let platforms = vec![p];
    apply_platform_forces(&sand, &mut vel, &platforms);
    let v = get_velocity(&vel, 12, 11);
    // heading is ~+x, positive delta: the perpendicular (-sin, cos)
    // impulse points down-screen and slightly left
    assert!(v.vy > 0);
    assert!(v.vx < 0);
    assert!(v.vx >= -20 && v.vy <= 20);
}

#[test]
fn still_platform_imparts_no_force() {
    let mut sand = BitPlane::new(PIXEL_WIDTH, ROWS);
    let mut vel = VelocityField::new(PIXEL_WIDTH, ROWS);
    let p = Platform::new(10, 10, 45);
    set_pixel(&mut sand, 12, 11, true);
    let platforms = vec![p];
    apply_platform_forces(&sand, &mut vel, &platforms);
    assert_eq!(get_velocity(&vel, 12, 11), SandVelocity { vx: 0, vy: 0 });
}

#[test]
fn force_only_touches_sand_cells() {
    let sand = BitPlane::new(PIXEL_WIDTH, ROWS);
    let mut vel = VelocityField::new(PIXEL_WIDTH, ROWS);
    let mut p = Platform::new(10, 10, 0);
    p.update_angle(10);
    let platforms = vec![p];
    apply_platform_forces(&sand, &mut vel, &platforms);
    for x in 0..40 {
        for y in 0..30 {
            assert_eq!(get_velocity(&vel, x, y), SandVelocity { vx: 0, vy: 0 });
        }
    }
}

#[test]
fn new_game_starts_on_the_intro_screen() {
    let g = FallingSand::new(42);
    assert!(!g.started);
    assert_eq!(g.frame_counter, 0);
    assert_eq!(g.screen_density, 0);
    assert_eq!(g.platforms.len(), 8);
    assert_eq!(g.position_x, PIXEL_WIDTH / 2);
    assert_eq!(g.position_y, ROWS / 4);
    assert!(!get_pixel(&g.sand_buffer, 200, 60));
}

#[test]
fn idle_tick_keeps_showing_the_intro() {
    let mut g = FallingSand::new(42);
    let frame = BitPlane::new(PIXEL_WIDTH, ROWS);
    let out = tick(&mut g, &idle_input(), &frame);
    assert!(!out.cleared);
    assert!(out.show_intro);
    assert!(out.intervals.is_empty());
    assert!(!g.started);
}

#[test]
fn first_press_starts_the_game() {
    let mut g = FallingSand::new(42);
    let frame = BitPlane::new(PIXEL_WIDTH, ROWS);
    let mut input = idle_input();
    input.any_pressed = true;
    let out = tick(&mut g, &input, &frame);
    assert!(g.started);
    assert!(!out.show_intro);
    assert!(!out.cleared);
    for iv in &out.intervals {
        assert!(iv.0 < iv.1 && iv.1 <= ROWS);
    }
}

#[test]
fn clear_button_resets_the_board() {
    let mut g = FallingSand::new(42);
    let frame = BitPlane::new(PIXEL_WIDTH, ROWS);
    let mut start = idle_input();
    start.any_pressed = true;
    start.a = true;
    tick(&mut g, &start, &frame);
    let mut clear = idle_input();
    clear.any_pressed = true;
    clear.b = true;
    let out = tick(&mut g, &clear, &frame);
    assert!(out.cleared);
    assert_eq!(g.screen_density, 0);
    for x in 0..PIXEL_WIDTH {
        for y in 0..ROWS {
            assert!(!get_pixel(&g.sand_buffer, x, y));
        }
    }
}

#[test]
fn brush_places_a_square_of_sand() {
    let mut g = FallingSand::new(42);
    let frame = BitPlane::new(PIXEL_WIDTH, ROWS);
    let mut input = idle_input();
    input.any_pressed = true;
    input.a = true;
    tick(&mut g, &input, &frame);
    // the brush fills the 5x5 square around the cursor (rows 58..=62);
    // the tick's three automaton passes then drop it three rows
    for y in 61..=65 {
        assert!(get_pixel(&g.sand_buffer, 200, y));
        assert!(get_pixel(&g.sand_buffer, 198, y));
        assert!(get_pixel(&g.sand_buffer, 202, y));
    }
    assert!(!get_pixel(&g.sand_buffer, 200, 60));
}

#[test]
fn arrows_move_the_cursor_in_steps_of_five() {
    let mut g = FallingSand::new(42);
    let frame = BitPlane::new(PIXEL_WIDTH, ROWS);
    let mut input = idle_input();
    input.any_pressed = true;
    input.left = true;
    input.up = true;
    tick(&mut g, &input, &frame);
    assert_eq!(g.position_x, PIXEL_WIDTH / 2 - 5);
    assert_eq!(g.position_y, ROWS / 4 - 5);
}

#[test]
fn crank_rotates_every_platform() {
    let mut g = FallingSand::new(42);
    let frame = BitPlane::new(PIXEL_WIDTH, ROWS);
    let before: Vec<u32> = g.platforms.iter().map(|p| p.angle).collect();
    let mut input = idle_input();
    input.any_pressed = true;
    input.angle_delta = 15;
    tick(&mut g, &input, &frame);
    for (i, p) in g.platforms.iter().enumerate() {
        assert_eq!(p.angle, (before[i] + 15) % 360);
        assert_eq!(p.prev_angle, before[i]);
    }
}
