use falling_sand::bitplane::{clear_buffer, get_pixel, set_pixel, BitPlane};
use falling_sand::compose::{convert_intro_to_sand, copy_to_frame};
use falling_sand::consts::{BUFFER_SIZE, COLUMNS, PIXEL_WIDTH, ROWS};

#[test]
fn canonical_plane_matches_display_geometry() {
    let p = BitPlane::new(PIXEL_WIDTH, ROWS);
    assert_eq!(p.stride, COLUMNS);
    assert_eq!(p.bytes.len(), BUFFER_SIZE);
}

#[test]
fn set_get_round_trip() {
    let mut p = BitPlane::new(20, 20);
    for x in 0..20 {
        for y in 0..20 {
            set_pixel(&mut p, x, y, true);
            assert!(get_pixel(&p, x, y));
            set_pixel(&mut p, x, y, false);
            assert!(!get_pixel(&p, x, y));
        }
    }
}

#[test]
fn set_preserves_other_bits() {
    let mut p = BitPlane::new(20, 20);
    set_pixel(&mut p, 3, 5, true);
    set_pixel(&mut p, 4, 5, true);
    set_pixel(&mut p, 3, 6, true);
    set_pixel(&mut p, 4, 5, false);
    assert!(get_pixel(&p, 3, 5));
    assert!(!get_pixel(&p, 4, 5));
    assert!(get_pixel(&p, 3, 6));
    set_pixel(&mut p, 0, 0, true);
    assert!(get_pixel(&p, 3, 5));
    assert!(get_pixel(&p, 3, 6));
    assert!(get_pixel(&p, 0, 0));
}

#[test]
fn out_of_bounds_reads_false_and_writes_drop() {
    let mut p = BitPlane::new(20, 20);
    assert!(!get_pixel(&p, 20, 0));
    assert!(!get_pixel(&p, 0, 20));
    assert!(!get_pixel(&p, usize::MAX, usize::MAX));
    set_pixel(&mut p, 20, 0, true);
    set_pixel(&mut p, 0, 20, true);
    set_pixel(&mut p, usize::MAX, 3, true);
    for x in 0..20 {
        for y in 0..20 {
            assert!(!get_pixel(&p, x, y));
        }
    }
}

#[test]
fn clear_buffer_zeroes_everything() {
    let mut p = BitPlane::new(33, 7);
    set_pixel(&mut p, 0, 0, true);
    set_pixel(&mut p, 32, 6, true);
    set_pixel(&mut p, 15, 3, true);
    clear_buffer(&mut p);
    for x in 0..33 {
        for y in 0..7 {
            assert!(!get_pixel(&p, x, y));
        }
    }
}

#[test]
fn compose_is_bytewise_or() {
    let mut sand = BitPlane::new(40, 10);
    let mut plat = BitPlane::new(40, 10);
    let mut frame = BitPlane::new(40, 10);
    set_pixel(&mut sand, 1, 1, true);
    set_pixel(&mut plat, 2, 1, true);
    set_pixel(&mut sand, 3, 1, true);
    set_pixel(&mut plat, 3, 1, true);
    copy_to_frame(&sand, &plat, &mut frame);
    assert!(get_pixel(&frame, 1, 1));
    assert!(get_pixel(&frame, 2, 1));
    assert!(get_pixel(&frame, 3, 1));
    assert!(!get_pixel(&frame, 4, 1));
}

#[test]
fn intro_pixels_become_sand() {
    let mut frame = BitPlane::new(40, 10);
    let mut sand = BitPlane::new(40, 10);
    set_pixel(&mut frame, 7, 2, true);
    set_pixel(&mut frame, 8, 3, true);
    set_pixel(&mut sand, 0, 0, true);
    convert_intro_to_sand(&frame, &mut sand);
    assert!(get_pixel(&sand, 7, 2));
    assert!(get_pixel(&sand, 8, 3));
    assert!(get_pixel(&sand, 0, 0));
    assert!(!get_pixel(&sand, 9, 4));
}
