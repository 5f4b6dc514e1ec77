//! The gravity-driven particle update rule.
//!
//! A pass visits rows bottom-to-top, from `height - 2` down to `0`, and
//! each row left-to-right. An occupied cell first attempts a horizontal
//! drift when its stored horizontal speed exceeds the threshold, then the
//! gravity rule: straight down if free, else down-left, else down-right,
//! else stay. A move clears the source bit and sets the destination bit —
//! particles are never duplicated, so a pass preserves the total particle
//! count exactly.

use vstd::prelude::*;
use crate::bitplane::{
    bit, get_pixel, lemma_same_bits, lemma_single_bit, plane_empty, same_dims, set_pixel,
    total_bits, wf, BitPlane,
};
use crate::fixed::scale_frac_i8;
use crate::velocity::{
    decayed, field_at_rest, frictioned, get_velocity, same_vel_dims, set_velocity, vel_at,
    vel_bounded, vf_wf, zero_vel, SandVelocity, VelocityField,
};
use vstd::pervasive::VecAdditionalExecFns;

verus! {

/// Whether cell `(x, y)` of the particle plane holds sand.
pub fn is_sand(sand_buffer: &BitPlane, x: usize, y: usize) -> (r: bool)
    requires
        wf(*sand_buffer),
    ensures
        r == bit(*sand_buffer, x as int, y as int),
{
    get_pixel(sand_buffer, x, y)
}

/// A cell is solid when it holds sand or an obstacle.
pub open spec fn solid(sand: BitPlane, plat: BitPlane, x: int, y: int) -> bool {
    bit(sand, x, y) || bit(plat, x, y)
}

/// Whether cell `(x, y)` is impassable: sand or obstacle.
pub fn is_solid(sand_buffer: &BitPlane, platform_buffer: &BitPlane, x: usize, y: usize)
    -> (r: bool)
    requires
        wf(*sand_buffer),
        wf(*platform_buffer),
    ensures
        r == solid(*sand_buffer, *platform_buffer, x as int, y as int),
{
    is_sand(sand_buffer, x, y) || get_pixel(platform_buffer, x, y)
}

/// The destination column of the gravity rule for an occupied cell
/// `(x, y)` with a row below it: straight down when free, else down-left,
/// else down-right, else the particle stays.
pub open spec fn fall_dest(sand: BitPlane, plat: BitPlane, x: int, y: int) -> Option<int> {
    if !solid(sand, plat, x, y + 1) {
        Some(x)
    } else if x > 0 && !solid(sand, plat, x - 1, y + 1) {
        Some(x - 1)
    } else if x + 1 < sand.width && !solid(sand, plat, x + 1, y + 1) {
        Some(x + 1)
    } else {
        None
    }
}

/// The horizontal bias a diagonal fall adds to the carried speed: one step
/// toward the fall direction, clamped to `[-10, 10]`.
pub open spec fn biased_vx(vx: int, dir: int) -> int {
    if dir < 0 {
        if vx - 1 < -10 { -10 } else { vx - 1 }
    } else if dir > 0 {
        if vx + 1 > 10 { 10 } else { vx + 1 }
    } else {
        vx
    }
}

/// Apply the gravity rule to cell `(x, y)`: move the particle to
/// `fall_dest`, carrying its velocity (with the diagonal bias) to the
/// destination cell and clearing the source velocity. Returns whether the
/// particle fell.
pub fn update_pixel_with_velocity(
    sand_buffer: &mut BitPlane,
    platform_buffer: &BitPlane,
    velocity_buffer: &mut VelocityField,
    x: usize,
    y: usize,
) -> (moved: bool)
    requires
        wf(*old(sand_buffer)),
        wf(*platform_buffer),
        same_dims(*old(sand_buffer), *platform_buffer),
        vf_wf(*old(velocity_buffer)),
        old(velocity_buffer).width == old(sand_buffer).width,
        old(velocity_buffer).height == old(sand_buffer).height,
    ensures
        wf(*final(sand_buffer)),
        same_dims(*final(sand_buffer), *old(sand_buffer)),
        final(sand_buffer).bytes@.len() == old(sand_buffer).bytes@.len(),
        vf_wf(*final(velocity_buffer)),
        same_vel_dims(*final(velocity_buffer), *old(velocity_buffer)),
        total_bits(final(sand_buffer).bytes@) == total_bits(old(sand_buffer).bytes@),
        (!bit(*old(sand_buffer), x as int, y as int)
            || y as int + 1 >= old(sand_buffer).height)
            ==> !moved
                && final(sand_buffer).bytes@ == old(sand_buffer).bytes@
                && final(velocity_buffer).cells@ == old(velocity_buffer).cells@,
        (bit(*old(sand_buffer), x as int, y as int)
            && y as int + 1 < old(sand_buffer).height)
            ==> match fall_dest(*old(sand_buffer), *platform_buffer, x as int, y as int) {
                Some(dx) => {
                    &&& moved
                    &&& !bit(*final(sand_buffer), x as int, y as int)
                    &&& bit(*final(sand_buffer), dx, y as int + 1)
                    &&& forall|i: int, j: int|
                        !(i == x as int && j == y as int) && !(i == dx && j == y as int + 1)
                            ==> bit(*final(sand_buffer), i, j) == bit(*old(sand_buffer), i, j)
                    &&& vel_at(*final(velocity_buffer), x as int, y as int) == zero_vel()
                    &&& vel_at(*final(velocity_buffer), dx, y as int + 1) == (SandVelocity {
                        vx: biased_vx(
                            vel_at(*old(velocity_buffer), x as int, y as int).vx as int,
                            dx - x) as i8,
                        vy: vel_at(*old(velocity_buffer), x as int, y as int).vy,
                    })
                    &&& forall|i: int, j: int|
                        !(i == x as int && j == y as int) && !(i == dx && j == y as int + 1)
                            ==> vel_at(*final(velocity_buffer), i, j)
                                == vel_at(*old(velocity_buffer), i, j)
                },
                None => {
                    &&& !moved
                    &&& final(sand_buffer).bytes@ == old(sand_buffer).bytes@
                    &&& final(velocity_buffer).cells@ == old(velocity_buffer).cells@
                },
            },
        !moved ==> final(sand_buffer).bytes@ == old(sand_buffer).bytes@,
        forall|i: int, j: int|
            !(i == x as int && j == y as int)
                ==> (bit(*old(sand_buffer), i, j) ==> bit(*final(sand_buffer), i, j)),
        forall|i: int, j: int|
            bit(*final(sand_buffer), i, j) != bit(*old(sand_buffer), i, j)
                ==> j == y as int || j == y as int + 1,
        vel_bounded(*old(velocity_buffer), 20) ==> vel_bounded(*final(velocity_buffer), 20),
{
    if !is_sand(sand_buffer, x, y) {
        return false;
    }
    if y + 1 >= sand_buffer.height {
        return false;
    }
    let v = get_velocity(velocity_buffer, x, y);
    if !is_solid(sand_buffer, platform_buffer, x, y + 1) {
        set_pixel(sand_buffer, x, y, false);
        set_pixel(sand_buffer, x, y + 1, true);
        set_velocity(velocity_buffer, x, y, SandVelocity { vx: 0, vy: 0 });
        set_velocity(velocity_buffer, x, y + 1, v);
        proof {
            lemma_carry_bounded(*old(velocity_buffer), *velocity_buffer,
                x as int, y as int, x as int, y as int + 1);
        }
        return true;
    }
    if x > 0 && !is_solid(sand_buffer, platform_buffer, x - 1, y + 1) {
        set_pixel(sand_buffer, x, y, false);
        set_pixel(sand_buffer, x - 1, y + 1, true);
        let t = v.vx as i32 - 1;
        let nvx: i32 = if t < -10 { -10 } else { t };
        set_velocity(velocity_buffer, x, y, SandVelocity { vx: 0, vy: 0 });
        set_velocity(velocity_buffer, x - 1, y + 1, SandVelocity { vx: nvx as i8, vy: v.vy });
        proof {
            lemma_carry_bounded(*old(velocity_buffer), *velocity_buffer,
                x as int, y as int, x as int - 1, y as int + 1);
        }
        return true;
    }
    if x + 1 < sand_buffer.width && !is_solid(sand_buffer, platform_buffer, x + 1, y + 1) {
        set_pixel(sand_buffer, x, y, false);
        set_pixel(sand_buffer, x + 1, y + 1, true);
        let t = v.vx as i32 + 1;
        let nvx: i32 = if t > 10 { 10 } else { t };
        set_velocity(velocity_buffer, x, y, SandVelocity { vx: 0, vy: 0 });
        set_velocity(velocity_buffer, x + 1, y + 1, SandVelocity { vx: nvx as i8, vy: v.vy });
        proof {
            lemma_carry_bounded(*old(velocity_buffer), *velocity_buffer,
                x as int, y as int, x as int + 1, y as int + 1);
        }
        return true;
    }
    false
}

/// After a move wrote the source and destination velocities, the range
/// bound is preserved if the written values respect it.
proof fn lemma_carry_bounded(
    before: VelocityField,
    after: VelocityField,
    sx: int,
    sy: int,
    dx: int,
    dy: int,
)
    requires
        forall|i: int, j: int|
            !(i == sx && j == sy) && !(i == dx && j == dy)
                ==> vel_at(after, i, j) == vel_at(before, i, j),
        vel_bounded(before, 20)
            ==> -20 <= vel_at(after, sx, sy).vx <= 20
                && -20 <= vel_at(after, sx, sy).vy <= 20,
        vel_bounded(before, 20)
            ==> -20 <= vel_at(after, dx, dy).vx <= 20
                && -20 <= vel_at(after, dx, dy).vy <= 20,
    ensures
        vel_bounded(before, 20) ==> vel_bounded(after, 20),
{
    if vel_bounded(before, 20) {
        assert forall|i: int, j: int| #![trigger vel_at(after, i, j)]
            -20 <= vel_at(after, i, j).vx <= 20 && -20 <= vel_at(after, i, j).vy <= 20 by {
            if !(i == sx && j == sy) && !(i == dx && j == dy) {
                assert(vel_at(after, i, j) == vel_at(before, i, j));
                assert(-20 <= vel_at(before, i, j).vx <= 20);
            }
        }
    }
}

/// Attempt the horizontal drift that precedes the gravity rule: when the
/// stored horizontal speed of the occupied cell `(x, y)` exceeds the
/// threshold of 2, relocate one cell in its sign direction if that cell is
/// free, applying friction to the carried speed.
pub fn drift_pixel(
    sand_buffer: &mut BitPlane,
    platform_buffer: &BitPlane,
    velocity_buffer: &mut VelocityField,
    x: usize,
    y: usize,
) -> (moved: bool)
    requires
        wf(*old(sand_buffer)),
        wf(*platform_buffer),
        same_dims(*old(sand_buffer), *platform_buffer),
        vf_wf(*old(velocity_buffer)),
        old(velocity_buffer).width == old(sand_buffer).width,
        old(velocity_buffer).height == old(sand_buffer).height,
        bit(*old(sand_buffer), x as int, y as int),
    ensures
        wf(*final(sand_buffer)),
        same_dims(*final(sand_buffer), *old(sand_buffer)),
        final(sand_buffer).bytes@.len() == old(sand_buffer).bytes@.len(),
        vf_wf(*final(velocity_buffer)),
        same_vel_dims(*final(velocity_buffer), *old(velocity_buffer)),
        total_bits(final(sand_buffer).bytes@) == total_bits(old(sand_buffer).bytes@),
        ({
            let vx = vel_at(*old(velocity_buffer), x as int, y as int).vx as int;
            let tx: int = if vx > 0 { x as int + 1 } else { x as int - 1 };
            let can = (vx > 2 || vx < -2) && 0 <= tx < old(sand_buffer).width
                && !solid(*old(sand_buffer), *platform_buffer, tx, y as int);
            if can {
                &&& moved
                &&& !bit(*final(sand_buffer), x as int, y as int)
                &&& bit(*final(sand_buffer), tx, y as int)
                &&& forall|i: int, j: int|
                    !(i == x as int && j == y as int) && !(i == tx && j == y as int)
                        ==> bit(*final(sand_buffer), i, j) == bit(*old(sand_buffer), i, j)
                &&& vel_at(*final(velocity_buffer), x as int, y as int) == zero_vel()
                &&& vel_at(*final(velocity_buffer), tx, y as int) == (SandVelocity {
                    vx: frictioned(vx) as i8,
                    vy: vel_at(*old(velocity_buffer), x as int, y as int).vy,
                })
                &&& forall|i: int, j: int|
                    !(i == x as int && j == y as int) && !(i == tx && j == y as int)
                        ==> vel_at(*final(velocity_buffer), i, j)
                            == vel_at(*old(velocity_buffer), i, j)
            } else {
                &&& !moved
                &&& final(sand_buffer).bytes@ == old(sand_buffer).bytes@
                &&& final(velocity_buffer).cells@ == old(velocity_buffer).cells@
            }
        }),
        !moved ==> final(sand_buffer).bytes@ == old(sand_buffer).bytes@,
        forall|i: int, j: int|
            !(i == x as int && j == y as int)
                ==> (bit(*old(sand_buffer), i, j) ==> bit(*final(sand_buffer), i, j)),
        forall|i: int, j: int|
            bit(*final(sand_buffer), i, j) != bit(*old(sand_buffer), i, j) ==> j == y as int,
        vel_bounded(*old(velocity_buffer), 20) ==> vel_bounded(*final(velocity_buffer), 20),
{
    let v = get_velocity(velocity_buffer, x, y);
    if !(v.vx > 2 || v.vx < -2) {
        return false;
    }
    let mut tx: usize = 0;
    let mut has_target = false;
    if v.vx > 0 {
        if x + 1 < sand_buffer.width {
            tx = x + 1;
            has_target = true;
        }
    } else {
        if x > 0 {
            tx = x - 1;
            has_target = true;
        }
    }
    if !has_target {
        return false;
    }
    if is_solid(sand_buffer, platform_buffer, tx, y) {
        return false;
    }
    set_pixel(sand_buffer, x, y, false);
    set_pixel(sand_buffer, tx, y, true);
    let fvx = scale_frac_i8(v.vx, 7);
    set_velocity(velocity_buffer, x, y, SandVelocity { vx: 0, vy: 0 });
    set_velocity(velocity_buffer, tx, y, SandVelocity { vx: fvx, vy: v.vy });
    proof {
        lemma_carry_bounded(*old(velocity_buffer), *velocity_buffer,
            x as int, y as int, tx as int, y as int);
    }
    true
}

/// One cell evaluation of a pass: decay the velocity of an occupied cell,
/// attempt the horizontal drift, and otherwise the gravity rule. Returns
/// whether any occupancy bit changed.
fn step_cell(
    sand_buffer: &mut BitPlane,
    platform_buffer: &BitPlane,
    velocity_buffer: &mut VelocityField,
    x: usize,
    y: usize,
) -> (moved: bool)
    requires
        wf(*old(sand_buffer)),
        wf(*platform_buffer),
        same_dims(*old(sand_buffer), *platform_buffer),
        vf_wf(*old(velocity_buffer)),
        old(velocity_buffer).width == old(sand_buffer).width,
        old(velocity_buffer).height == old(sand_buffer).height,
        x < old(sand_buffer).width,
        y as int + 1 < old(sand_buffer).height,
    ensures
        wf(*final(sand_buffer)),
        same_dims(*final(sand_buffer), *old(sand_buffer)),
        final(sand_buffer).bytes@.len() == old(sand_buffer).bytes@.len(),
        vf_wf(*final(velocity_buffer)),
        same_vel_dims(*final(velocity_buffer), *old(velocity_buffer)),
        total_bits(final(sand_buffer).bytes@) == total_bits(old(sand_buffer).bytes@),
        !bit(*old(sand_buffer), x as int, y as int)
            ==> !moved
                && final(sand_buffer).bytes@ == old(sand_buffer).bytes@
                && final(velocity_buffer).cells@ == old(velocity_buffer).cells@,
        !moved ==> final(sand_buffer).bytes@ == old(sand_buffer).bytes@,
        forall|i: int, j: int|
            !(i == x as int && j == y as int)
                ==> (bit(*old(sand_buffer), i, j) ==> bit(*final(sand_buffer), i, j)),
        forall|i: int, j: int|
            bit(*final(sand_buffer), i, j) != bit(*old(sand_buffer), i, j)
                ==> j == y as int || j == y as int + 1,
        vel_bounded(*old(velocity_buffer), 20) ==> vel_bounded(*final(velocity_buffer), 20),
        // a particle that stays put keeps its velocity, decayed once
        (bit(*old(sand_buffer), x as int, y as int) && !moved)
            ==> vel_at(*final(velocity_buffer), x as int, y as int).vx as int
                    == decayed(vel_at(*old(velocity_buffer), x as int, y as int).vx as int)
                && vel_at(*final(velocity_buffer), x as int, y as int).vy as int
                    == decayed(vel_at(*old(velocity_buffer), x as int, y as int).vy as int),
        // a resting particle is governed by the gravity rule alone
        (bit(*old(sand_buffer), x as int, y as int)
            && vel_at(*old(velocity_buffer), x as int, y as int) == zero_vel())
            ==> match fall_dest(*old(sand_buffer), *platform_buffer, x as int, y as int) {
                Some(dx) => {
                    &&& moved
                    &&& !bit(*final(sand_buffer), x as int, y as int)
                    &&& bit(*final(sand_buffer), dx, y as int + 1)
                    &&& forall|i: int, j: int|
                        !(i == x as int && j == y as int) && !(i == dx && j == y as int + 1)
                            ==> bit(*final(sand_buffer), i, j) == bit(*old(sand_buffer), i, j)
                },
                None => !moved && final(sand_buffer).bytes@ == old(sand_buffer).bytes@,
            },
{
    if !is_sand(sand_buffer, x, y) {
        return false;
    }
    let v0 = get_velocity(velocity_buffer, x, y);
    let dvx = scale_frac_i8(v0.vx, 9);
    let dvy = scale_frac_i8(v0.vy, 9);
    set_velocity(velocity_buffer, x, y, SandVelocity { vx: dvx, vy: dvy });
    let ghost mid_vel = *velocity_buffer;
    proof {
        lemma_carry_bounded(*old(velocity_buffer), mid_vel,
            x as int, y as int, x as int, y as int);
        if vel_at(*old(velocity_buffer), x as int, y as int) == zero_vel() {
            assert(v0 == zero_vel());
            assert(dvx == 0 && dvy == 0);
            assert(vel_at(mid_vel, x as int, y as int).vx == 0);
        }
    }
    let drifted = drift_pixel(sand_buffer, platform_buffer, velocity_buffer, x, y);
    if drifted {
        return true;
    }
    proof {
        if vel_at(*old(velocity_buffer), x as int, y as int) == zero_vel() {
            assert(sand_buffer.bytes@ == old(sand_buffer).bytes@);
            assert(fall_dest(*sand_buffer, *platform_buffer, x as int, y as int)
                == fall_dest(*old(sand_buffer), *platform_buffer, x as int, y as int));
        }
    }
    let fell = update_pixel_with_velocity(sand_buffer, platform_buffer, velocity_buffer, x, y);
    fell
}

/// Mark row `y` and its immediate vertical neighbours (the rows a move out
/// of row `y` can change, plus one row of margin on each side) as dirty.
fn mark_rows(changed_rows: &mut Vec<bool>, y: usize)
    requires
        y < old(changed_rows)@.len(),
    ensures
        final(changed_rows)@.len() == old(changed_rows)@.len(),
        forall|j: int| 0 <= j < final(changed_rows)@.len()
            ==> final(changed_rows)@[j]
                == (old(changed_rows)@[j] || (y as int - 1 <= j <= y as int + 2)),
{
    let n = changed_rows.len();
    if y >= 1 {
        changed_rows.set(y - 1, true);
    }
    changed_rows.set(y, true);
    if y + 1 < n {
        changed_rows.set(y + 1, true);
        if y + 2 < n {
            changed_rows.set(y + 2, true);
        }
    }
}

/// A plane holding exactly one particle, at rest, at `(x0, y0)`, above
/// the bottom row and in a row the pass evaluates.
pub open spec fn lone_resting_particle(
    sand: BitPlane,
    vel: VelocityField,
    x0: int,
    y0: int,
    row_skip: int,
) -> bool {
    &&& total_bits(sand.bytes@) == 1
    &&& field_at_rest(vel)
    &&& bit(sand, x0, y0)
    &&& y0 < sand.height - 1
    &&& y0 % row_skip == 0
}

/// One pass applied the gravity rule exactly once to the lone particle of
/// `old_sand`: it sits at its fall destination, or nothing moved at all.
pub open spec fn lone_particle_settled(
    old_sand: BitPlane,
    plat: BitPlane,
    cur: BitPlane,
    x0: int,
    y0: int,
) -> bool {
    match fall_dest(old_sand, plat, x0, y0) {
        Some(dx) => {
            &&& !bit(cur, x0, y0)
            &&& bit(cur, dx, y0 + 1)
            &&& forall|i: int, j: int|
                !(i == x0 && j == y0) && !(i == dx && j == y0 + 1)
                    ==> bit(cur, i, j) == bit(old_sand, i, j)
        },
        None => cur.bytes@ == old_sand.bytes@,
    }
}

/// What one automaton pass guarantees of the sand plane alone — the
/// relation a frame's chain of passes composes by.
pub open spec fn pass_step(pre: BitPlane, post: BitPlane, skip: int) -> bool {
    &&& same_dims(post, pre)
    &&& post.bytes@.len() == pre.bytes@.len()
    &&& total_bits(post.bytes@) == total_bits(pre.bytes@)
    &&& (forall|i: int, j: int|
        j == pre.height - 1 && #[trigger] bit(pre, i, j) ==> bit(post, i, j))
    &&& (forall|i: int, j: int| #![trigger bit(post, i, j)]
        bit(post, i, j) != bit(pre, i, j) ==> j % skip == 0 || (j - 1) % skip == 0)
    &&& (plane_empty(pre) ==> post.bytes@ == pre.bytes@)
}

/// One full automaton pass.
///
/// Rows are visited from `height - 2` down to `0` (the bottom row is never
/// evaluated: no row below it exists), each row left-to-right; only rows
/// whose index is a multiple of `row_skip` are evaluated. The pass
/// preserves the total particle count exactly, never clears a bottom-row
/// particle, only adds marks to `changed_rows`, marks every row whose
/// occupancy changed, and leaves everything untouched on an empty plane.
#[verifier::loop_isolation(false)]
pub fn update_sand_with_velocity(
    sand_buffer: &mut BitPlane,
    platform_buffer: &BitPlane,
    velocity_buffer: &mut VelocityField,
    changed_rows: &mut Vec<bool>,
    row_skip: usize,
)
    requires
        wf(*old(sand_buffer)),
        wf(*platform_buffer),
        same_dims(*old(sand_buffer), *platform_buffer),
        vf_wf(*old(velocity_buffer)),
        old(velocity_buffer).width == old(sand_buffer).width,
        old(velocity_buffer).height == old(sand_buffer).height,
        old(changed_rows)@.len() == old(sand_buffer).height,
        1 <= row_skip,
    ensures
        wf(*final(sand_buffer)),
        same_dims(*final(sand_buffer), *old(sand_buffer)),
        final(sand_buffer).bytes@.len() == old(sand_buffer).bytes@.len(),
        vf_wf(*final(velocity_buffer)),
        same_vel_dims(*final(velocity_buffer), *old(velocity_buffer)),
        final(changed_rows)@.len() == old(changed_rows)@.len(),
        total_bits(final(sand_buffer).bytes@) == total_bits(old(sand_buffer).bytes@),
        forall|i: int, j: int|
            j == old(sand_buffer).height - 1 && #[trigger] bit(*old(sand_buffer), i, j)
                ==> bit(*final(sand_buffer), i, j),
        forall|j: int| 0 <= j < old(changed_rows)@.len()
            ==> (old(changed_rows)@[j] ==> final(changed_rows)@[j]),
        forall|i: int, j: int|
            bit(*final(sand_buffer), i, j) != bit(*old(sand_buffer), i, j)
                ==> 0 <= j < old(sand_buffer).height && final(changed_rows)@[j]
                    && (j - 1 >= 0 ==> final(changed_rows)@[j - 1])
                    && (j + 1 < old(changed_rows)@.len() ==> final(changed_rows)@[j + 1]),
        vel_bounded(*old(velocity_buffer), 20) ==> vel_bounded(*final(velocity_buffer), 20),
        plane_empty(*old(sand_buffer))
            ==> final(sand_buffer).bytes@ == old(sand_buffer).bytes@
                && final(velocity_buffer).cells@ == old(velocity_buffer).cells@
                && final(changed_rows)@ == old(changed_rows)@,
        forall|i: int, j: int|
            bit(*final(sand_buffer), i, j) != bit(*old(sand_buffer), i, j)
                ==> j % (row_skip as int) == 0 || (j - 1) % (row_skip as int) == 0,
        forall|x0: int, y0: int|
            lone_resting_particle(
                *old(sand_buffer), *old(velocity_buffer), x0, y0, row_skip as int)
                ==> lone_particle_settled(
                    *old(sand_buffer), *platform_buffer, *final(sand_buffer), x0, y0),
{
    let h = sand_buffer.height;
    let w = sand_buffer.width;
    let mut y = h - 1;
    while y > 0
        invariant
            y < h,
            wf(*sand_buffer),
            same_dims(*sand_buffer, *old(sand_buffer)),
            sand_buffer.bytes@.len() == old(sand_buffer).bytes@.len(),
            vf_wf(*velocity_buffer),
            same_vel_dims(*velocity_buffer, *old(velocity_buffer)),
            velocity_buffer.width == old(velocity_buffer).width,
            velocity_buffer.height == old(velocity_buffer).height,
            changed_rows@.len() == old(changed_rows)@.len(),
            total_bits(sand_buffer.bytes@) == total_bits(old(sand_buffer).bytes@),
            forall|i: int, j: int|
                j == h - 1 && #[trigger] bit(*old(sand_buffer), i, j)
                    ==> bit(*sand_buffer, i, j),
            forall|j: int| 0 <= j < old(changed_rows)@.len()
                ==> (old(changed_rows)@[j] ==> changed_rows@[j]),
            forall|i: int, j: int|
                bit(*sand_buffer, i, j) != bit(*old(sand_buffer), i, j)
                    ==> 0 <= j < h && changed_rows@[j]
                        && (j - 1 >= 0 ==> changed_rows@[j - 1])
                        && (j + 1 < old(changed_rows)@.len() ==> changed_rows@[j + 1]),
            vel_bounded(*old(velocity_buffer), 20) ==> vel_bounded(*velocity_buffer, 20),
            plane_empty(*old(sand_buffer))
                ==> sand_buffer.bytes@ == old(sand_buffer).bytes@
                    && velocity_buffer.cells@ == old(velocity_buffer).cells@
                    && changed_rows@ == old(changed_rows)@,
            forall|i: int, j: int|
                bit(*sand_buffer, i, j) != bit(*old(sand_buffer), i, j)
                    ==> j % (row_skip as int) == 0 || (j - 1) % (row_skip as int) == 0,
            forall|x0: int, y0: int|
                lone_resting_particle(
                    *old(sand_buffer), *old(velocity_buffer), x0, y0, row_skip as int)
                    ==> (if y0 >= y {
                        lone_particle_settled(
                            *old(sand_buffer), *platform_buffer, *sand_buffer, x0, y0)
                    } else {
                        sand_buffer.bytes@ == old(sand_buffer).bytes@
                            && velocity_buffer.cells@ == old(velocity_buffer).cells@
                    }),
        decreases y,
    {
        y -= 1;
        if y % row_skip == 0 {
            let mut x: usize = 0;
            while x < w
                invariant
                    x <= w,
                    y as int + 1 < h,
                    wf(*sand_buffer),
                    same_dims(*sand_buffer, *old(sand_buffer)),
                    sand_buffer.bytes@.len() == old(sand_buffer).bytes@.len(),
                    vf_wf(*velocity_buffer),
                    same_vel_dims(*velocity_buffer, *old(velocity_buffer)),
                    velocity_buffer.width == old(velocity_buffer).width,
                    velocity_buffer.height == old(velocity_buffer).height,
                    changed_rows@.len() == old(changed_rows)@.len(),
                    total_bits(sand_buffer.bytes@) == total_bits(old(sand_buffer).bytes@),
                    forall|i: int, j: int|
                        j == h - 1 && #[trigger] bit(*old(sand_buffer), i, j)
                            ==> bit(*sand_buffer, i, j),
                    forall|j: int| 0 <= j < old(changed_rows)@.len()
                        ==> (old(changed_rows)@[j] ==> changed_rows@[j]),
                    forall|i: int, j: int|
                        bit(*sand_buffer, i, j) != bit(*old(sand_buffer), i, j)
                            ==> 0 <= j < h && changed_rows@[j]
                                && (j - 1 >= 0 ==> changed_rows@[j - 1])
                                && (j + 1 < old(changed_rows)@.len() ==> changed_rows@[j + 1]),
                    vel_bounded(*old(velocity_buffer), 20) ==> vel_bounded(*velocity_buffer, 20),
                    plane_empty(*old(sand_buffer))
                        ==> sand_buffer.bytes@ == old(sand_buffer).bytes@
                            && velocity_buffer.cells@ == old(velocity_buffer).cells@
                            && changed_rows@ == old(changed_rows)@,
                    y % row_skip == 0,
                    forall|i: int, j: int|
                        bit(*sand_buffer, i, j) != bit(*old(sand_buffer), i, j)
                            ==> j % (row_skip as int) == 0
                                || (j - 1) % (row_skip as int) == 0,
                    forall|x0: int, y0: int|
                        lone_resting_particle(
                            *old(sand_buffer), *old(velocity_buffer), x0, y0, row_skip as int)
                            ==> (if y0 > y || (y0 == y && x0 < x) {
                                lone_particle_settled(
                                    *old(sand_buffer), *platform_buffer, *sand_buffer, x0, y0)
                            } else {
                                sand_buffer.bytes@ == old(sand_buffer).bytes@
                                    && velocity_buffer.cells@ == old(velocity_buffer).cells@
                            }),
                decreases w - x,
            {
                let ghost pre_sand = *sand_buffer;
                let ghost pre_vel = *velocity_buffer;
                let ghost pre_mask = changed_rows@;
                let moved = step_cell(sand_buffer, platform_buffer, velocity_buffer, x, y);
                if moved {
                    mark_rows(changed_rows, y);
                }
                proof {
                    assert forall|i: int, j: int|
                        bit(*sand_buffer, i, j) != bit(*old(sand_buffer), i, j)
                            implies 0 <= j < h && changed_rows@[j]
                                && (j - 1 >= 0 ==> changed_rows@[j - 1])
                                && (j + 1 < old(changed_rows)@.len()
                                    ==> changed_rows@[j + 1]) by {
                        if bit(*sand_buffer, i, j) != bit(pre_sand, i, j) {
                            assert(moved);
                            assert(j == y as int || j == y as int + 1);
                        } else {
                            assert(bit(pre_sand, i, j) != bit(*old(sand_buffer), i, j));
                            assert(pre_mask[j]);
                            assert(j - 1 >= 0 ==> pre_mask[j - 1]);
                            assert(j + 1 < old(changed_rows)@.len() ==> pre_mask[j + 1]);
                        }
                    }
                    if plane_empty(*old(sand_buffer)) {
                        assert(!bit(*old(sand_buffer), x as int, y as int));
                        assert(pre_sand.bytes@ == old(sand_buffer).bytes@);
                        assert(!bit(pre_sand, x as int, y as int));
                        assert(!moved);
                    }
                    let xi = x as int;
                    let yi = y as int;
                    assert forall|x0: int, y0: int|
                        lone_resting_particle(
                            *old(sand_buffer), *old(velocity_buffer), x0, y0, row_skip as int)
                            implies (if y0 > yi || (y0 == yi && x0 < xi + 1) {
                                lone_particle_settled(
                                    *old(sand_buffer), *platform_buffer, *sand_buffer, x0, y0)
                            } else {
                                sand_buffer.bytes@ == old(sand_buffer).bytes@
                                    && velocity_buffer.cells@ == old(velocity_buffer).cells@
                            }) by {
                        lemma_single_bit(*old(sand_buffer), x0, y0);
                        if y0 > yi || (y0 == yi && x0 < xi) {
                            // settled before this step: the current cell is empty
                            assert(!bit(*old(sand_buffer), xi, yi));
                            if fall_dest(
                                *old(sand_buffer), *platform_buffer, x0, y0) is None {
                                lemma_same_bits(pre_sand, *old(sand_buffer));
                            }
                            assert(!bit(pre_sand, xi, yi));
                            assert(sand_buffer.bytes@ == pre_sand.bytes@);
                            lemma_same_bits(*sand_buffer, pre_sand);
                        } else if y0 == yi && x0 == xi {
                            // the lone particle's own evaluation
                            lemma_same_bits(pre_sand, *old(sand_buffer));
                            assert(bit(pre_sand, xi, yi));
                            assert(vel_at(*old(velocity_buffer), xi, yi) == zero_vel());
                            assert(vel_at(pre_vel, xi, yi) == zero_vel());
                            assert(fall_dest(pre_sand, *platform_buffer, xi, yi)
                                == fall_dest(*old(sand_buffer), *platform_buffer, xi, yi));
                        } else {
                            // not reached yet: the current cell is empty
                            lemma_same_bits(pre_sand, *old(sand_buffer));
                            assert(!bit(pre_sand, xi, yi));
                        }
                    }
                }
                x += 1;
            }
        }
    }
}

} // verus!
