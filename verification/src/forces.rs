//! Force propagation from rotating platforms to nearby sand.
//!
//! When a platform's rotation delta is non-zero, the same Q16 walk used
//! for rasterization (over a slightly longer range) samples points along
//! its line; every particle within the force radius of a sampled point
//! receives an impulse proportional to `(radius^2 - dist^2) / 4` times the
//! rotation delta, directed perpendicular to the heading and scaled by one
//! tenth, with the resulting velocity clamped to `[-20, 20]`.

use vstd::prelude::*;
use crate::automaton::is_sand;
use crate::bitplane::{bit, wf, BitPlane};
use crate::fixed::{clamp_i64, lemma_tdiv_bounds, round_q16, tdiv, tdiv_i64};
use crate::platform::{platform_wf, traj_px, traj_py, wrapped_delta, Platform};
use crate::utils::{cos_q16, cos_q16_spec, sin_q16, sin_q16_spec};
use crate::velocity::{
    get_velocity, same_vel_dims, set_velocity, vel_at, vf_wf, zero_vel, SandVelocity,
    VelocityField,
};

verus! {

/// Walk steps sampled when propagating forces: slightly longer than the
/// drawn platform.
pub const FORCE_LENGTH: usize = 30;

/// A velocity cell lies within the clamp range of the force propagation.
pub open spec fn force_clamped(v: SandVelocity) -> bool {
    -20 <= v.vx <= 20 && -20 <= v.vy <= 20
}

/// Whether the cell offset `(dx, dy)` from a sampled point lies in the
/// searched window and within the force radius.
pub open spec fn in_force_window(dx: int, dy: int) -> bool {
    -8 <= dx < 8 && -8 <= dy < 8 && dx * dx + dy * dy <= 64
}

/// The distance-scaled strength of one sampled point's push at offset
/// `(dx, dy)`.
pub open spec fn force_strength(dx: int, dy: int) -> int {
    (64 - (dx * dx + dy * dy)) / 4
}

/// The horizontal impulse of one push: the perpendicular `-sin` component
/// times the rotation delta and the strength, scaled by one tenth in Q16.
pub open spec fn impulse_x(dir_y: int, delta: int, dx: int, dy: int) -> int {
    tdiv(-(dir_y * delta * force_strength(dx, dy)), 655360)
}

/// The vertical impulse of one push: the perpendicular `cos` component.
pub open spec fn impulse_y(dir_x: int, delta: int, dx: int, dy: int) -> int {
    tdiv(dir_x * delta * force_strength(dx, dy), 655360)
}

/// Clamp into the force range `[-20, 20]`.
pub open spec fn clamp20(v: int) -> int {
    if v < -20 {
        -20
    } else if v > 20 {
        20
    } else {
        v
    }
}

/// The velocity of a cell after one push from a sampled point.
pub open spec fn pushed_vel(
    v: SandVelocity,
    dir_x: int,
    dir_y: int,
    delta: int,
    dx: int,
    dy: int,
) -> SandVelocity {
    SandVelocity {
        vx: clamp20(v.vx + impulse_x(dir_y, delta, dx, dy)) as i8,
        vy: clamp20(v.vy + impulse_y(dir_x, delta, dx, dy)) as i8,
    }
}

/// Bounds on one velocity component after one or more pushes of a single
/// consistent sign: pinned between the first push's clamped impulse and
/// the clamp limit, and still zero when the perpendicular component
/// vanishes.
pub open spec fn pushed_component_bounds(sign_src: int, first: int, v: int) -> bool {
    &&& sign_src > 0 ==> clamp20(first) <= v <= 20
    &&& sign_src < 0 ==> -20 <= v <= clamp20(first)
    &&& sign_src == 0 ==> v == 0
}

/// A resting sand cell inside the force window of a lone rotating
/// platform's anchor point.
pub open spec fn lone_spin_target(
    sand: BitPlane,
    vel: VelocityField,
    platforms: Seq<Platform>,
    i: int,
    j: int,
) -> bool {
    &&& platforms.len() == 1
    &&& wrapped_delta(platforms[0].angle as int, platforms[0].prev_angle as int) != 0
    &&& platforms[0].x < sand.width
    &&& platforms[0].y < sand.height
    &&& bit(sand, i, j)
    &&& vel_at(vel, i, j) == zero_vel()
    &&& in_force_window(i - platforms[0].x, j - platforms[0].y)
}

/// `force_strength` lies in `[0, 16]` inside the window, and each impulse
/// carries the sign of its perpendicular source component.
proof fn lemma_impulse_signs(dir_x: int, dir_y: int, delta: int, dx: int, dy: int)
    requires
        in_force_window(dx, dy),
        -65536 <= dir_x <= 65536,
        -65536 <= dir_y <= 65536,
        -180 <= delta <= 180,
    ensures
        0 <= force_strength(dx, dy) <= 16,
        -(dir_y * delta) > 0 ==> impulse_x(dir_y, delta, dx, dy) >= 0,
        -(dir_y * delta) < 0 ==> impulse_x(dir_y, delta, dx, dy) <= 0,
        dir_y * delta == 0 ==> impulse_x(dir_y, delta, dx, dy) == 0,
        dir_x * delta > 0 ==> impulse_y(dir_x, delta, dx, dy) >= 0,
        dir_x * delta < 0 ==> impulse_y(dir_x, delta, dx, dy) <= 0,
        dir_x * delta == 0 ==> impulse_y(dir_x, delta, dx, dy) == 0,
{
    let d2 = dx * dx + dy * dy;
    assert(0 <= dx * dx + dy * dy) by (nonlinear_arith);
    vstd::arithmetic::div_mod::lemma_div_pos_is_pos(64 - d2, 4);
    vstd::arithmetic::div_mod::lemma_div_is_ordered(64 - d2, 64, 4);
    let st = force_strength(dx, dy);
    assert(-(dir_y * delta) > 0 ==> -(dir_y * delta * st) >= 0) by (nonlinear_arith)
        requires 0 <= st,
    ;
    assert(-(dir_y * delta) < 0 ==> -(dir_y * delta * st) <= 0) by (nonlinear_arith)
        requires 0 <= st,
    ;
    assert(dir_y * delta == 0 ==> dir_y * delta * st == 0) by (nonlinear_arith);
    assert(dir_x * delta > 0 ==> dir_x * delta * st >= 0) by (nonlinear_arith)
        requires 0 <= st,
    ;
    assert(dir_x * delta < 0 ==> dir_x * delta * st <= 0) by (nonlinear_arith)
        requires 0 <= st,
    ;
    assert(dir_x * delta == 0 ==> dir_x * delta * st == 0) by (nonlinear_arith);
    lemma_tdiv_bounds(-(dir_y * delta * st), 655360);
    lemma_tdiv_bounds(dir_x * delta * st, 655360);
}

/// Push every particle within the force radius of one sampled platform
/// point: each cell of the window holding sand receives exactly one
/// clamped, distance-scaled perpendicular impulse; every other cell is
/// untouched.
#[verifier::loop_isolation(false)]
#[verifier::rlimit(40)]
fn apply_point_force(
    sand_buffer: &BitPlane,
    velocity_buffer: &mut VelocityField,
    base_x: usize,
    base_y: usize,
    dir_x: i32,
    dir_y: i32,
    delta: i32,
)
    requires
        wf(*sand_buffer),
        vf_wf(*old(velocity_buffer)),
        old(velocity_buffer).width == sand_buffer.width,
        old(velocity_buffer).height == sand_buffer.height,
        base_x <= 0x1000_0001,
        base_y <= 0x1000_0001,
        -65536 <= dir_x <= 65536,
        -65536 <= dir_y <= 65536,
        -180 <= delta <= 180,
    ensures
        vf_wf(*final(velocity_buffer)),
        same_vel_dims(*final(velocity_buffer), *old(velocity_buffer)),
        final(velocity_buffer).width == old(velocity_buffer).width,
        final(velocity_buffer).height == old(velocity_buffer).height,
        forall|i: int, j: int|
            #![trigger vel_at(*final(velocity_buffer), i, j)]
            vel_at(*final(velocity_buffer), i, j) == (if bit(*sand_buffer, i, j)
                && in_force_window(i - base_x as int, j - base_y as int) {
                pushed_vel(
                    vel_at(*old(velocity_buffer), i, j),
                    dir_x as int, dir_y as int, delta as int,
                    i - base_x as int, j - base_y as int)
            } else {
                vel_at(*old(velocity_buffer), i, j)
            }),
{
    let mut dy: i32 = -8;
    while dy < 8
        invariant
            -8 <= dy <= 8,
            vf_wf(*velocity_buffer),
            same_vel_dims(*velocity_buffer, *old(velocity_buffer)),
            velocity_buffer.width == old(velocity_buffer).width,
            velocity_buffer.height == old(velocity_buffer).height,
            forall|i: int, j: int|
                #![trigger vel_at(*velocity_buffer, i, j)]
                vel_at(*velocity_buffer, i, j) == (if bit(*sand_buffer, i, j)
                    && in_force_window(i - base_x as int, j - base_y as int)
                    && (j - base_y as int) < dy as int {
                    pushed_vel(
                        vel_at(*old(velocity_buffer), i, j),
                        dir_x as int, dir_y as int, delta as int,
                        i - base_x as int, j - base_y as int)
                } else {
                    vel_at(*old(velocity_buffer), i, j)
                }),
        decreases 8 - dy,
    {
        let mut dx: i32 = -8;
        while dx < 8
            invariant
                -8 <= dx <= 8,
                -8 <= dy < 8,
                vf_wf(*velocity_buffer),
                same_vel_dims(*velocity_buffer, *old(velocity_buffer)),
                velocity_buffer.width == old(velocity_buffer).width,
                velocity_buffer.height == old(velocity_buffer).height,
                forall|i: int, j: int|
                    #![trigger vel_at(*velocity_buffer, i, j)]
                    vel_at(*velocity_buffer, i, j) == (if bit(*sand_buffer, i, j)
                        && in_force_window(i - base_x as int, j - base_y as int)
                        && ((j - base_y as int) < dy as int
                            || (j - base_y as int == dy as int
                                && (i - base_x as int) < dx as int)) {
                        pushed_vel(
                            vel_at(*old(velocity_buffer), i, j),
                            dir_x as int, dir_y as int, delta as int,
                            i - base_x as int, j - base_y as int)
                    } else {
                        vel_at(*old(velocity_buffer), i, j)
                    }),
            decreases 8 - dx,
        {
            let ghost pre = *velocity_buffer;
            let sx = base_x as i64 + dx as i64;
            let sy = base_y as i64 + dy as i64;
            let mut wrote = false;
            if sx >= 0 && sy >= 0 {
                let usx = sx as usize;
                let usy = sy as usize;
                if usx < sand_buffer.width && usy < sand_buffer.height {
                    if is_sand(sand_buffer, usx, usy) {
                        proof {
                            assert(0 <= (dx as int) * (dx as int) <= 64) by (nonlinear_arith)
                                requires -8 <= (dx as int) && (dx as int) <= 8,
                            ;
                            assert(0 <= (dy as int) * (dy as int) <= 64) by (nonlinear_arith)
                                requires -8 <= (dy as int) && (dy as int) <= 8,
                            ;
                        }
                        let d2 = dx * dx + dy * dy;
                        if d2 <= 64 {
                            let strength = ((64 - d2) as u32) / 4;
                            proof {
                                assert(-(65536int * 180) <= (dir_y as int) * (delta as int)
                                    <= 65536int * 180) by (nonlinear_arith)
                                    requires
                                        -65536 <= (dir_y as int) && (dir_y as int) <= 65536,
                                        -180 <= (delta as int) && (delta as int) <= 180,
                                ;
                                assert(-(65536int * 180) <= (dir_x as int) * (delta as int)
                                    <= 65536int * 180) by (nonlinear_arith)
                                    requires
                                        -65536 <= (dir_x as int) && (dir_x as int) <= 65536,
                                        -180 <= (delta as int) && (delta as int) <= 180,
                                ;
                            }
                            let m1 = (dir_y as i64) * (delta as i64);
                            let m3 = (dir_x as i64) * (delta as i64);
                            proof {
                                assert(-(65536int * 180 * 16) <= (m1 as int) * (strength as int)
                                    <= 65536int * 180 * 16) by (nonlinear_arith)
                                    requires
                                        -(65536int * 180) <= (m1 as int)
                                            && (m1 as int) <= 65536int * 180,
                                        0 <= (strength as int) && (strength as int) <= 16,
                                ;
                                assert(-(65536int * 180 * 16) <= (m3 as int) * (strength as int)
                                    <= 65536int * 180 * 16) by (nonlinear_arith)
                                    requires
                                        -(65536int * 180) <= (m3 as int)
                                            && (m3 as int) <= 65536int * 180,
                                        0 <= (strength as int) && (strength as int) <= 16,
                                ;
                            }
                            let m2 = m1 * (strength as i64);
                            let m4 = m3 * (strength as i64);
                            proof {
                                lemma_tdiv_bounds(-(m2 as int), 655360);
                                lemma_tdiv_bounds(m4 as int, 655360);
                                assert(strength as int
                                    == force_strength(dx as int, dy as int));
                                assert(-(m2 as int) == -((dir_y as int) * (delta as int)
                                    * force_strength(dx as int, dy as int)))
                                    by (nonlinear_arith)
                                    requires
                                        m2 as int == (m1 as int) * (strength as int),
                                        m1 as int == (dir_y as int) * (delta as int),
                                        strength as int
                                            == force_strength(dx as int, dy as int),
                                ;
                                assert(m4 as int == (dir_x as int) * (delta as int)
                                    * force_strength(dx as int, dy as int))
                                    by (nonlinear_arith)
                                    requires
                                        m4 as int == (m3 as int) * (strength as int),
                                        m3 as int == (dir_x as int) * (delta as int),
                                        strength as int
                                            == force_strength(dx as int, dy as int),
                                ;
                            }
                            let imp_x = tdiv_i64(-m2, 655360);
                            let imp_y = tdiv_i64(m4, 655360);
                            let v = get_velocity(velocity_buffer, usx, usy);
                            let nvx = clamp_i64(v.vx as i64 + imp_x, -20, 20);
                            let nvy = clamp_i64(v.vy as i64 + imp_y, -20, 20);
                            set_velocity(
                                velocity_buffer,
                                usx,
                                usy,
                                SandVelocity { vx: nvx as i8, vy: nvy as i8 },
                            );
                            wrote = true;
                            proof {
                                assert(vel_at(*velocity_buffer, sx as int, sy as int)
                                    == pushed_vel(
                                        vel_at(pre, sx as int, sy as int),
                                        dir_x as int, dir_y as int, delta as int,
                                        dx as int, dy as int));
                            }
                        }
                    }
                }
            }
            proof {
                assert forall|i: int, j: int|
                    #![trigger vel_at(*velocity_buffer, i, j)]
                    vel_at(*velocity_buffer, i, j) == (if bit(*sand_buffer, i, j)
                        && in_force_window(i - base_x as int, j - base_y as int)
                        && ((j - base_y as int) < dy as int
                            || (j - base_y as int == dy as int
                                && (i - base_x as int) < dx as int + 1)) {
                        pushed_vel(
                            vel_at(*old(velocity_buffer), i, j),
                            dir_x as int, dir_y as int, delta as int,
                            i - base_x as int, j - base_y as int)
                    } else {
                        vel_at(*old(velocity_buffer), i, j)
                    }) by {
                    if i - base_x as int == dx as int && j - base_y as int == dy as int {
                        if !wrote {
                            assert(vel_at(*velocity_buffer, i, j) == vel_at(pre, i, j));
                        }
                    } else {
                        assert(vel_at(*velocity_buffer, i, j) == vel_at(pre, i, j));
                    }
                }
            }
            dx += 1;
        }
        dy += 1;
    }
}

/// Push sand near rotating platforms. Only sand cells are touched, every
/// touched cell ends within the clamp range, a frame in which no platform
/// rotated imparts nothing at all, and a resting sand cell near a lone
/// rotating platform's anchor ends with each velocity component on the
/// side of the perpendicular-to-heading impulse.
#[verifier::loop_isolation(false)]
#[verifier::rlimit(60)]
pub fn apply_platform_forces(
    sand_buffer: &BitPlane,
    velocity_buffer: &mut VelocityField,
    platforms: &Vec<Platform>,
)
    requires
        wf(*sand_buffer),
        vf_wf(*old(velocity_buffer)),
        old(velocity_buffer).width == sand_buffer.width,
        old(velocity_buffer).height == sand_buffer.height,
        forall|p: int| 0 <= p < platforms@.len() ==> platform_wf(#[trigger] platforms@[p]),
    ensures
        vf_wf(*final(velocity_buffer)),
        same_vel_dims(*final(velocity_buffer), *old(velocity_buffer)),
        final(velocity_buffer).width == old(velocity_buffer).width,
        final(velocity_buffer).height == old(velocity_buffer).height,
        forall|i: int, j: int|
            #![trigger vel_at(*final(velocity_buffer), i, j)]
            vel_at(*final(velocity_buffer), i, j) == vel_at(*old(velocity_buffer), i, j)
                || (bit(*sand_buffer, i, j)
                    && force_clamped(vel_at(*final(velocity_buffer), i, j))),
        (forall|p: int| 0 <= p < platforms@.len()
            ==> wrapped_delta(
                (#[trigger] platforms@[p]).angle as int,
                platforms@[p].prev_angle as int) == 0)
            ==> final(velocity_buffer).cells@ == old(velocity_buffer).cells@,
        // a changed cell lies within the force radius of an on-plane
        // sampled point of some rotating platform's walk
        forall|i: int, j: int|
            #![trigger vel_at(*final(velocity_buffer), i, j)]
            vel_at(*final(velocity_buffer), i, j) != vel_at(*old(velocity_buffer), i, j)
                ==> exists|p: int, k: int|
                    #![trigger traj_px(platforms@[p], k)]
                    0 <= p < platforms@.len() && 0 <= k < FORCE_LENGTH
                    && wrapped_delta(platforms@[p].angle as int,
                        platforms@[p].prev_angle as int) != 0
                    && 0 <= traj_px(platforms@[p], k)
                    && traj_px(platforms@[p], k) < sand_buffer.width
                    && 0 <= traj_py(platforms@[p], k)
                    && traj_py(platforms@[p], k) < sand_buffer.height
                    && in_force_window(
                        i - traj_px(platforms@[p], k), j - traj_py(platforms@[p], k)),
        // the scenario law: near a lone rotating platform the impulse is
        // perpendicular to the heading
        forall|i: int, j: int|
            lone_spin_target(*sand_buffer, *old(velocity_buffer), platforms@, i, j)
                ==> ({
                    let pl = platforms@[0];
                    let delta = wrapped_delta(pl.angle as int, pl.prev_angle as int);
                    let dir_xq = cos_q16_spec(pl.angle as int);
                    let dir_yq = sin_q16_spec(pl.angle as int);
                    &&& pushed_component_bounds(
                        -(dir_yq * delta),
                        impulse_x(dir_yq, delta, i - pl.x, j - pl.y),
                        vel_at(*final(velocity_buffer), i, j).vx as int)
                    &&& pushed_component_bounds(
                        dir_xq * delta,
                        impulse_y(dir_xq, delta, i - pl.x, j - pl.y),
                        vel_at(*final(velocity_buffer), i, j).vy as int)
                }),
{
    let nplat = platforms.len();
    let mut pi: usize = 0;
    while pi < nplat
        invariant
            pi <= nplat,
            vf_wf(*velocity_buffer),
            same_vel_dims(*velocity_buffer, *old(velocity_buffer)),
            velocity_buffer.width == old(velocity_buffer).width,
            velocity_buffer.height == old(velocity_buffer).height,
            forall|i: int, j: int|
                #![trigger vel_at(*velocity_buffer, i, j)]
                vel_at(*velocity_buffer, i, j) == vel_at(*old(velocity_buffer), i, j)
                    || (bit(*sand_buffer, i, j)
                        && force_clamped(vel_at(*velocity_buffer, i, j))),
            (forall|p: int| 0 <= p < platforms@.len()
                ==> wrapped_delta(
                    (#[trigger] platforms@[p]).angle as int,
                    platforms@[p].prev_angle as int) == 0)
                ==> velocity_buffer.cells@ == old(velocity_buffer).cells@,
            nplat == platforms@.len(),
            forall|i: int, j: int|
                #![trigger vel_at(*velocity_buffer, i, j)]
                vel_at(*velocity_buffer, i, j) != vel_at(*old(velocity_buffer), i, j)
                    ==> exists|p: int, k: int|
                        #![trigger traj_px(platforms@[p], k)]
                        0 <= p < pi && 0 <= k < FORCE_LENGTH
                        && wrapped_delta(platforms@[p].angle as int,
                            platforms@[p].prev_angle as int) != 0
                        && 0 <= traj_px(platforms@[p], k)
                        && traj_px(platforms@[p], k) < sand_buffer.width
                        && 0 <= traj_py(platforms@[p], k)
                        && traj_py(platforms@[p], k) < sand_buffer.height
                        && in_force_window(
                            i - traj_px(platforms@[p], k), j - traj_py(platforms@[p], k)),
            nplat == 1 && pi == 0
                ==> velocity_buffer.cells@ == old(velocity_buffer).cells@,
            nplat == 1 && pi == 1 ==> forall|i: int, j: int|
                lone_spin_target(*sand_buffer, *old(velocity_buffer), platforms@, i, j)
                    ==> ({
                        let pl = platforms@[0];
                        let delta = wrapped_delta(pl.angle as int, pl.prev_angle as int);
                        let dir_xq = cos_q16_spec(pl.angle as int);
                        let dir_yq = sin_q16_spec(pl.angle as int);
                        &&& pushed_component_bounds(
                            -(dir_yq * delta),
                            impulse_x(dir_yq, delta, i - pl.x, j - pl.y),
                            vel_at(*velocity_buffer, i, j).vx as int)
                        &&& pushed_component_bounds(
                            dir_xq * delta,
                            impulse_y(dir_xq, delta, i - pl.x, j - pl.y),
                            vel_at(*velocity_buffer, i, j).vy as int)
                    }),
        decreases nplat - pi,
    {
        let pl = platforms[pi];
        let delta = pl.rotation_delta();
        if delta != 0 {
            let dir_x = cos_q16(pl.angle);
            let dir_y = sin_q16(pl.angle);
            let mut px_q: i64 = (pl.x as i64) * 65536;
            let mut py_q: i64 = (pl.y as i64) * 65536;
            let mut s: usize = 0;
            while s < FORCE_LENGTH
                invariant
                    s <= FORCE_LENGTH,
                    vf_wf(*velocity_buffer),
                    same_vel_dims(*velocity_buffer, *old(velocity_buffer)),
                    velocity_buffer.width == old(velocity_buffer).width,
                    velocity_buffer.height == old(velocity_buffer).height,
                    px_q as int == pl.x * 65536 + s * (dir_x as int),
                    py_q as int == pl.y * 65536 + s * (dir_y as int),
                    forall|i: int, j: int|
                        #![trigger vel_at(*velocity_buffer, i, j)]
                        vel_at(*velocity_buffer, i, j) == vel_at(*old(velocity_buffer), i, j)
                            || (bit(*sand_buffer, i, j)
                                && force_clamped(vel_at(*velocity_buffer, i, j))),
                    forall|i: int, j: int|
                        #![trigger vel_at(*velocity_buffer, i, j)]
                        vel_at(*velocity_buffer, i, j) != vel_at(*old(velocity_buffer), i, j)
                            ==> exists|p: int, k: int|
                                #![trigger traj_px(platforms@[p], k)]
                                0 <= p < platforms@.len() && 0 <= k < FORCE_LENGTH
                                && (p < pi || (p == pi && k < s))
                                && wrapped_delta(platforms@[p].angle as int,
                                    platforms@[p].prev_angle as int) != 0
                                && 0 <= traj_px(platforms@[p], k)
                                && traj_px(platforms@[p], k) < sand_buffer.width
                                && 0 <= traj_py(platforms@[p], k)
                                && traj_py(platforms@[p], k) < sand_buffer.height
                                && in_force_window(
                                    i - traj_px(platforms@[p], k),
                                    j - traj_py(platforms@[p], k)),
                    nplat == 1 && pi == 0 && s == 0
                        ==> velocity_buffer.cells@ == old(velocity_buffer).cells@,
                    nplat == 1 && pi == 0 && s >= 1 ==> forall|i: int, j: int|
                        lone_spin_target(
                            *sand_buffer, *old(velocity_buffer), platforms@, i, j)
                            ==> ({
                                let lp = platforms@[0];
                                let ld = wrapped_delta(
                                    lp.angle as int, lp.prev_angle as int);
                                let dir_xq = cos_q16_spec(lp.angle as int);
                                let dir_yq = sin_q16_spec(lp.angle as int);
                                &&& pushed_component_bounds(
                                    -(dir_yq * ld),
                                    impulse_x(dir_yq, ld, i - lp.x, j - lp.y),
                                    vel_at(*velocity_buffer, i, j).vx as int)
                                &&& pushed_component_bounds(
                                    dir_xq * ld,
                                    impulse_y(dir_xq, ld, i - lp.x, j - lp.y),
                                    vel_at(*velocity_buffer, i, j).vy as int)
                            }),
                decreases FORCE_LENGTH - s,
            {
                proof {
                    assert(-(30int * 65536) <= (s as int) * (dir_x as int) <= 30int * 65536)
                        by (nonlinear_arith)
                        requires 0 <= s < 30, -65536 <= (dir_x as int) <= 65536,
                    ;
                    assert(-(30int * 65536) <= (s as int) * (dir_y as int) <= 30int * 65536)
                        by (nonlinear_arith)
                        requires 0 <= s < 30, -65536 <= (dir_y as int) <= 65536,
                    ;
                }
                let bx = round_q16(px_q);
                let by = round_q16(py_q);
                let ghost at_call = *velocity_buffer;
                let mut called = false;
                let ghost mut call_bx: int = 0;
                let ghost mut call_by: int = 0;
                if bx >= 0 && by >= 0 {
                    let ubx = bx as usize;
                    let uby = by as usize;
                    if ubx < sand_buffer.width && uby < sand_buffer.height {
                        apply_point_force(
                            sand_buffer, velocity_buffer, ubx, uby, dir_x, dir_y, delta);
                        called = true;
                        proof {
                            call_bx = ubx as int;
                            call_by = uby as int;
                        }
                    }
                }
                proof {
                    assert forall|i: int, j: int|
                        #![trigger vel_at(*velocity_buffer, i, j)]
                        vel_at(*velocity_buffer, i, j) == vel_at(*old(velocity_buffer), i, j)
                            || (bit(*sand_buffer, i, j)
                                && force_clamped(vel_at(*velocity_buffer, i, j)))
                    by {
                        if called && vel_at(*velocity_buffer, i, j) != vel_at(at_call, i, j) {
                            lemma_impulse_signs(dir_x as int, dir_y as int, delta as int,
                                i - call_bx, j - call_by);
                        }
                    }
                    assert forall|i: int, j: int|
                        #![trigger vel_at(*velocity_buffer, i, j)]
                        vel_at(*velocity_buffer, i, j) != vel_at(*old(velocity_buffer), i, j)
                            implies exists|p: int, k: int|
                                #![trigger traj_px(platforms@[p], k)]
                                0 <= p < platforms@.len() && 0 <= k < FORCE_LENGTH
                                && (p < pi as int || (p == pi as int && k < s as int + 1))
                                && wrapped_delta(platforms@[p].angle as int,
                                    platforms@[p].prev_angle as int) != 0
                                && 0 <= traj_px(platforms@[p], k)
                                && traj_px(platforms@[p], k) < sand_buffer.width
                                && 0 <= traj_py(platforms@[p], k)
                                && traj_py(platforms@[p], k) < sand_buffer.height
                                && in_force_window(
                                    i - traj_px(platforms@[p], k),
                                    j - traj_py(platforms@[p], k)) by {
                        if vel_at(*velocity_buffer, i, j) != vel_at(at_call, i, j) {
                            assert(called);
                            assert(in_force_window(i - call_bx, j - call_by));
                            assert(call_bx == traj_px(platforms@[pi as int], s as int));
                            assert(call_by == traj_py(platforms@[pi as int], s as int));
                            assert(0 <= traj_px(platforms@[pi as int], s as int)
                                && traj_px(platforms@[pi as int], s as int)
                                    < sand_buffer.width);
                            assert(wrapped_delta(platforms@[pi as int].angle as int,
                                platforms@[pi as int].prev_angle as int) != 0);
                        } else {
                            assert(vel_at(at_call, i, j) != vel_at(*old(velocity_buffer), i, j));
                            let (pp, kk) = choose|p: int, k: int|
                                #![trigger traj_px(platforms@[p], k)]
                                0 <= p < platforms@.len() && 0 <= k < FORCE_LENGTH
                                && (p < pi as int || (p == pi as int && k < s as int))
                                && wrapped_delta(platforms@[p].angle as int,
                                    platforms@[p].prev_angle as int) != 0
                                && 0 <= traj_px(platforms@[p], k)
                                && traj_px(platforms@[p], k) < sand_buffer.width
                                && 0 <= traj_py(platforms@[p], k)
                                && traj_py(platforms@[p], k) < sand_buffer.height
                                && in_force_window(
                                    i - traj_px(platforms@[p], k),
                                    j - traj_py(platforms@[p], k));
                            assert(0 <= traj_px(platforms@[pp], kk));
                        }
                    }
                    if nplat == 1 && pi == 0 {
                        assert forall|i: int, j: int|
                            lone_spin_target(
                                *sand_buffer, *old(velocity_buffer), platforms@, i, j)
                                implies ({
                                    let lp = platforms@[0];
                                    let ld = wrapped_delta(
                                        lp.angle as int, lp.prev_angle as int);
                                    let dir_xq = cos_q16_spec(lp.angle as int);
                                    let dir_yq = sin_q16_spec(lp.angle as int);
                                    &&& pushed_component_bounds(
                                        -(dir_yq * ld),
                                        impulse_x(dir_yq, ld, i - lp.x, j - lp.y),
                                        vel_at(*velocity_buffer, i, j).vx as int)
                                    &&& pushed_component_bounds(
                                        dir_xq * ld,
                                        impulse_y(dir_xq, ld, i - lp.x, j - lp.y),
                                        vel_at(*velocity_buffer, i, j).vy as int)
                                }) by {
                            let lp = platforms@[0];
                            let ld = wrapped_delta(lp.angle as int, lp.prev_angle as int);
                            let dir_xq = cos_q16_spec(lp.angle as int);
                            let dir_yq = sin_q16_spec(lp.angle as int);
                            let dx0 = i - lp.x;
                            let dy0 = j - lp.y;
                            lemma_impulse_signs(dir_xq, dir_yq, ld, dx0, dy0);
                            if s == 0 {
                                // the first sampled point is the anchor itself
                                assert(px_q as int == lp.x * 65536) by (nonlinear_arith)
                                    requires
                                        px_q as int
                                            == lp.x * 65536 + (s as int) * (dir_x as int),
                                        s == 0,
                                ;
                                assert(py_q as int == lp.y * 65536) by (nonlinear_arith)
                                    requires
                                        py_q as int
                                            == lp.y * 65536 + (s as int) * (dir_y as int),
                                        s == 0,
                                ;
                                crate::fixed::lemma_round_anchor(lp.x as int);
                                crate::fixed::lemma_round_anchor(lp.y as int);
                                assert(call_bx == lp.x && call_by == lp.y);
                                assert(vel_at(at_call, i, j) == zero_vel());
                                assert(vel_at(*velocity_buffer, i, j) == pushed_vel(
                                    zero_vel(), dir_x as int, dir_y as int, delta as int,
                                    dx0, dy0));
                            } else {
                                if called
                                    && bit(*sand_buffer, i, j)
                                    && in_force_window(i - call_bx, j - call_by) {
                                    lemma_impulse_signs(
                                        dir_x as int, dir_y as int, delta as int,
                                        i - call_bx, j - call_by);
                                    assert(vel_at(*velocity_buffer, i, j) == pushed_vel(
                                        vel_at(at_call, i, j),
                                        dir_x as int, dir_y as int, delta as int,
                                        i - call_bx, j - call_by));
                                } else {
                                    assert(vel_at(*velocity_buffer, i, j)
                                        == vel_at(at_call, i, j));
                                }
                            }
                        }
                    }
                }
                proof {
                    assert((s as int + 1) * (dir_x as int)
                        == (s as int) * (dir_x as int) + (dir_x as int)) by (nonlinear_arith);
                    assert((s as int + 1) * (dir_y as int)
                        == (s as int) * (dir_y as int) + (dir_y as int)) by (nonlinear_arith);
                }
                px_q = px_q + (dir_x as i64);
                py_q = py_q + (dir_y as i64);
                s += 1;
            }
            proof {
                assert(wrapped_delta(
                    platforms@[pi as int].angle as int,
                    platforms@[pi as int].prev_angle as int) != 0);
            }
        } else {
            proof {
                if nplat == 1 {
                    assert(wrapped_delta(
                        platforms@[0].angle as int, platforms@[0].prev_angle as int) == 0);
                }
            }
        }
        pi += 1;
    }
}

} // verus!
