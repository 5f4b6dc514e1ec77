//! Line-shaped solid obstacles, static and rotating.
//!
//! Each frame the obstacle plane is rebuilt from scratch: a fixed set of
//! static horizontal ledges, then every platform as a 25-step walk from its
//! anchor along its heading in Q16 fixed point, each visited pixel thickened
//! by its right, lower and diagonal neighbours.

use vstd::prelude::*;
use crate::bitplane::{bit, clear_buffer, get_pixel, in_bounds, same_dims, set_pixel, wf, BitPlane};
use crate::consts::{PIXEL_WIDTH, ROWS};
use crate::fixed::{round_q16, tdiv};
use crate::rng::rng_next_u32;
use crate::utils::{cos_q16, cos_q16_spec, rand_range, sin_q16, sin_q16_spec};

verus! {

/// Platform anchors stay far below this bound, which keeps the Q16 walk
/// inside 64-bit arithmetic.
pub const ANCHOR_LIMIT: usize = 1000000;

/// Unit steps walked when rasterizing a platform.
pub const PLATFORM_LENGTH: usize = 25;

/// A line segment anchored at `(x, y)` drawn along `angle` degrees;
/// `prev_angle` remembers the heading of the previous frame so the force
/// propagation can compute a signed rotation delta.
#[derive(Clone, Copy, PartialEq, Eq, Structural, Debug)]
pub struct Platform {
    pub x: usize,
    pub y: usize,
    pub angle: u32,
    pub prev_angle: u32,
}

pub open spec fn platform_wf(p: Platform) -> bool {
    &&& p.angle < 360
    &&& p.prev_angle < 360
    &&& p.x <= ANCHOR_LIMIT
    &&& p.y <= ANCHOR_LIMIT
}

/// The signed shortest-path rotation from `prev` to `angle`, wrapped into
/// `(-180, 180]`: a half-turn is reported as +180.
pub open spec fn wrapped_delta(angle: int, prev: int) -> int {
    let d = angle - prev;
    if d > 180 {
        d - 360
    } else if d <= -180 {
        d + 360
    } else {
        d
    }
}

impl Platform {
    pub fn new(x: usize, y: usize, angle: u32) -> (p: Platform)
        requires
            x <= ANCHOR_LIMIT,
            y <= ANCHOR_LIMIT,
            angle < 360,
        ensures
            p == (Platform { x, y, angle, prev_angle: angle }),
            platform_wf(p),
    {
        Platform { x, y, angle, prev_angle: angle }
    }

    /// Rotate by `delta` degrees, wrapping into `[0, 360)` and remembering
    /// the prior heading for rotation-delta computation.
    pub fn update_angle(&mut self, delta: i32)
        requires
            platform_wf(*old(self)),
        ensures
            platform_wf(*final(self)),
            final(self).x == old(self).x,
            final(self).y == old(self).y,
            final(self).prev_angle == old(self).angle,
            final(self).angle as int == (old(self).angle + delta) % 360,
    {
        self.prev_angle = self.angle;
        let t: i64 = self.angle as i64 + delta as i64 + 2147483880;
        proof {
            vstd::arithmetic::div_mod::lemma_mod_multiples_vanish(
                5965233, old(self).angle + delta as int, 360);
            assert(360 * 5965233 + (old(self).angle + delta as int)
                == old(self).angle as int + delta as int + 2147483880);
        }
        self.angle = ((t as u64) % 360) as u32;
    }

    /// The signed shortest-path rotation since the previous frame.
    pub fn rotation_delta(&self) -> (r: i32)
        requires
            platform_wf(*self),
        ensures
            r as int == wrapped_delta(self.angle as int, self.prev_angle as int),
            -180 < r <= 180,
    {
        let d = self.angle as i32 - self.prev_angle as i32;
        if d > 180 {
            d - 360
        } else if d <= -180 {
            d + 360
        } else {
            d
        }
    }
}

/// Whether cell `(x, y)` of the obstacle plane is solid.
pub fn is_platform(platform_buffer: &BitPlane, x: usize, y: usize) -> (r: bool)
    requires
        wf(*platform_buffer),
    ensures
        r == bit(*platform_buffer, x as int, y as int),
{
    get_pixel(platform_buffer, x, y)
}

/// Eight platforms with random anchors and headings.
#[verifier::loop_isolation(false)]
pub fn create_initial_platforms(rng: &mut rand::rngs::SmallRng) -> (r: Vec<Platform>)
    ensures
        r@.len() == 8,
        forall|i: int| 0 <= i < 8 ==> platform_wf(#[trigger] r@[i]),
        forall|i: int| 0 <= i < 8
            ==> 50 <= #[trigger] r@[i].x < 350 && 30 <= r@[i].y < 190
                && r@[i].prev_angle == r@[i].angle,
{
    let mut platforms: Vec<Platform> = Vec::new();
    let mut i: usize = 0;
    while i < 8
        invariant
            i <= 8,
            platforms@.len() == i,
            forall|k: int| 0 <= k < i ==> platform_wf(#[trigger] platforms@[k]),
            forall|k: int| 0 <= k < i ==> 50 <= #[trigger] platforms@[k].x < 350
                && 30 <= platforms@[k].y < 190
                && platforms@[k].prev_angle == platforms@[k].angle,
        decreases 8 - i,
    {
        let x = rand_range(50, PIXEL_WIDTH - 50, rng);
        let y = rand_range(30, ROWS - 50, rng);
        let angle = rng_next_u32(rng) % 360;
        platforms.push(Platform::new(x, y, angle));
        i += 1;
    }
    platforms
}

/// Pixel column visited at step `k` of the walk along platform `pl`.
pub open spec fn traj_px(pl: Platform, k: int) -> int {
    tdiv(pl.x * 65536 + k * cos_q16_spec(pl.angle as int) + 32768, 65536)
}

/// Pixel row visited at step `k` of the walk along platform `pl`.
pub open spec fn traj_py(pl: Platform, k: int) -> int {
    tdiv(pl.y * 65536 + k * sin_q16_spec(pl.angle as int) + 32768, 65536)
}

/// Whether step `k` of platform `pl` paints cell `(i, j)` on a `w` x `h`
/// plane: the step's base pixel must lie on the plane, and the cell is the
/// base pixel or one of its right, lower or diagonal neighbours, clipped to
/// the plane.
pub open spec fn stamp_at(pl: Platform, k: int, w: int, h: int, i: int, j: int) -> bool {
    let px = traj_px(pl, k);
    let py = traj_py(pl, k);
    &&& 0 <= px < w
    &&& 0 <= py < h
    &&& px <= i <= px + 1
    &&& py <= j <= py + 1
    &&& i < w
    &&& j < h
}

/// Rasterize one platform into the obstacle plane. Exactly the cells
/// painted by the 25 walk steps are added; no bit is ever cleared.
#[verifier::loop_isolation(false)]
pub fn draw_platform(platform_buffer: &mut BitPlane, platform: &Platform)
    requires
        wf(*old(platform_buffer)),
        platform_wf(*platform),
    ensures
        wf(*final(platform_buffer)),
        same_dims(*final(platform_buffer), *old(platform_buffer)),
        final(platform_buffer).bytes@.len() == old(platform_buffer).bytes@.len(),
        forall|i: int, j: int|
            bit(*final(platform_buffer), i, j) == (bit(*old(platform_buffer), i, j)
                || exists|k: int|
                    0 <= k < PLATFORM_LENGTH && stamp_at(
                        *platform, k,
                        old(platform_buffer).width as int,
                        old(platform_buffer).height as int,
                        i, j)),
{
    let ghost w = old(platform_buffer).width as int;
    let ghost h = old(platform_buffer).height as int;
    let dir_x = cos_q16(platform.angle);
    let dir_y = sin_q16(platform.angle);
    let mut pos_x: i64 = (platform.x as i64) * 65536;
    let mut pos_y: i64 = (platform.y as i64) * 65536;
    let mut step: usize = 0;
    while step < PLATFORM_LENGTH
        invariant
            step <= PLATFORM_LENGTH,
            wf(*platform_buffer),
            same_dims(*platform_buffer, *old(platform_buffer)),
            platform_buffer.bytes@.len() == old(platform_buffer).bytes@.len(),
            pos_x as int == platform.x * 65536 + step * (dir_x as int),
            pos_y as int == platform.y * 65536 + step * (dir_y as int),
            forall|i: int, j: int|
                bit(*platform_buffer, i, j) == (bit(*old(platform_buffer), i, j)
                    || exists|k: int| 0 <= k < step && stamp_at(*platform, k, w, h, i, j)),
        decreases PLATFORM_LENGTH - step,
    {
        proof {
            assert(-(25int * 65536) <= (step as int) * (dir_x as int) <= 25int * 65536)
                by (nonlinear_arith)
                requires 0 <= step < 25, -65536 <= (dir_x as int) <= 65536,
            ;
            assert(-(25int * 65536) <= (step as int) * (dir_y as int) <= 25int * 65536)
                by (nonlinear_arith)
                requires 0 <= step < 25, -65536 <= (dir_y as int) <= 65536,
            ;
        }
        let ghost pre = *platform_buffer;
        let px = round_q16(pos_x);
        let py = round_q16(pos_y);
        proof {
            assert(px as int == traj_px(*platform, step as int));
            assert(py as int == traj_py(*platform, step as int));
        }
        if px >= 0 && py >= 0 {
            let ux = px as usize;
            let uy = py as usize;
            if ux < platform_buffer.width && uy < platform_buffer.height {
                set_pixel(platform_buffer, ux, uy, true);
                set_pixel(platform_buffer, ux + 1, uy, true);
                set_pixel(platform_buffer, ux, uy + 1, true);
                set_pixel(platform_buffer, ux + 1, uy + 1, true);
            }
        }
        proof {
            let ghost pxi = traj_px(*platform, step as int);
            let ghost pyi = traj_py(*platform, step as int);
            assert forall|i: int, j: int|
                bit(*platform_buffer, i, j) == (bit(*old(platform_buffer), i, j)
                    || exists|k: int| 0 <= k < step + 1 && stamp_at(*platform, k, w, h, i, j))
            by {
                if 0 <= pxi < w && 0 <= pyi < h {
                    if pxi <= i <= pxi + 1 && pyi <= j <= pyi + 1 && i < w && j < h {
                        assert(stamp_at(*platform, step as int, w, h, i, j));
                        assert(bit(*platform_buffer, i, j));
                    } else {
                        assert(bit(*platform_buffer, i, j) == bit(pre, i, j));
                        if bit(pre, i, j) && !bit(*old(platform_buffer), i, j) {
                            let kk = choose|k: int|
                                0 <= k < step && stamp_at(*platform, k, w, h, i, j);
                            assert(0 <= kk < step + 1 && stamp_at(*platform, kk, w, h, i, j));
                        }
                        if !bit(pre, i, j) {
                            assert forall|k: int|
                                0 <= k < step + 1 implies !stamp_at(*platform, k, w, h, i, j)
                            by {
                                if k < step {
                                    assert(!stamp_at(*platform, k, w, h, i, j));
                                }
                            }
                        }
                    }
                } else {
                    assert(bit(*platform_buffer, i, j) == bit(pre, i, j));
                    if bit(pre, i, j) && !bit(*old(platform_buffer), i, j) {
                        let kk = choose|k: int|
                            0 <= k < step && stamp_at(*platform, k, w, h, i, j);
                        assert(0 <= kk < step + 1 && stamp_at(*platform, kk, w, h, i, j));
                    }
                }
            }
            assert((step as int + 1) * (dir_x as int)
                == (step as int) * (dir_x as int) + (dir_x as int)) by (nonlinear_arith);
            assert((step as int + 1) * (dir_y as int)
                == (step as int) * (dir_y as int) + (dir_y as int)) by (nonlinear_arith);
        }
        pos_x = pos_x + (dir_x as i64);
        pos_y = pos_y + (dir_y as i64);
        step += 1;
    }
}

/// The fixed level geometry: four static horizontal ledges, clipped to the
/// plane.
pub open spec fn static_ledge_cell(w: int, h: int, i: int, j: int) -> bool {
    ||| (h >= 20 && j == h - 20 && 50 <= i < 350 && i < w)
    ||| (h >= 60 && j == h - 60 && 80 <= i < 200 && i < w)
    ||| (h >= 80 && j == h - 80 && 250 <= i < 370 && i < w)
    ||| (h >= 120 && j == h - 120 && 150 <= i < 300 && i < w)
}

/// Paint the half-open horizontal run `[x0, x1)` of row `y`, clipped to the
/// plane.
#[verifier::loop_isolation(false)]
fn draw_hline(plane: &mut BitPlane, x0: usize, x1: usize, y: usize)
    requires
        wf(*old(plane)),
        x0 <= x1,
    ensures
        wf(*final(plane)),
        same_dims(*final(plane), *old(plane)),
        final(plane).bytes@.len() == old(plane).bytes@.len(),
        forall|i: int, j: int|
            bit(*final(plane), i, j) == (bit(*old(plane), i, j)
                || (x0 <= i < x1 && j == y && in_bounds(*old(plane), i, j))),
{
    let mut x = x0;
    while x < x1
        invariant
            x0 <= x <= x1,
            wf(*plane),
            same_dims(*plane, *old(plane)),
            plane.bytes@.len() == old(plane).bytes@.len(),
            forall|i: int, j: int|
                bit(*plane, i, j) == (bit(*old(plane), i, j)
                    || (x0 <= i < x && j == y && in_bounds(*old(plane), i, j))),
        decreases x1 - x,
    {
        set_pixel(plane, x, y, true);
        x += 1;
    }
}

/// Rebuild the obstacle plane from scratch: clear it, paint the static
/// ledges, then rasterize every platform at its current heading. The result
/// holds exactly the ledge cells and the platform stamps.
#[verifier::loop_isolation(false)]
pub fn redraw_platforms(platform_buffer: &mut BitPlane, platforms: &Vec<Platform>)
    requires
        wf(*old(platform_buffer)),
        forall|p: int| 0 <= p < platforms@.len() ==> platform_wf(#[trigger] platforms@[p]),
    ensures
        wf(*final(platform_buffer)),
        same_dims(*final(platform_buffer), *old(platform_buffer)),
        final(platform_buffer).bytes@.len() == old(platform_buffer).bytes@.len(),
        forall|i: int, j: int|
            bit(*final(platform_buffer), i, j) == (static_ledge_cell(
                old(platform_buffer).width as int, old(platform_buffer).height as int, i, j)
                || exists|p: int, k: int|
                    0 <= p < platforms@.len() && 0 <= k < PLATFORM_LENGTH
                        && stamp_at(platforms@[p], k,
                            old(platform_buffer).width as int,
                            old(platform_buffer).height as int, i, j)),
{
    let ghost w = old(platform_buffer).width as int;
    let ghost h = old(platform_buffer).height as int;
    clear_buffer(platform_buffer);
    if platform_buffer.height >= 20 {
        let row = platform_buffer.height - 20;
        draw_hline(platform_buffer, 50, 350, row);
    }
    if platform_buffer.height >= 60 {
        let row = platform_buffer.height - 60;
        draw_hline(platform_buffer, 80, 200, row);
    }
    if platform_buffer.height >= 80 {
        let row = platform_buffer.height - 80;
        draw_hline(platform_buffer, 250, 370, row);
    }
    if platform_buffer.height >= 120 {
        let row = platform_buffer.height - 120;
        draw_hline(platform_buffer, 150, 300, row);
    }
    proof {
        assert forall|i: int, j: int|
            bit(*platform_buffer, i, j) == static_ledge_cell(w, h, i, j) by {}
    }
    let n = platforms.len();
    let mut idx: usize = 0;
    while idx < n
        invariant
            idx <= n,
            n == platforms@.len(),
            wf(*platform_buffer),
            same_dims(*platform_buffer, *old(platform_buffer)),
            platform_buffer.bytes@.len() == old(platform_buffer).bytes@.len(),
            forall|p: int| 0 <= p < platforms@.len() ==> platform_wf(#[trigger] platforms@[p]),
            forall|i: int, j: int|
                bit(*platform_buffer, i, j) == (static_ledge_cell(w, h, i, j)
                    || exists|p: int, k: int|
                        0 <= p < idx && 0 <= k < PLATFORM_LENGTH
                            && stamp_at(platforms@[p], k, w, h, i, j)),
        decreases n - idx,
    {
        let ghost pre = *platform_buffer;
        let pl = platforms[idx];
        draw_platform(platform_buffer, &pl);
        proof {
            assert(pre.width as int == w);
            assert(pre.height as int == h);
            assert forall|i: int, j: int|
                bit(*platform_buffer, i, j) == (static_ledge_cell(w, h, i, j)
                    || exists|p: int, k: int|
                        0 <= p < idx + 1 && 0 <= k < PLATFORM_LENGTH
                            && stamp_at(platforms@[p], k, w, h, i, j))
            by {
                if bit(*platform_buffer, i, j) {
                    if !bit(pre, i, j) {
                        let kk = choose|k: int|
                            0 <= k < PLATFORM_LENGTH && stamp_at(pl, k, w, h, i, j);
                        assert(0 <= idx < idx + 1 && 0 <= kk < PLATFORM_LENGTH
                            && stamp_at(platforms@[idx as int], kk, w, h, i, j));
                    } else {
                        if !static_ledge_cell(w, h, i, j) {
                            let (pp, kk) = choose|p: int, k: int|
                                0 <= p < idx && 0 <= k < PLATFORM_LENGTH
                                    && stamp_at(platforms@[p], k, w, h, i, j);
                            assert(0 <= pp < idx + 1 && 0 <= kk < PLATFORM_LENGTH
                                && stamp_at(platforms@[pp], kk, w, h, i, j));
                        }
                    }
                } else {
                    assert(!static_ledge_cell(w, h, i, j));
                    assert forall|p: int, k: int|
                        0 <= p < idx + 1 && 0 <= k < PLATFORM_LENGTH
                            implies !stamp_at(platforms@[p], k, w, h, i, j)
                    by {
                        if p < idx {
                            assert(!stamp_at(platforms@[p], k, w, h, i, j));
                        } else {
                            assert(platforms@[p] == pl);
                        }
                    }
                }
            }
        }
        idx += 1;
    }
}

} // verus!
