//! The simulation state and the per-frame tick.
//!
//! `FallingSand` owns every buffer: the particle plane, the obstacle
//! plane, the velocity field, the platforms and the random generator. One
//! `tick` per display refresh consumes the already-polled input, runs the
//! adaptive number of automaton passes, and returns the coalesced dirty
//! row intervals for the display collaborator; the caller composes the
//! planes into its frame with `copy_to_frame`.

use vstd::prelude::*;
use crate::automaton::{pass_step, update_sand_with_velocity};
use crate::bitplane::{
    bit, clear_buffer, in_bounds, lemma_same_bits, plane_empty, same_dims, set_pixel,
    total_bits, wf, BitPlane,
};
use crate::compose::convert_intro_to_sand;
use crate::consts::{PIXEL_WIDTH, ROWS, SAND_BRUSH_SIZE};
use crate::density::{calculate_screen_density, controller_plan, performance_plan};
use crate::dirty::{
    dirty_row_intervals, lemma_empty_mask_no_runs, lemma_runs_cover, lemma_runs_wellformed,
    row_runs,
};
use crate::forces::apply_platform_forces;
use crate::platform::{
    create_initial_platforms, platform_wf, redraw_platforms, stamp_at, static_ledge_cell,
    Platform, PLATFORM_LENGTH,
};
use crate::rng::rng_from_seed;
use crate::utils::rand_range;
use crate::velocity::{clear_velocity_buffer, field_at_rest, vf_wf, VelocityField};

verus! {

/// Particles rained onto the top row each running frame.
pub const RAIN_RATE: usize = 6;

/// The already-debounced input of one frame: pressed buttons and the
/// platform rotation the crank produced (0 when the crank did not move).
#[derive(Clone, Copy)]
pub struct FrameInput {
    pub any_pressed: bool,
    pub a: bool,
    pub b: bool,
    pub left: bool,
    pub right: bool,
    pub up: bool,
    pub down: bool,
    pub angle_delta: i32,
}

/// What the display collaborator must do after a tick.
pub struct TickResult {
    pub cleared: bool,
    pub show_intro: bool,
    pub intervals: Vec<(usize, usize)>,
}

/// The complete simulation state.
pub struct FallingSand {
    pub rng: rand::rngs::SmallRng,
    pub started: bool,
    pub position_x: usize,
    pub position_y: usize,
    pub frame_counter: u32,
    pub screen_density: u8,
    pub sand_buffer: BitPlane,
    pub platform_buffer: BitPlane,
    pub velocity_buffer: VelocityField,
    pub platforms: Vec<Platform>,
}

pub open spec fn game_wf(g: FallingSand) -> bool {
    &&& wf(g.sand_buffer)
    &&& wf(g.platform_buffer)
    &&& vf_wf(g.velocity_buffer)
    &&& g.sand_buffer.width == PIXEL_WIDTH
    &&& g.sand_buffer.height == ROWS
    &&& g.sand_buffer.bytes@.len() <= 0x1000_0000
    &&& same_dims(g.sand_buffer, g.platform_buffer)
    &&& g.velocity_buffer.width == g.sand_buffer.width
    &&& g.velocity_buffer.height == g.sand_buffer.height
    &&& g.position_x < PIXEL_WIDTH
    &&& g.position_y < ROWS
    &&& forall|p: int| 0 <= p < g.platforms@.len() ==> platform_wf(#[trigger] g.platforms@[p])
}

/// The endless rain: set `rate` random top-row cells. Rain and the brush
/// are the only operations that raise the particle count.
#[verifier::loop_isolation(false)]
pub fn spawn_rain(sand_buffer: &mut BitPlane, rng: &mut rand::rngs::SmallRng, rate: usize)
    requires
        wf(*old(sand_buffer)),
    ensures
        wf(*final(sand_buffer)),
        same_dims(*final(sand_buffer), *old(sand_buffer)),
        final(sand_buffer).bytes@.len() == old(sand_buffer).bytes@.len(),
        total_bits(old(sand_buffer).bytes@) <= total_bits(final(sand_buffer).bytes@),
        total_bits(final(sand_buffer).bytes@) <= total_bits(old(sand_buffer).bytes@) + rate,
        forall|i: int, j: int|
            bit(*old(sand_buffer), i, j) ==> bit(*final(sand_buffer), i, j),
        forall|i: int, j: int|
            j != 0 ==> bit(*final(sand_buffer), i, j) == bit(*old(sand_buffer), i, j),
        rate >= 1 ==> exists|i: int| bit(*final(sand_buffer), i, 0),
{
    let mut k: usize = 0;
    while k < rate
        invariant
            k <= rate,
            wf(*sand_buffer),
            same_dims(*sand_buffer, *old(sand_buffer)),
            sand_buffer.bytes@.len() == old(sand_buffer).bytes@.len(),
            total_bits(old(sand_buffer).bytes@) <= total_bits(sand_buffer.bytes@),
            total_bits(sand_buffer.bytes@) <= total_bits(old(sand_buffer).bytes@) + k,
            forall|i: int, j: int|
                bit(*old(sand_buffer), i, j) ==> bit(*sand_buffer, i, j),
            forall|i: int, j: int|
                j != 0 ==> bit(*sand_buffer, i, j) == bit(*old(sand_buffer), i, j),
            k >= 1 ==> exists|i: int| bit(*sand_buffer, i, 0),
        decreases rate - k,
    {
        let x = rand_range(0, sand_buffer.width, rng);
        set_pixel(sand_buffer, x, 0, true);
        k += 1;
    }
}

/// Whether cell `(i, j)` lies under the square brush centred at
/// `(px, py)`.
pub open spec fn in_brush(px: int, py: int, i: int, j: int) -> bool {
    px - 2 <= i <= px + 2 && py - 2 <= j <= py + 2
}

/// The sand plane the input phase hands to the automaton passes: the
/// prior plane, plus the frame's lit pixels when this press starts the
/// game, plus the brush square when the place button is down; rain may
/// add top-row cells beyond these (and adds none when the game is not
/// running).
pub open spec fn input_phase_sand(
    g: FallingSand,
    input: FrameInput,
    frame: BitPlane,
    mid: BitPlane,
) -> bool {
    let intro = input.any_pressed && !g.started;
    let raining = g.started || input.any_pressed;
    &&& same_dims(mid, g.sand_buffer)
    &&& mid.bytes@.len() == g.sand_buffer.bytes@.len()
    &&& forall|i: int, j: int| #![trigger bit(mid, i, j)]
        j != 0 ==> bit(mid, i, j) == (bit(g.sand_buffer, i, j)
            || (intro && bit(frame, i, j))
            || (input.a && in_brush(g.position_x as int, g.position_y as int, i, j)
                && in_bounds(g.sand_buffer, i, j)))
    &&& forall|i: int|
        (bit(g.sand_buffer, i, 0)
            || (intro && bit(frame, i, 0))
            || (input.a && in_brush(g.position_x as int, g.position_y as int, i, 0)
                && in_bounds(g.sand_buffer, i, 0)))
            ==> #[trigger] bit(mid, i, 0)
    &&& !raining ==> forall|i: int|
        #[trigger] bit(mid, i, 0) == (bit(g.sand_buffer, i, 0)
            || (intro && bit(frame, i, 0))
            || (input.a && in_brush(g.position_x as int, g.position_y as int, i, 0)
                && in_bounds(g.sand_buffer, i, 0)))
    &&& raining ==> exists|i: int| bit(mid, i, 0)
}

/// Fill the brush square around the cursor with sand, clipped to the
/// grid.
#[verifier::loop_isolation(false)]
pub fn place_brush(sand_buffer: &mut BitPlane, px: usize, py: usize)
    requires
        wf(*old(sand_buffer)),
        px < old(sand_buffer).width,
        py < old(sand_buffer).height,
        px as int + 4 <= usize::MAX,
        py as int + 4 <= usize::MAX,
    ensures
        wf(*final(sand_buffer)),
        same_dims(*final(sand_buffer), *old(sand_buffer)),
        final(sand_buffer).bytes@.len() == old(sand_buffer).bytes@.len(),
        forall|i: int, j: int| #![trigger bit(*final(sand_buffer), i, j)]
            bit(*final(sand_buffer), i, j) == (bit(*old(sand_buffer), i, j)
                || (in_brush(px as int, py as int, i, j) && in_bounds(*old(sand_buffer), i, j))),
        total_bits(old(sand_buffer).bytes@) <= total_bits(final(sand_buffer).bytes@),
        total_bits(final(sand_buffer).bytes@) <= total_bits(old(sand_buffer).bytes@) + 25,
{
    let mut j: usize = 0;
    while j < SAND_BRUSH_SIZE
        invariant
            j <= 5,
            wf(*sand_buffer),
            same_dims(*sand_buffer, *old(sand_buffer)),
            sand_buffer.bytes@.len() == old(sand_buffer).bytes@.len(),
            forall|u: int, v: int| #![trigger bit(*sand_buffer, u, v)]
                bit(*sand_buffer, u, v) == (bit(*old(sand_buffer), u, v)
                    || (in_brush(px as int, py as int, u, v)
                        && v < py as int - 2 + j
                        && in_bounds(*old(sand_buffer), u, v))),
            total_bits(old(sand_buffer).bytes@) <= total_bits(sand_buffer.bytes@),
            total_bits(sand_buffer.bytes@) <= total_bits(old(sand_buffer).bytes@) + j * 5,
        decreases 5 - j,
    {
        let mut i: usize = 0;
        while i < SAND_BRUSH_SIZE
            invariant
                i <= 5,
                j < 5,
                wf(*sand_buffer),
                same_dims(*sand_buffer, *old(sand_buffer)),
                sand_buffer.bytes@.len() == old(sand_buffer).bytes@.len(),
                forall|u: int, v: int| #![trigger bit(*sand_buffer, u, v)]
                    bit(*sand_buffer, u, v) == (bit(*old(sand_buffer), u, v)
                        || (in_brush(px as int, py as int, u, v)
                            && (v < py as int - 2 + j
                                || (v == py as int - 2 + j && u < px as int - 2 + i))
                            && in_bounds(*old(sand_buffer), u, v))),
                total_bits(old(sand_buffer).bytes@) <= total_bits(sand_buffer.bytes@),
                total_bits(sand_buffer.bytes@)
                    <= total_bits(old(sand_buffer).bytes@) + j * 5 + i,
            decreases 5 - i,
        {
            if px + i >= 2 && py + j >= 2 {
                set_pixel(sand_buffer, px + i - 2, py + j - 2, true);
            }
            i += 1;
        }
        j += 1;
    }
}

/// Move the cursor by the pressed arrow keys, five pixels at a time,
/// keeping a brush-sized margin to the grid edges.
pub fn move_cursor(game: &mut FallingSand, input: &FrameInput)
    requires
        game_wf(*old(game)),
    ensures
        game_wf(*final(game)),
        final(game).sand_buffer == old(game).sand_buffer,
        final(game).platform_buffer == old(game).platform_buffer,
        final(game).velocity_buffer == old(game).velocity_buffer,
        final(game).platforms == old(game).platforms,
        final(game).rng == old(game).rng,
        final(game).started == old(game).started,
        final(game).frame_counter == old(game).frame_counter,
        final(game).screen_density == old(game).screen_density,
        ({
            let x0 = old(game).position_x as int;
            let x1 = if input.left && x0 > 5 { x0 - 5 } else { x0 };
            let x2 = if input.right && x1 < 395 { x1 + 5 } else { x1 };
            final(game).position_x as int == x2
        }),
        ({
            let y0 = old(game).position_y as int;
            let y1 = if input.up && y0 > 5 { y0 - 5 } else { y0 };
            let y2 = if input.down && y1 < 235 { y1 + 5 } else { y1 };
            final(game).position_y as int == y2
        }),
{
    if input.left && game.position_x > SAND_BRUSH_SIZE {
        game.position_x = game.position_x - 5;
    }
    if input.right && game.position_x < PIXEL_WIDTH - SAND_BRUSH_SIZE {
        game.position_x = game.position_x + 5;
    }
    if input.up && game.position_y > SAND_BRUSH_SIZE {
        game.position_y = game.position_y - 5;
    }
    if input.down && game.position_y < ROWS - SAND_BRUSH_SIZE {
        game.position_y = game.position_y + 5;
    }
}

impl FallingSand {
    /// A fresh simulation: empty particle plane, resting velocity field,
    /// eight random platforms already rasterized, cursor at the resting
    /// position, and the generator seeded from the caller's clock.
    pub fn new(seed: u64) -> (g: FallingSand)
        ensures
            game_wf(g),
            !g.started,
            g.frame_counter == 0,
            g.screen_density == 0,
            g.platforms@.len() == 8,
            plane_empty(g.sand_buffer),
            total_bits(g.sand_buffer.bytes@) == 0,
            field_at_rest(g.velocity_buffer),
            g.position_x == PIXEL_WIDTH / 2,
            g.position_y == ROWS / 4,
            // the platforms lie in the spawn band, heading unrotated
            forall|k: int| 0 <= k < 8
                ==> 50 <= (#[trigger] g.platforms@[k]).x < 350
                    && 30 <= g.platforms@[k].y < 190
                    && g.platforms@[k].prev_angle == g.platforms@[k].angle,
            // the obstacle plane is exactly the rasterization of those
            // platforms over the static ledges
            forall|i: int, j: int|
                bit(g.platform_buffer, i, j) == (static_ledge_cell(
                    PIXEL_WIDTH as int, ROWS as int, i, j)
                    || exists|p: int, k: int|
                        0 <= p < g.platforms@.len() && 0 <= k < PLATFORM_LENGTH
                            && stamp_at(g.platforms@[p], k,
                                PIXEL_WIDTH as int, ROWS as int, i, j)),
    {
        let mut rng = rng_from_seed(seed);
        let platforms = create_initial_platforms(&mut rng);
        let sand_buffer = BitPlane::new(PIXEL_WIDTH, ROWS);
        let mut platform_buffer = BitPlane::new(PIXEL_WIDTH, ROWS);
        let velocity_buffer = VelocityField::new(PIXEL_WIDTH, ROWS);
        redraw_platforms(&mut platform_buffer, &platforms);
        let result = FallingSand {
            rng,
            started: false,
            position_x: PIXEL_WIDTH / 2,
            position_y: ROWS / 4,
            frame_counter: 0,
            screen_density: 0,
            sand_buffer,
            platform_buffer,
            velocity_buffer,
            platforms,
        };
        proof {
            let w = PIXEL_WIDTH as int;
            let h = ROWS as int;
            assert forall|i: int, j: int|
                bit(result.platform_buffer, i, j) == (static_ledge_cell(w, h, i, j)
                    || exists|p: int, k: int|
                        0 <= p < result.platforms@.len() && 0 <= k < PLATFORM_LENGTH
                            && stamp_at(result.platforms@[p], k, w, h, i, j)) by {
                if exists|p: int, k: int|
                    0 <= p < result.platforms@.len() && 0 <= k < PLATFORM_LENGTH
                        && #[trigger] stamp_at(result.platforms@[p], k, w, h, i, j) {
                    let (pp, kk) = choose|p: int, k: int|
                        0 <= p < result.platforms@.len() && 0 <= k < PLATFORM_LENGTH
                            && #[trigger] stamp_at(result.platforms@[p], k, w, h, i, j);
                    assert(stamp_at(result.platforms@[pp], kk, w, h, i, j));
                }
                if bit(result.platform_buffer, i, j) && !static_ledge_cell(w, h, i, j) {
                    let (pp, kk) = choose|p: int, k: int|
                        0 <= p < result.platforms@.len() && 0 <= k < PLATFORM_LENGTH
                            && #[trigger] stamp_at(result.platforms@[p], k, w, h, i, j);
                    assert(stamp_at(result.platforms@[pp], kk, w, h, i, j));
                }
            }
        }
        result
    }
}

/// One simulation tick, in display-refresh order: rebuild the obstacles,
/// start the game on the first press (the intro frame crumbles into
/// sand), rain, brush, crank rotation, cursor movement; the clear button
/// resets everything; otherwise refresh the density sample on its
/// 16-frame cadence, propagate platform forces, run the controller's pass
/// budget, and coalesce the dirty rows for the display.
#[verifier::loop_isolation(false)]
#[verifier::rlimit(80)]
pub fn tick(game: &mut FallingSand, input: &FrameInput, frame: &BitPlane) -> (out: TickResult)
    requires
        game_wf(*old(game)),
        wf(*frame),
        same_dims(*frame, old(game).sand_buffer),
    ensures
        game_wf(*final(game)),
        final(game).started == (old(game).started || input.any_pressed),
        out.cleared == input.b,
        out.show_intro == !final(game).started,
        input.b ==> plane_empty(final(game).sand_buffer)
            && total_bits(final(game).sand_buffer.bytes@) == 0
            && field_at_rest(final(game).velocity_buffer)
            && final(game).screen_density == 0,
        (!input.b && !(input.any_pressed && !old(game).started))
            ==> total_bits(final(game).sand_buffer.bytes@)
                <= total_bits(old(game).sand_buffer.bytes@)
                    + (if old(game).started { RAIN_RATE as int } else { 0int })
                    + (if input.a { 25int } else { 0int }),
        forall|k: int| 0 <= k < out.intervals@.len()
            ==> 0 <= (#[trigger] out.intervals@[k]).0 < out.intervals@[k].1 <= ROWS,
        forall|k: int| 0 <= k < out.intervals@.len() - 1
            ==> (#[trigger] out.intervals@[k]).1 < out.intervals@[k + 1].0,
        (!final(game).started || input.b) ==> out.intervals@.len() == 0,
        // the cursor moves as the arrows say, five pixels at a time
        ({
            let x0 = old(game).position_x as int;
            let x1 = if input.left && x0 > 5 { x0 - 5 } else { x0 };
            let x2 = if input.right && x1 < 395 { x1 + 5 } else { x1 };
            final(game).position_x as int == x2
        }),
        ({
            let y0 = old(game).position_y as int;
            let y1 = if input.up && y0 > 5 { y0 - 5 } else { y0 };
            let y2 = if input.down && y1 < 235 { y1 + 5 } else { y1 };
            final(game).position_y as int == y2
        }),
        // the crank rotates every platform by the same delta
        final(game).platforms@.len() == old(game).platforms@.len(),
        input.angle_delta == 0 ==> final(game).platforms@ == old(game).platforms@,
        input.angle_delta != 0 ==> forall|k: int|
            0 <= k < old(game).platforms@.len()
                ==> (#[trigger] final(game).platforms@[k]).x == old(game).platforms@[k].x
                    && final(game).platforms@[k].y == old(game).platforms@[k].y
                    && final(game).platforms@[k].prev_angle == old(game).platforms@[k].angle
                    && final(game).platforms@[k].angle as int
                        == (old(game).platforms@[k].angle + input.angle_delta) % 360,
        // the density sample is cached between its 16-frame cadence points
        (!input.b && old(game).frame_counter % 16 != 0)
            ==> final(game).screen_density == old(game).screen_density,
        // before the game starts only the brush changes the plane, exactly
        (!input.b && !final(game).started) ==> forall|i: int, j: int|
            #![trigger bit(final(game).sand_buffer, i, j)]
            bit(final(game).sand_buffer, i, j) == (bit(old(game).sand_buffer, i, j)
                || (input.a
                    && in_brush(
                        old(game).position_x as int, old(game).position_y as int, i, j)
                    && in_bounds(old(game).sand_buffer, i, j))),
        // on a running frame, a post-input plane exists — the prior plane
        // plus intro hand-off, rain and brush — from which the automaton
        // passes produced the final plane under the pass laws, with the
        // returned intervals exactly the coalesced runs of the pass mask
        (!input.b && final(game).started) ==> exists|mid: BitPlane, mask: Seq<bool>|
            #![trigger input_phase_sand(*old(game), *input, *frame, mid), row_runs(mask)]
            {
                &&& input_phase_sand(*old(game), *input, *frame, mid)
                &&& wf(mid)
                &&& total_bits(final(game).sand_buffer.bytes@) == total_bits(mid.bytes@)
                &&& mask.len() == ROWS
                &&& (forall|i: int, j: int| #![trigger bit(mid, i, j)]
                    bit(final(game).sand_buffer, i, j) != bit(mid, i, j)
                        ==> 0 <= j < ROWS && mask[j])
                &&& (forall|i: int, j: int| j == ROWS - 1 && #[trigger] bit(mid, i, j)
                    ==> bit(final(game).sand_buffer, i, j))
                &&& (forall|i: int, j: int| #![trigger bit(mid, i, j)]
                    bit(final(game).sand_buffer, i, j) != bit(mid, i, j)
                        ==> j % controller_plan(final(game).screen_density as int).1 == 0
                            || (j - 1) % controller_plan(
                                final(game).screen_density as int).1 == 0)
                &&& out.intervals@.len() == row_runs(mask).len()
                &&& (forall|k: int| 0 <= k < out.intervals@.len()
                    ==> row_runs(mask)[k]
                        == ((#[trigger] out.intervals@[k]).0 as int,
                            out.intervals@[k].1 as int))
                &&& (forall|i: int, j: int| #![trigger bit(mid, i, j)]
                    bit(final(game).sand_buffer, i, j) != bit(mid, i, j)
                        ==> exists|k: int| 0 <= k < out.intervals@.len()
                            && (#[trigger] out.intervals@[k]).0 <= j
                            && j < out.intervals@[k].1)
                &&& (plane_empty(mid) ==> final(game).sand_buffer.bytes@ == mid.bytes@
                    && out.intervals@.len() == 0)
                // the controller's number of passes ran, each one a pass
                // step at the controller's stride
                &&& exists|chain: Seq<BitPlane>| #![trigger chain[0]]
                    {
                        &&& chain.len()
                            == controller_plan(final(game).screen_density as int).0 + 1
                        &&& chain[0] == mid
                        &&& chain[chain.len() - 1] == final(game).sand_buffer
                        &&& forall|t: int| 0 <= t < chain.len() - 1
                            ==> pass_step(#[trigger] chain[t], chain[t + 1],
                                controller_plan(final(game).screen_density as int).1)
                    }
            },
{
    redraw_platforms(&mut game.platform_buffer, &game.platforms);
    if input.any_pressed && !game.started {
        game.started = true;
        convert_intro_to_sand(frame, &mut game.sand_buffer);
    }
    let ghost after_intro = game.sand_buffer;
    if game.started {
        spawn_rain(&mut game.sand_buffer, &mut game.rng, RAIN_RATE);
    }
    let ghost after_rain = game.sand_buffer;
    if input.a {
        place_brush(&mut game.sand_buffer, game.position_x, game.position_y);
    }
    let ghost mid_sand = game.sand_buffer;
    let ghost t2 = total_bits(game.sand_buffer.bytes@);
    proof {
        let gold = *old(game);
        let intro = input.any_pressed && !gold.started;
        let raining = gold.started || input.any_pressed;
        assert forall|i: int, j: int| #![trigger bit(mid_sand, i, j)]
            j != 0 implies bit(mid_sand, i, j) == (bit(gold.sand_buffer, i, j)
                || (intro && bit(*frame, i, j))
                || (input.a
                    && in_brush(gold.position_x as int, gold.position_y as int, i, j)
                    && in_bounds(gold.sand_buffer, i, j))) by {
            assert(bit(after_rain, i, j) == bit(after_intro, i, j));
            assert(in_bounds(after_rain, i, j) == in_bounds(gold.sand_buffer, i, j));
        }
        assert forall|i: int|
            (bit(gold.sand_buffer, i, 0)
                || (intro && bit(*frame, i, 0))
                || (input.a
                    && in_brush(gold.position_x as int, gold.position_y as int, i, 0)
                    && in_bounds(gold.sand_buffer, i, 0)))
                implies #[trigger] bit(mid_sand, i, 0) by {
            assert(in_bounds(after_rain, i, 0) == in_bounds(gold.sand_buffer, i, 0));
        }
        if !raining {
            assert(after_rain == after_intro);
            assert forall|i: int|
                #[trigger] bit(mid_sand, i, 0) == (bit(gold.sand_buffer, i, 0)
                    || (intro && bit(*frame, i, 0))
                    || (input.a
                        && in_brush(gold.position_x as int, gold.position_y as int, i, 0)
                        && in_bounds(gold.sand_buffer, i, 0))) by {
                assert(in_bounds(after_rain, i, 0) == in_bounds(gold.sand_buffer, i, 0));
            }
        } else {
            let iw = choose|i: int| bit(after_rain, i, 0);
            assert(bit(mid_sand, iw, 0));
        }
        assert(input_phase_sand(*old(game), *input, *frame, mid_sand));
    }
    if input.angle_delta != 0 {
        let ghost g0 = *game;
        let n = game.platforms.len();
        let mut pi: usize = 0;
        while pi < n
            invariant
                pi <= n,
                n == game.platforms@.len(),
                forall|p: int| 0 <= p < game.platforms@.len()
                    ==> platform_wf(#[trigger] game.platforms@[p]),
                forall|k: int| 0 <= k < pi
                    ==> (#[trigger] game.platforms@[k]).x == g0.platforms@[k].x
                        && game.platforms@[k].y == g0.platforms@[k].y
                        && game.platforms@[k].prev_angle == g0.platforms@[k].angle
                        && game.platforms@[k].angle as int
                            == (g0.platforms@[k].angle + input.angle_delta) % 360,
                forall|k: int| pi <= k < n
                    ==> #[trigger] game.platforms@[k] == g0.platforms@[k],
                g0.platforms@ == old(game).platforms@,
                game.sand_buffer == g0.sand_buffer,
                game.platform_buffer == g0.platform_buffer,
                game.velocity_buffer == g0.velocity_buffer,
                game.rng == g0.rng,
                game.started == g0.started,
                game.position_x == g0.position_x,
                game.position_y == g0.position_y,
                game.frame_counter == g0.frame_counter,
                game.screen_density == g0.screen_density,
            decreases n - pi,
        {
            let mut pl = game.platforms[pi];
            pl.update_angle(input.angle_delta);
            game.platforms.set(pi, pl);
            pi += 1;
        }
    }
    move_cursor(game, input);
    if input.b {
        clear_buffer(&mut game.sand_buffer);
        clear_velocity_buffer(&mut game.velocity_buffer);
        game.screen_density = 0;
        return TickResult {
            cleared: true,
            show_intro: !game.started,
            intervals: Vec::new(),
        };
    }
    if !game.started {
        return TickResult {
            cleared: false,
            show_intro: true,
            intervals: Vec::new(),
        };
    }
    if game.frame_counter % 16 == 0 {
        game.screen_density = calculate_screen_density(&game.sand_buffer);
    }
    apply_platform_forces(&game.sand_buffer, &mut game.velocity_buffer, &game.platforms);
    let plan = performance_plan(game.screen_density);
    let passes = plan.0;
    let row_skip = plan.1;
    let mut changed_rows: Vec<bool> = Vec::new();
    while changed_rows.len() < ROWS
        invariant
            changed_rows@.len() <= ROWS,
            forall|r: int| 0 <= r < changed_rows@.len() ==> !changed_rows@[r],
        decreases ROWS - changed_rows.len(),
    {
        changed_rows.push(false);
    }
    let ghost g1 = *game;
    proof {
        assert(game.sand_buffer == mid_sand);
    }
    let ghost mut chain: Seq<BitPlane> = seq![mid_sand];
    let mut p: usize = 0;
    while p < passes
        invariant
            p <= passes,
            wf(game.sand_buffer),
            wf(game.platform_buffer),
            vf_wf(game.velocity_buffer),
            same_dims(game.sand_buffer, game.platform_buffer),
            game.sand_buffer.width == PIXEL_WIDTH,
            game.sand_buffer.height == ROWS,
            game.sand_buffer.bytes@.len() <= 0x1000_0000,
            game.velocity_buffer.width == game.sand_buffer.width,
            game.velocity_buffer.height == game.sand_buffer.height,
            changed_rows@.len() == ROWS,
            total_bits(game.sand_buffer.bytes@) == t2,
            game.platform_buffer == g1.platform_buffer,
            game.rng == g1.rng,
            game.started == g1.started,
            game.position_x == g1.position_x,
            game.position_y == g1.position_y,
            game.frame_counter == g1.frame_counter,
            game.screen_density == g1.screen_density,
            game.platforms == g1.platforms,
            same_dims(game.sand_buffer, mid_sand),
            forall|i: int, j: int| #![trigger bit(mid_sand, i, j)]
                bit(game.sand_buffer, i, j) != bit(mid_sand, i, j)
                    ==> 0 <= j < ROWS && changed_rows@[j],
            forall|i: int, j: int| j == ROWS - 1 && #[trigger] bit(mid_sand, i, j)
                ==> bit(game.sand_buffer, i, j),
            forall|i: int, j: int| #![trigger bit(mid_sand, i, j)]
                bit(game.sand_buffer, i, j) != bit(mid_sand, i, j)
                    ==> j % (row_skip as int) == 0 || (j - 1) % (row_skip as int) == 0,
            plane_empty(mid_sand) ==> game.sand_buffer.bytes@ == mid_sand.bytes@
                && (forall|r: int| 0 <= r < ROWS ==> !changed_rows@[r]),
            chain.len() == p + 1,
            chain[0] == mid_sand,
            chain[p as int] == game.sand_buffer,
            forall|t: int| 0 <= t < p
                ==> pass_step(#[trigger] chain[t], chain[t + 1], row_skip as int),
        decreases passes - p,
    {
        let ghost pre_sand = game.sand_buffer;
        let ghost pre_mask = changed_rows@;
        update_sand_with_velocity(
            &mut game.sand_buffer,
            &game.platform_buffer,
            &mut game.velocity_buffer,
            &mut changed_rows,
            row_skip,
        );
        proof {
            assert forall|i: int, j: int| #![trigger bit(mid_sand, i, j)]
                bit(game.sand_buffer, i, j) != bit(mid_sand, i, j)
                    implies 0 <= j < ROWS && changed_rows@[j] by {
                if bit(game.sand_buffer, i, j) != bit(pre_sand, i, j) {
                } else {
                    assert(bit(pre_sand, i, j) != bit(mid_sand, i, j));
                    assert(pre_mask[j]);
                }
            }
            assert forall|i: int, j: int| #![trigger bit(mid_sand, i, j)]
                bit(game.sand_buffer, i, j) != bit(mid_sand, i, j)
                    implies j % (row_skip as int) == 0
                        || (j - 1) % (row_skip as int) == 0 by {
                if bit(game.sand_buffer, i, j) == bit(pre_sand, i, j) {
                    assert(bit(pre_sand, i, j) != bit(mid_sand, i, j));
                }
            }
            if plane_empty(mid_sand) {
                lemma_same_bits(pre_sand, mid_sand);
                assert(plane_empty(pre_sand));
            }
            chain = chain.push(game.sand_buffer);
            assert(pass_step(pre_sand, game.sand_buffer, row_skip as int));
            assert forall|t: int| 0 <= t < p + 1
                implies pass_step(#[trigger] chain[t], chain[t + 1], row_skip as int) by {
                if t < p {
                    assert(chain[t] == chain.drop_last()[t]);
                }
            }
        }
        p += 1;
    }
    let intervals = dirty_row_intervals(&changed_rows);
    proof {
        lemma_runs_wellformed(changed_rows@);
        assert forall|k: int| 0 <= k < intervals@.len()
            implies 0 <= (#[trigger] intervals@[k]).0 < intervals@[k].1 <= ROWS by {
            assert(row_runs(changed_rows@)[k]
                == (intervals@[k].0 as int, intervals@[k].1 as int));
        }
        assert forall|k: int| 0 <= k < intervals@.len() - 1
            implies (#[trigger] intervals@[k]).1 < intervals@[k + 1].0 by {
            assert(row_runs(changed_rows@)[k]
                == (intervals@[k].0 as int, intervals@[k].1 as int));
            assert(row_runs(changed_rows@)[k + 1]
                == (intervals@[k + 1].0 as int, intervals@[k + 1].1 as int));
        }
    }
    if game.frame_counter == u32::MAX {
        game.frame_counter = 0;
    } else {
        game.frame_counter = game.frame_counter + 1;
    }
    let result = TickResult {
        cleared: false,
        show_intro: false,
        intervals,
    };
    proof {
        lemma_runs_cover(changed_rows@);
        assert(result.intervals@ == intervals@);
        assert forall|i: int, j: int| #![trigger bit(mid_sand, i, j)]
            bit(game.sand_buffer, i, j) != bit(mid_sand, i, j)
                implies exists|k: int| 0 <= k < result.intervals@.len()
                    && (#[trigger] result.intervals@[k]).0 <= j
                    && j < result.intervals@[k].1 by {
            assert(0 <= j < ROWS && changed_rows@[j]);
            let k = choose|k: int| 0 <= k < row_runs(changed_rows@).len()
                && (#[trigger] row_runs(changed_rows@)[k]).0 <= j
                    < row_runs(changed_rows@)[k].1;
            assert(row_runs(changed_rows@)[k]
                == (result.intervals@[k].0 as int, result.intervals@[k].1 as int));
            assert(0 <= k < result.intervals@.len()
                && result.intervals@[k].0 <= j && j < result.intervals@[k].1);
        }
        if plane_empty(mid_sand) {
            assert forall|r: int| 0 <= r < changed_rows@.len()
                implies !changed_rows@[r] by {}
            lemma_empty_mask_no_runs(changed_rows@);
            assert(game.sand_buffer.bytes@ == mid_sand.bytes@);
        }
        assert((row_skip as int) == controller_plan(game.screen_density as int).1);
        assert forall|k: int| 0 <= k < result.intervals@.len()
            implies row_runs(changed_rows@)[k]
                == ((#[trigger] result.intervals@[k]).0 as int,
                    result.intervals@[k].1 as int) by {}
        assert(input_phase_sand(*old(game), *input, *frame, mid_sand));
        assert(chain.len() == controller_plan(game.screen_density as int).0 + 1);
        assert(chain[chain.len() - 1] == game.sand_buffer);
    }
    result
}

} // verus!
