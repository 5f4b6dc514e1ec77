//! Per-cell velocity field.
//!
//! One `(vx, vy)` pair per grid cell, stored as a flat row-major array with
//! the same permissive boundary policy as the bit planes: out-of-range reads
//! return the zero velocity, out-of-range writes are dropped. A cell's
//! velocity is meaningful only while the coincident occupancy bit is set.

use vstd::prelude::*;
use vstd::pervasive::VecAdditionalExecFns;
use crate::bitplane::{lemma_index_bounds, lemma_index_injective};
use crate::fixed::tdiv;

verus! {

/// Momentum of one sand particle.
#[derive(Clone, Copy, PartialEq, Eq, Structural, Debug)]
pub struct SandVelocity {
    pub vx: i8,
    pub vy: i8,
}

pub open spec fn zero_vel() -> SandVelocity {
    SandVelocity { vx: 0, vy: 0 }
}

impl Default for SandVelocity {
    /// The resting velocity.
    fn default() -> (r: Self)
        ensures
            r == zero_vel(),
    {
        SandVelocity { vx: 0, vy: 0 }
    }
}

/// A `width` x `height` grid of velocities, row-major.
pub struct VelocityField {
    pub width: usize,
    pub height: usize,
    pub cells: Vec<SandVelocity>,
}

pub open spec fn vf_wf(v: VelocityField) -> bool {
    &&& 1 <= v.width
    &&& 1 <= v.height
    &&& v.cells@.len() == v.width * v.height
}

pub open spec fn vel_in_bounds(v: VelocityField, x: int, y: int) -> bool {
    0 <= x < v.width && 0 <= y < v.height
}

pub open spec fn vel_index(v: VelocityField, x: int, y: int) -> int {
    y * v.width + x
}

/// The velocity of cell `(x, y)`: zero outside the grid.
pub open spec fn vel_at(v: VelocityField, x: int, y: int) -> SandVelocity {
    if vel_in_bounds(v, x, y) {
        v.cells@[vel_index(v, x, y)]
    } else {
        zero_vel()
    }
}

/// Every cell of the field is at rest.
pub open spec fn field_at_rest(v: VelocityField) -> bool {
    forall|i: int, j: int| vel_at(v, i, j) == zero_vel()
}

/// Every cell's components lie within `[-m, m]`.
pub open spec fn vel_bounded(v: VelocityField, m: int) -> bool {
    forall|i: int, j: int| #![trigger vel_at(v, i, j)]
        -m <= vel_at(v, i, j).vx <= m && -m <= vel_at(v, i, j).vy <= m
}

pub open spec fn same_vel_dims(a: VelocityField, b: VelocityField) -> bool {
    a.width == b.width && a.height == b.height && a.cells@.len() == b.cells@.len()
}

/// The multiplicative decay applied to every moving particle's velocity
/// once per pass (a 0.9 factor in truncating integer arithmetic).
pub open spec fn decayed(v: int) -> int {
    tdiv(v * 9, 10)
}

/// The friction applied to the horizontal component on a successful
/// sideways relocation (a 0.7 factor in truncating integer arithmetic).
pub open spec fn frictioned(v: int) -> int {
    tdiv(v * 7, 10)
}

impl VelocityField {
    /// An all-resting field of the given dimensions.
    #[verifier::loop_isolation(false)]
    pub fn new(width: usize, height: usize) -> (v: VelocityField)
        requires
            1 <= width,
            1 <= height,
            width * height <= usize::MAX,
        ensures
            vf_wf(v),
            v.width == width,
            v.height == height,
            field_at_rest(v),
    {
        let n = width * height;
        let mut cells: Vec<SandVelocity> = Vec::new();
        while cells.len() < n
            invariant
                cells@.len() <= n,
                forall|k: int| 0 <= k < cells@.len() ==> cells@[k] == zero_vel(),
            decreases n - cells.len(),
        {
            cells.push(SandVelocity { vx: 0, vy: 0 });
        }
        let v = VelocityField { width, height, cells };
        proof {
            assert forall|i: int, j: int| vel_at(v, i, j) == zero_vel() by {
                if vel_in_bounds(v, i, j) {
                    lemma_index_bounds(v.width as int, v.height as int, j, i);
                }
            }
        }
        v
    }
}

/// Reset every cell of the field to rest.
#[verifier::loop_isolation(false)]
pub fn clear_velocity_buffer(buffer: &mut VelocityField)
    requires
        vf_wf(*old(buffer)),
    ensures
        vf_wf(*final(buffer)),
        same_vel_dims(*final(buffer), *old(buffer)),
        field_at_rest(*final(buffer)),
{
    let n = buffer.cells.len();
    let mut i: usize = 0;
    while i < n
        invariant
            i <= n,
            buffer.width == old(buffer).width,
            buffer.height == old(buffer).height,
            buffer.cells@.len() == n,
            forall|k: int| 0 <= k < i ==> buffer.cells@[k] == zero_vel(),
        decreases n - i,
    {
        buffer.cells.set(i, SandVelocity { vx: 0, vy: 0 });
        i += 1;
    }
    proof {
        assert forall|x: int, j: int| vel_at(*buffer, x, j) == zero_vel() by {
            if vel_in_bounds(*buffer, x, j) {
                lemma_index_bounds(buffer.width as int, buffer.height as int, j, x);
            }
        }
    }
}

/// Read the velocity of cell `(x, y)`; out-of-range reads are at rest.
pub fn get_velocity(buffer: &VelocityField, x: usize, y: usize) -> (r: SandVelocity)
    requires
        vf_wf(*buffer),
    ensures
        r == vel_at(*buffer, x as int, y as int),
{
    if x >= buffer.width || y >= buffer.height {
        return SandVelocity { vx: 0, vy: 0 };
    }
    proof {
        lemma_index_bounds(buffer.width as int, buffer.height as int, y as int, x as int);
        assert(0 <= y as int * buffer.width as int);
    }
    let n = buffer.cells.len();
    proof {
        assert((y as int * buffer.width as int + x as int) < n as int);
    }
    let index = y * buffer.width + x;
    buffer.cells[index]
}

/// Write the velocity of cell `(x, y)`; out-of-range writes are dropped.
/// No other cell of the field moves.
pub fn set_velocity(buffer: &mut VelocityField, x: usize, y: usize, velocity: SandVelocity)
    requires
        vf_wf(*old(buffer)),
    ensures
        vf_wf(*final(buffer)),
        same_vel_dims(*final(buffer), *old(buffer)),
        vel_in_bounds(*old(buffer), x as int, y as int)
            ==> vel_at(*final(buffer), x as int, y as int) == velocity,
        forall|i: int, j: int|
            !(i == x as int && j == y as int)
                ==> vel_at(*final(buffer), i, j) == vel_at(*old(buffer), i, j),
        !vel_in_bounds(*old(buffer), x as int, y as int)
            ==> final(buffer).cells@ == old(buffer).cells@,
{
    if x >= buffer.width || y >= buffer.height {
        return;
    }
    proof {
        lemma_index_bounds(buffer.width as int, buffer.height as int, y as int, x as int);
        assert(0 <= y as int * buffer.width as int);
    }
    let n = buffer.cells.len();
    proof {
        assert((y as int * buffer.width as int + x as int) < n as int);
    }
    let index = y * buffer.width + x;
    buffer.cells.set(index, velocity);
    proof {
        assert forall|i: int, j: int|
            !(i == x as int && j == y as int)
                implies vel_at(*buffer, i, j) == vel_at(*old(buffer), i, j) by {
            if vel_in_bounds(*old(buffer), i, j) {
                lemma_index_bounds(buffer.width as int, buffer.height as int, j, i);
                if vel_index(*old(buffer), i, j) == index as int {
                    lemma_index_injective(buffer.width as int, j, i, y as int, x as int);
                }
            }
        }
    }
}

} // verus!
