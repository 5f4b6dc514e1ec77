//! Density sampling and the adaptive performance controller.
//!
//! The density estimate counts set bits in every 8th byte of the particle
//! plane — a deliberate speed/accuracy trade-off — and scales the count to
//! a percentage of the sampled capacity. The controller maps the cached
//! sample to the frame's simulation budget: pass count and row-skip
//! stride.

use vstd::prelude::*;
use crate::bitplane::{lemma_pop8_bounds, pop8, wf, BitPlane};

verus! {

/// Set bits in the bytes at indices `i`, `i + 8`, `i + 16`, ... of `s`.
pub open spec fn sampled_pop(s: Seq<u8>, i: int) -> int
    decreases s.len() + 8 - i,
{
    if i < 0 || i >= s.len() {
        0
    } else {
        pop8(s[i]) + sampled_pop(s, i + 8)
    }
}

/// The density estimate of a packed plane: the strided bit count scaled to
/// a 0..100 percentage of the sampled capacity, capped at 100.
pub open spec fn density_of(s: Seq<u8>) -> int {
    if s.len() < 8 {
        0
    } else {
        let cap = (s.len() / 8) * 8;
        let d = (sampled_pop(s, 0) * 100) / (cap as int);
        if d > 100 {
            100
        } else {
            d
        }
    }
}

fn popcount_byte(b: u8) -> (r: u32)
    ensures
        r as int == pop8(b),
{
    ((b & 1) as u32) + (((b >> 1u8) & 1) as u32) + (((b >> 2u8) & 1) as u32)
        + (((b >> 3u8) & 1) as u32) + (((b >> 4u8) & 1) as u32) + (((b >> 5u8) & 1) as u32)
        + (((b >> 6u8) & 1) as u32) + (((b >> 7u8) & 1) as u32)
}

/// Approximate the occupied percentage of the plane by a strided
/// subsample: every 8th byte is counted, and the count scaled to 0..100.
#[verifier::loop_isolation(false)]
pub fn calculate_screen_density(sand_buffer: &BitPlane) -> (r: u8)
    requires
        wf(*sand_buffer),
        sand_buffer.bytes@.len() <= 0x1000_0000,
    ensures
        r as int == density_of(sand_buffer.bytes@),
        r <= 100,
{
    let n = sand_buffer.bytes.len();
    if n < 8 {
        return 0;
    }
    let mut count: u64 = 0;
    let mut i: usize = 0;
    while i < n
        invariant
            0 <= i,
            i <= n + 7,
            count as int + sampled_pop(sand_buffer.bytes@, i as int)
                == sampled_pop(sand_buffer.bytes@, 0),
            count as int <= i as int,
        decreases n + 8 - i,
    {
        let b = sand_buffer.bytes[i];
        let c = popcount_byte(b);
        proof {
            lemma_pop8_bounds(sand_buffer.bytes@[i as int]);
        }
        count = count + (c as u64);
        i += 8;
    }
    proof {
        assert(sampled_pop(sand_buffer.bytes@, i as int) == 0);
        assert(count as int == sampled_pop(sand_buffer.bytes@, 0));
    }
    proof {
        vstd::arithmetic::div_mod::lemma_div_is_ordered(8, n as int, 8);
        vstd::arithmetic::div_mod::lemma_fundamental_div_mod(n as int, 8);
        assert((n as int) / 8 >= 1);
        assert((n as int) / 8 * 8 >= 8) by (nonlinear_arith)
            requires (n as int) / 8 >= 1,
        ;
        assert((n as int) / 8 * 8 <= n as int);
    }
    let cap = (n / 8) * 8;
    let d = (count * 100) / (cap as u64);
    let dm: u64 = if d > 100 { 100 } else { d };
    dm as u8
}

/// The controller's table: passes to run and row-skip stride for a given
/// density sample.
pub open spec fn controller_plan(d: int) -> (int, int) {
    if d <= 25 {
        (3, 1)
    } else if d <= 50 {
        (2, 1)
    } else if d <= 75 {
        (2, 2)
    } else {
        (1, 3)
    }
}

/// The performance controller: map the last density sample to the number
/// of automaton passes and the row-skip stride for this frame.
pub fn performance_plan(density: u8) -> (r: (usize, usize))
    ensures
        (r.0 as int, r.1 as int) == controller_plan(density as int),
        density <= 25 ==> r == (3usize, 1usize),
        26 <= density && density <= 50 ==> r == (2usize, 1usize),
        51 <= density && density <= 75 ==> r == (2usize, 2usize),
        76 <= density ==> r == (1usize, 3usize),
        1 <= r.1,
        r.0 <= 3,
{
    if density <= 25 {
        (3, 1)
    } else if density <= 50 {
        (2, 1)
    } else if density <= 75 {
        (2, 2)
    } else {
        (1, 3)
    }
}

} // verus!
