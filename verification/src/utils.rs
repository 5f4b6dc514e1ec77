//! Degree-resolution trigonometry in Q16 fixed point, and ranged random
//! sampling.
//!
//! The sine is Bhaskara's rational approximation, evaluated exactly in
//! integer arithmetic: for `d` in `[0, 180]` degrees,
//! `sin(d) ~= 4 d (180 - d) / (40500 - d (180 - d))`, scaled by 65536.
//! The result is exact at 0, 90 and 180 degrees and within 0.2% of the
//! real sine elsewhere, which is ample for stepping a 25-pixel platform.

use vstd::prelude::*;
use vstd::arithmetic::div_mod::{
    lemma_div_by_multiple, lemma_div_is_ordered, lemma_div_pos_is_pos,
    lemma_add_mod_noop, lemma_small_mod,
};
use crate::rng::rng_next_u32;

verus! {

/// Bhaskara's approximation of `sin` on `[0, 180]` degrees, in Q16.
pub open spec fn half_sine_q16(d: int) -> int {
    (4 * d * (180 - d) * 65536) / (40500 - d * (180 - d))
}

/// Q16 sine of an angle in whole degrees.
pub open spec fn sin_q16_spec(deg: int) -> int {
    let d = deg % 360;
    if d <= 180 {
        half_sine_q16(d)
    } else {
        -half_sine_q16(d - 180)
    }
}

/// Q16 cosine of an angle in whole degrees.
pub open spec fn cos_q16_spec(deg: int) -> int {
    sin_q16_spec(deg + 90)
}

fn half_sine(d: u32) -> (r: i32)
    requires
        d <= 180,
    ensures
        r as int == half_sine_q16(d as int),
        0 <= r <= 65536,
{
    proof {
        assert((d as int) * (180 - d as int) <= 8100) by (nonlinear_arith)
            requires 0 <= (d as int) && (d as int) <= 180,
        ;
        assert(0 <= (d as int) * (180 - d as int)) by (nonlinear_arith)
            requires 0 <= (d as int) && (d as int) <= 180,
        ;
    }
    let p = d * (180 - d);
    let num = 4u64 * (p as u64) * 65536u64;
    let den = 40500u64 - (p as u64);
    proof {
        assert(num as int <= 65536 * den as int);
        lemma_div_is_ordered(num as int, 65536 * (den as int), den as int);
        lemma_div_by_multiple(65536, den as int);
        lemma_div_pos_is_pos(num as int, den as int);
    }
    let q = num / den;
    proof {
        assert(4int * ((p as int)) * 65536 == 4int * (d as int) * (180 - (d as int)) * 65536)
            by (nonlinear_arith)
            requires (p as int) == (d as int) * (180 - (d as int)),
        ;
    }
    q as i32
}

/// Q16 sine of an angle in whole degrees, any magnitude.
pub fn sin_q16(angle_degrees: u32) -> (r: i32)
    ensures
        r as int == sin_q16_spec(angle_degrees as int),
        -65536 <= r <= 65536,
{
    let d = angle_degrees % 360;
    if d <= 180 {
        half_sine(d)
    } else {
        let h = half_sine(d - 180);
        -h
    }
}

/// Q16 cosine of an angle in whole degrees, any magnitude.
pub fn cos_q16(angle_degrees: u32) -> (r: i32)
    ensures
        r as int == cos_q16_spec(angle_degrees as int),
        -65536 <= r <= 65536,
{
    let d = angle_degrees % 360;
    proof {
        lemma_small_mod(90nat, 360nat);
        lemma_add_mod_noop(angle_degrees as int, 90, 360);
        lemma_add_mod_noop(angle_degrees as int % 360, 90, 360);
        vstd::arithmetic::div_mod::lemma_mod_twice(angle_degrees as int, 360);
        assert((d as int + 90) % 360 == (angle_degrees as int + 90) % 360);
    }
    sin_q16(d + 90)
}

/// A draw from `[min, max)`, or `min` itself when the range is empty.
pub fn rand_range(min: usize, max: usize, rng: &mut rand::rngs::SmallRng) -> (r: usize)
    ensures
        min < max ==> min <= r < max,
        min >= max ==> r == min,
        min >= max ==> *final(rng) == *old(rng),
{
    if max <= min {
        return min;
    }
    let draw = rng_next_u32(rng);
    min + ((draw as usize) % (max - min))
}

} // verus!
