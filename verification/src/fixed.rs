//! Integer fixed-point helpers.
//!
//! All fractional arithmetic of the simulation (trigonometric stepping,
//! velocity decay and friction, force scaling) is done on plain integers
//! with truncating division, so every step has an exact arithmetic model.

use vstd::prelude::*;

verus! {

/// Division truncating toward zero, the rounding mode of the simulation's
/// fractional scales. Defined as 0 for non-positive divisors, which never
/// occur in this crate.
pub open spec fn tdiv(a: int, b: int) -> int {
    if b <= 0 {
        0
    } else if a >= 0 {
        a / b
    } else {
        -((-a) / b)
    }
}

/// The magnitude of a truncating quotient never exceeds the magnitude of
/// the dividend.
pub proof fn lemma_tdiv_bounds(a: int, b: int)
    requires
        1 <= b,
    ensures
        a >= 0 ==> 0 <= tdiv(a, b) <= a,
        a < 0 ==> a <= tdiv(a, b) <= 0,
{
    if a >= 0 {
        vstd::arithmetic::div_mod::lemma_div_pos_is_pos(a, b);
        vstd::arithmetic::div_mod::lemma_div_nonincreasing(a, b);
    } else {
        vstd::arithmetic::div_mod::lemma_div_pos_is_pos(-a, b);
        vstd::arithmetic::div_mod::lemma_div_nonincreasing(-a, b);
    }
}

/// Truncating signed division on bounded 64-bit values.
pub fn tdiv_i64(a: i64, b: i64) -> (r: i64)
    requires
        1 <= b,
        -0x4000_0000_0000_0000 <= a <= 0x4000_0000_0000_0000,
    ensures
        r as int == tdiv(a as int, b as int),
{
    if a >= 0 {
        ((a as u64) / (b as u64)) as i64
    } else {
        proof {
            lemma_tdiv_bounds(-(a as int), b as int);
        }
        let q = ((-a) as u64) / (b as u64);
        -(q as i64)
    }
}

/// Round a Q16 position to a pixel index: add half a pixel, then divide by
/// the scale, truncating toward zero.
pub fn round_q16(pos: i64) -> (r: i64)
    requires
        -0x1000_0000_0000 <= pos <= 0x1000_0000_0000,
    ensures
        r as int == tdiv(pos as int + 32768, 65536),
        -0x1000_0001 <= r <= 0x1000_0001,
{
    let r = tdiv_i64(pos + 32768, 65536);
    proof {
        let t = pos as int + 32768;
        if t >= 0 {
            vstd::arithmetic::div_mod::lemma_div_pos_is_pos(t, 65536);
            vstd::arithmetic::div_mod::lemma_div_is_ordered(t, 65536int * 0x1000_0001int, 65536);
            vstd::arithmetic::div_mod::lemma_div_by_multiple(0x1000_0001, 65536);
        } else {
            vstd::arithmetic::div_mod::lemma_div_pos_is_pos(-t, 65536);
            vstd::arithmetic::div_mod::lemma_div_is_ordered(-t, 65536int * 0x1000_0001int, 65536);
            vstd::arithmetic::div_mod::lemma_div_by_multiple(0x1000_0001, 65536);
        }
    }
    r
}

/// Rounding the exact Q16 position of a grid point returns the point.
pub proof fn lemma_round_anchor(x: int)
    requires
        0 <= x,
    ensures
        tdiv(x * 65536 + 32768, 65536) == x,
{
    assert(0 <= x * 65536) by (nonlinear_arith)
        requires 0 <= x,
    ;
    vstd::arithmetic::div_mod::lemma_hoist_over_denominator(32768, x, 65536nat);
    vstd::arithmetic::div_mod::lemma_basic_div(32768, 65536);
}

/// Clamp a 64-bit value into `[lo, hi]`.
pub fn clamp_i64(v: i64, lo: i64, hi: i64) -> (r: i64)
    requires
        lo <= hi,
    ensures
        r as int == if v < lo { lo as int } else if v > hi { hi as int } else { v as int },
        lo <= r <= hi,
{
    if v < lo {
        lo
    } else if v > hi {
        hi
    } else {
        v
    }
}

/// Scale a velocity component by `num / 10`, truncating toward zero.
pub fn scale_frac_i8(v: i8, num: u32) -> (r: i8)
    requires
        num <= 10,
    ensures
        r as int == tdiv(v as int * num as int, 10),
        v >= 0 ==> 0 <= r <= v,
        v < 0 ==> v <= r <= 0,
{
    proof {
        lemma_tdiv_bounds(v as int * num as int, 10);
        assert(v >= 0 ==> 0 <= v as int * num as int <= v as int * 10) by (nonlinear_arith)
            requires num <= 10,
        ;
        assert(v < 0 ==> v as int * 10 <= v as int * num as int <= 0) by (nonlinear_arith)
            requires num <= 10,
        ;
        assert(v >= 0 ==> tdiv(v as int * num as int, 10) <= v as int) by {
            if v >= 0 {
                vstd::arithmetic::div_mod::lemma_div_is_ordered(
                    v as int * num as int, v as int * 10, 10);
                vstd::arithmetic::div_mod::lemma_div_by_multiple(v as int, 10);
            }
        }
        assert(v < 0 ==> v as int <= tdiv(v as int * num as int, 10)) by {
            if v < 0 {
                vstd::arithmetic::div_mod::lemma_div_is_ordered(
                    -(v as int * num as int), -(v as int * 10), 10);
                vstd::arithmetic::div_mod::lemma_div_by_multiple(-(v as int), 10);
            }
        }
    }
    if v >= 0 {
        proof {
            assert((v as int) * (num as int) <= 1270) by (nonlinear_arith)
                requires 0 <= (v as int) && (v as int) <= 127, (num as int) <= 10,
            ;
            assert(0 <= (v as int) * (num as int)) by (nonlinear_arith)
                requires 0 <= (v as int),
            ;
        }
        let q = ((v as u32) * num) / 10;
        q as i8
    } else {
        proof {
            assert((-(v as int)) * (num as int) <= 1280) by (nonlinear_arith)
                requires -128 <= (v as int) && (v as int) < 0, (num as int) <= 10,
            ;
            assert(0 <= (-(v as int)) * (num as int)) by (nonlinear_arith)
                requires (v as int) < 0,
            ;
            assert((-(v as int)) * (num as int) == -((v as int) * (num as int)))
                by (nonlinear_arith);
        }
        let m = (((-(v as i32)) as u32) * num) / 10;
        let r: i32 = -(m as i32);
        r as i8
    }
}

} // verus!
