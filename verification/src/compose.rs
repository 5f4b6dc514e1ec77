//! The frame composer.
//!
//! Merges the particle plane and the obstacle plane into the output plane
//! by a bytewise OR over the common prefix of the three buffers —
//! defensive against size mismatches — and converts frame pixels back
//! into sand for the intro hand-off.

use vstd::prelude::*;
use vstd::pervasive::VecAdditionalExecFns;
use crate::bitplane::{bit, get_pixel, in_bounds, same_dims, set_pixel, wf, BitPlane};

verus! {

/// The length up to which composition writes: the shortest of the three
/// buffers.
pub open spec fn common_prefix_len(a: int, b: int, c: int) -> int {
    if a <= b && a <= c {
        a
    } else if b <= c {
        b
    } else {
        c
    }
}

/// Bytewise OR of the particle and obstacle planes into the frame, over
/// the common prefix of all three buffers; bytes past it are untouched.
#[verifier::loop_isolation(false)]
pub fn copy_to_frame(sand_buffer: &BitPlane, platform_buffer: &BitPlane, frame: &mut BitPlane)
    requires
        wf(*sand_buffer),
        wf(*platform_buffer),
        wf(*old(frame)),
    ensures
        wf(*final(frame)),
        same_dims(*final(frame), *old(frame)),
        final(frame).bytes@.len() == old(frame).bytes@.len(),
        forall|i: int|
            0 <= i < common_prefix_len(
                sand_buffer.bytes@.len() as int,
                platform_buffer.bytes@.len() as int,
                old(frame).bytes@.len() as int)
                ==> final(frame).bytes@[i]
                    == (sand_buffer.bytes@[i] | platform_buffer.bytes@[i]),
        forall|i: int|
            common_prefix_len(
                sand_buffer.bytes@.len() as int,
                platform_buffer.bytes@.len() as int,
                old(frame).bytes@.len() as int) <= i < final(frame).bytes@.len()
                ==> final(frame).bytes@[i] == old(frame).bytes@[i],
{
    let mut copy_len = sand_buffer.bytes.len();
    if platform_buffer.bytes.len() < copy_len {
        copy_len = platform_buffer.bytes.len();
    }
    if frame.bytes.len() < copy_len {
        copy_len = frame.bytes.len();
    }
    let mut i: usize = 0;
    while i < copy_len
        invariant
            i <= copy_len,
            copy_len as int == common_prefix_len(
                sand_buffer.bytes@.len() as int,
                platform_buffer.bytes@.len() as int,
                old(frame).bytes@.len() as int),
            frame.width == old(frame).width,
            frame.height == old(frame).height,
            frame.stride == old(frame).stride,
            frame.bytes@.len() == old(frame).bytes@.len(),
            forall|k: int| 0 <= k < i
                ==> frame.bytes@[k] == (sand_buffer.bytes@[k] | platform_buffer.bytes@[k]),
            forall|k: int| i <= k < frame.bytes@.len()
                ==> frame.bytes@[k] == old(frame).bytes@[k],
        decreases copy_len - i,
    {
        let merged = sand_buffer.bytes[i] | platform_buffer.bytes[i];
        frame.bytes.set(i, merged);
        i += 1;
    }
}

/// Turn every lit pixel of the frame into a sand particle: the intro text
/// crumbles into the simulation when the game starts.
#[verifier::loop_isolation(false)]
pub fn convert_intro_to_sand(frame: &BitPlane, sand_buffer: &mut BitPlane)
    requires
        wf(*frame),
        wf(*old(sand_buffer)),
        same_dims(*frame, *old(sand_buffer)),
    ensures
        wf(*final(sand_buffer)),
        same_dims(*final(sand_buffer), *old(sand_buffer)),
        final(sand_buffer).bytes@.len() == old(sand_buffer).bytes@.len(),
        forall|i: int, j: int| #![trigger bit(*final(sand_buffer), i, j)]
            bit(*final(sand_buffer), i, j)
                == (bit(*old(sand_buffer), i, j) || bit(*frame, i, j)),
{
    let h = sand_buffer.height;
    let w = sand_buffer.width;
    let mut y: usize = 0;
    while y < h
        invariant
            y <= h,
            wf(*sand_buffer),
            same_dims(*sand_buffer, *old(sand_buffer)),
            sand_buffer.bytes@.len() == old(sand_buffer).bytes@.len(),
            forall|i: int, j: int| #![trigger bit(*sand_buffer, i, j)]
                bit(*sand_buffer, i, j) == (bit(*old(sand_buffer), i, j)
                    || (bit(*frame, i, j) && j < y)),
        decreases h - y,
    {
        let mut x: usize = 0;
        while x < w
            invariant
                x <= w,
                y < h,
                wf(*sand_buffer),
                same_dims(*sand_buffer, *old(sand_buffer)),
                sand_buffer.bytes@.len() == old(sand_buffer).bytes@.len(),
                forall|i: int, j: int| #![trigger bit(*sand_buffer, i, j)]
                    bit(*sand_buffer, i, j) == (bit(*old(sand_buffer), i, j)
                        || (bit(*frame, i, j) && (j < y || (j == y && i < x)))),
            decreases w - x,
        {
            if get_pixel(frame, x, y) {
                set_pixel(sand_buffer, x, y, true);
            }
            x += 1;
        }
        y += 1;
    }
}

} // verus!
