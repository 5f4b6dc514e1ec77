//! Packed 1-bit-per-pixel raster storage.
//!
//! Bit `x` of row `y` lives at `bytes[y * stride + x / 8]`, most significant
//! bit first. Every accessor bound-checks its coordinates: reads outside the
//! grid return `false`, writes outside the grid are dropped, so callers never
//! need to guard edge coordinates themselves.

use vstd::prelude::*;
use vstd::pervasive::VecAdditionalExecFns;
use vstd::arithmetic::div_mod::{
    lemma_div_is_ordered, lemma_div_plus_one, lemma_fundamental_div_mod,
};

verus! {

/// A monochrome raster of `width` x `height` cells packed row-major into
/// `bytes`, `stride` bytes per row.
pub struct BitPlane {
    pub width: usize,
    pub height: usize,
    pub stride: usize,
    pub bytes: Vec<u8>,
}

/// The single-bit mask addressing column `x` inside its byte (MSB first).
pub open spec fn bit_mask(x: int) -> u8 {
    0x80u8 >> ((x % 8) as usize)
}

/// The byte holding column `x` of row `y`.
pub open spec fn byte_index(p: BitPlane, x: int, y: int) -> int {
    y * p.stride + x / 8
}

pub open spec fn in_bounds(p: BitPlane, x: int, y: int) -> bool {
    0 <= x < p.width && 0 <= y < p.height
}

/// Well-formed plane: a positive grid, at least one padding byte per row
/// beyond the packed pixels, and a backing buffer of exactly
/// `stride * height` bytes.
pub open spec fn wf(p: BitPlane) -> bool {
    &&& 1 <= p.width
    &&& 1 <= p.height
    &&& p.stride >= (p.width + 7) / 8 + 1
    &&& p.bytes@.len() == p.stride * p.height
}

/// The occupancy of cell `(x, y)`: false outside the grid.
pub open spec fn bit(p: BitPlane, x: int, y: int) -> bool {
    in_bounds(p, x, y) && (p.bytes@[byte_index(p, x, y)] & bit_mask(x)) != 0
}

/// No cell of the grid is occupied.
pub open spec fn plane_empty(p: BitPlane) -> bool {
    forall|i: int, j: int| !bit(p, i, j)
}

/// Two planes have the same dimensions and byte layout.
pub open spec fn same_dims(a: BitPlane, b: BitPlane) -> bool {
    a.width == b.width && a.height == b.height && a.stride == b.stride
}

/// Number of set bits in one byte.
pub open spec fn pop8(b: u8) -> int {
    (b & 1) + ((b >> 1u8) & 1) + ((b >> 2u8) & 1) + ((b >> 3u8) & 1)
        + ((b >> 4u8) & 1) + ((b >> 5u8) & 1) + ((b >> 6u8) & 1) + ((b >> 7u8) & 1)
}

/// Total number of set bits in a byte sequence.
pub open spec fn total_bits(s: Seq<u8>) -> int
    decreases s.len(),
{
    if s.len() == 0 {
        0
    } else {
        total_bits(s.drop_last()) + pop8(s.last())
    }
}

pub proof fn lemma_pop8_bounds(b: u8)
    ensures
        0 <= pop8(b) <= 8,
{
    assert(0 <= pop8(b) <= 8) by (bit_vector);
}

/// Setting one bit of a byte: the addressed bit becomes set, no other bit
/// moves, and the population count rises by one exactly when the bit was
/// clear before.
pub proof fn lemma_u8_set_bit(b: u8, k: usize, m: usize)
    requires
        k < 8,
        m < 8,
    ensures
        ((b | (0x80u8 >> k)) & (0x80u8 >> k)) != 0,
        k != m ==> ((b | (0x80u8 >> k)) & (0x80u8 >> m)) == (b & (0x80u8 >> m)),
        (b & (0x80u8 >> k)) == 0 ==> pop8(b | (0x80u8 >> k)) == pop8(b) + 1,
        (b & (0x80u8 >> k)) != 0 ==> (b | (0x80u8 >> k)) == b,
{
    assert(((b | (0x80u8 >> k)) & (0x80u8 >> k)) != 0) by (bit_vector)
        requires k < 8,
    ;
    assert(k != m ==> ((b | (0x80u8 >> k)) & (0x80u8 >> m)) == (b & (0x80u8 >> m)))
        by (bit_vector)
        requires k < 8, m < 8,
    ;
    assert((b & (0x80u8 >> k)) == 0 ==> pop8(b | (0x80u8 >> k)) == pop8(b) + 1)
        by (bit_vector)
        requires k < 8,
    ;
    assert((b & (0x80u8 >> k)) != 0 ==> (b | (0x80u8 >> k)) == b) by (bit_vector)
        requires k < 8,
    ;
}

/// Clearing one bit of a byte, the counterpart of `lemma_u8_set_bit`.
pub proof fn lemma_u8_clear_bit(b: u8, k: usize, m: usize)
    requires
        k < 8,
        m < 8,
    ensures
        ((b & !(0x80u8 >> k)) & (0x80u8 >> k)) == 0,
        k != m ==> ((b & !(0x80u8 >> k)) & (0x80u8 >> m)) == (b & (0x80u8 >> m)),
        (b & (0x80u8 >> k)) != 0 ==> pop8(b & !(0x80u8 >> k)) == pop8(b) - 1,
        (b & (0x80u8 >> k)) == 0 ==> (b & !(0x80u8 >> k)) == b,
{
    assert(((b & !(0x80u8 >> k)) & (0x80u8 >> k)) == 0) by (bit_vector)
        requires k < 8,
    ;
    assert(k != m ==> ((b & !(0x80u8 >> k)) & (0x80u8 >> m)) == (b & (0x80u8 >> m)))
        by (bit_vector)
        requires k < 8, m < 8,
    ;
    assert((b & (0x80u8 >> k)) != 0 ==> pop8(b & !(0x80u8 >> k)) == pop8(b) - 1)
        by (bit_vector)
        requires k < 8,
    ;
    assert((b & (0x80u8 >> k)) == 0 ==> (b & !(0x80u8 >> k)) == b) by (bit_vector)
        requires k < 8,
    ;
}

/// Replacing one byte changes the total population count by the difference
/// of the byte population counts.
pub proof fn lemma_total_bits_update(s: Seq<u8>, i: int, v: u8)
    requires
        0 <= i < s.len(),
    ensures
        total_bits(s.update(i, v)) == total_bits(s) - pop8(s[i]) + pop8(v),
    decreases s.len(),
{
    if i == s.len() - 1 {
        assert(s.update(i, v).drop_last() =~= s.drop_last());
        assert(s.update(i, v).last() == v);
    } else {
        assert(s.update(i, v).drop_last() =~= s.drop_last().update(i, v));
        lemma_total_bits_update(s.drop_last(), i, v);
        assert(s.update(i, v).last() == s.last());
    }
}

pub proof fn lemma_total_bits_zero(s: Seq<u8>)
    requires
        forall|j: int| 0 <= j < s.len() ==> s[j] == 0,
    ensures
        total_bits(s) == 0,
    decreases s.len(),
{
    if s.len() > 0 {
        lemma_total_bits_zero(s.drop_last());
        assert(s.last() == 0);
        assert(pop8(0u8) == 0) by (bit_vector);
    }
}

pub proof fn lemma_total_bits_nonneg(s: Seq<u8>)
    ensures
        0 <= total_bits(s),
    decreases s.len(),
{
    if s.len() > 0 {
        lemma_total_bits_nonneg(s.drop_last());
        lemma_pop8_bounds(s.last());
    }
}

/// The total population count dominates the count of any single byte.
pub proof fn lemma_total_bits_lower(s: Seq<u8>, i: int)
    requires
        0 <= i < s.len(),
    ensures
        pop8(s[i]) <= total_bits(s),
    decreases s.len(),
{
    if i == s.len() - 1 {
        lemma_total_bits_nonneg(s.drop_last());
    } else {
        lemma_total_bits_lower(s.drop_last(), i);
        lemma_pop8_bounds(s.last());
    }
}

/// The total population count dominates the sum over any two distinct
/// bytes.
pub proof fn lemma_total_bits_two(s: Seq<u8>, i: int, j: int)
    requires
        0 <= i < s.len(),
        0 <= j < s.len(),
        i != j,
    ensures
        pop8(s[i]) + pop8(s[j]) <= total_bits(s),
    decreases s.len(),
{
    if i == s.len() - 1 {
        lemma_total_bits_lower(s.drop_last(), j);
    } else if j == s.len() - 1 {
        lemma_total_bits_lower(s.drop_last(), i);
    } else {
        lemma_total_bits_two(s.drop_last(), i, j);
        lemma_pop8_bounds(s.last());
    }
}

/// A plane whose total population count is one holds no cell besides the
/// given set one.
pub proof fn lemma_single_bit(p: BitPlane, x: int, y: int)
    requires
        wf(p),
        bit(p, x, y),
        total_bits(p.bytes@) == 1,
    ensures
        forall|i: int, j: int| !(i == x && j == y) ==> !bit(p, i, j),
{
    assert forall|i: int, j: int| !(i == x && j == y) implies !bit(p, i, j) by {
        if bit(p, i, j) {
            lemma_column_offset(p.width as int, p.stride as int, x);
            lemma_index_bounds(p.stride as int, p.height as int, y, x / 8);
            lemma_column_offset(p.width as int, p.stride as int, i);
            lemma_index_bounds(p.stride as int, p.height as int, j, i / 8);
            let bi = byte_index(p, x, y);
            let bj = byte_index(p, i, j);
            let k = (x % 8) as usize;
            let m = (i % 8) as usize;
            assert(0 <= x % 8 < 8 && 0 <= i % 8 < 8) by (nonlinear_arith)
                requires x >= 0, i >= 0,
            ;
            assert(bit_mask(x) == 0x80u8 >> k);
            assert(bit_mask(i) == 0x80u8 >> m);
            if bi == bj {
                lemma_index_injective(p.stride as int, j, i / 8, y, x / 8);
                lemma_fundamental_div_mod(i, 8);
                lemma_fundamental_div_mod(x, 8);
                assert(k != m);
                let b = p.bytes@[bi];
                assert((b & (0x80u8 >> k)) != 0 && (b & (0x80u8 >> m)) != 0 && k != m
                    ==> pop8(b) >= 2) by (bit_vector)
                    requires k < 8, m < 8,
                ;
                lemma_total_bits_lower(p.bytes@, bi);
            } else {
                let b1 = p.bytes@[bi];
                let b2 = p.bytes@[bj];
                assert((b1 & (0x80u8 >> k)) != 0 ==> pop8(b1) >= 1) by (bit_vector)
                    requires k < 8,
                ;
                assert((b2 & (0x80u8 >> m)) != 0 ==> pop8(b2) >= 1) by (bit_vector)
                    requires m < 8,
                ;
                lemma_total_bits_two(p.bytes@, bi, bj);
            }
        }
    }
}

/// Planes with the same dimensions and the same bytes hold the same
/// cells.
pub proof fn lemma_same_bits(a: BitPlane, b: BitPlane)
    requires
        same_dims(a, b),
        a.bytes@ == b.bytes@,
    ensures
        forall|i: int, j: int| bit(a, i, j) == bit(b, i, j),
{
}

/// Row-major indices of distinct in-row offsets or distinct rows differ.
pub proof fn lemma_index_injective(stride: int, y1: int, a1: int, y2: int, a2: int)
    by (nonlinear_arith)
    requires
        0 <= a1 < stride,
        0 <= a2 < stride,
        0 <= y1,
        0 <= y2,
        y1 * stride + a1 == y2 * stride + a2,
    ensures
        y1 == y2,
        a1 == a2,
{
}

/// A row-major index of an in-range cell lies inside the buffer.
pub proof fn lemma_index_bounds(stride: int, height: int, y: int, a: int)
    by (nonlinear_arith)
    requires
        0 <= y < height,
        0 <= a < stride,
    ensures
        0 <= y * stride + a < stride * height,
{
}

/// The byte offset of an in-range column lies strictly inside the row,
/// leaving the padding byte untouched.
pub proof fn lemma_column_offset(width: int, stride: int, x: int)
    requires
        0 <= x < width,
        stride >= (width + 7) / 8 + 1,
    ensures
        0 <= x / 8 < stride,
{
    lemma_div_is_ordered(x, width - 1, 8);
    lemma_div_is_ordered(width - 1, width + 7 - 8, 8);
    lemma_div_plus_one(width - 1, 8);
    assert(x / 8 >= 0) by (nonlinear_arith)
        requires x >= 0,
    ;
}

/// An all-zero byte buffer holds no set cell.
pub proof fn lemma_zero_bytes_empty(p: BitPlane)
    requires
        forall|j: int| 0 <= j < p.bytes@.len() ==> p.bytes@[j] == 0,
        wf(p),
    ensures
        plane_empty(p),
{
    assert forall|i: int, j: int| !bit(p, i, j) by {
        if in_bounds(p, i, j) {
            lemma_column_offset(p.width as int, p.stride as int, i);
            lemma_index_bounds(p.stride as int, p.height as int, j, i / 8);
            assert(p.bytes@[byte_index(p, i, j)] == 0);
            let k = (i % 8) as usize;
            assert(0 <= i % 8 < 8) by (nonlinear_arith)
                requires i >= 0,
            ;
            assert((0u8 & (0x80u8 >> k)) == 0) by (bit_vector)
                requires k < 8,
            ;
            assert(bit_mask(i) == 0x80u8 >> k);
        }
    }
}

impl BitPlane {
    /// An all-clear plane of the given dimensions.
    #[verifier::loop_isolation(false)]
    pub fn new(width: usize, height: usize) -> (p: BitPlane)
        requires
            1 <= width,
            1 <= height,
            ((width as int + 7) / 8 + 2) * height <= usize::MAX,
        ensures
            wf(p),
            p.width == width,
            p.height == height,
            forall|j: int| 0 <= j < p.bytes@.len() ==> p.bytes@[j] == 0,
            plane_empty(p),
            total_bits(p.bytes@) == 0,
            p.bytes@.len() <= ((width as int + 7) / 8 + 2) * height,
            p.stride as int == (width as int - 1) / 8 + 3,
    {
        let stride = (width - 1) / 8 + 3;
        proof {
            lemma_div_plus_one(width - 1, 8);
            assert((width as int + 7) / 8 == (width as int - 1) / 8 + 1);
            assert(stride >= (width as int + 7) / 8 + 1);
            assert(stride <= (width as int + 7) / 8 + 2);
            assert(stride * height <= ((width as int + 7) / 8 + 2) * height)
                by (nonlinear_arith)
                requires
                    stride <= (width as int + 7) / 8 + 2,
                    height >= 1,
            ;
        }
        let n = stride * height;
        let mut bytes: Vec<u8> = Vec::new();
        while bytes.len() < n
            invariant
                bytes@.len() <= n,
                forall|j: int| 0 <= j < bytes@.len() ==> bytes@[j] == 0,
            decreases n - bytes.len(),
        {
            bytes.push(0u8);
        }
        let p = BitPlane { width, height, stride, bytes };
        proof {
            lemma_zero_bytes_empty(p);
            lemma_total_bits_zero(p.bytes@);
        }
        p
    }
}

/// Zero every byte of the plane.
#[verifier::loop_isolation(false)]
pub fn clear_buffer(buffer: &mut BitPlane)
    requires
        wf(*old(buffer)),
    ensures
        wf(*final(buffer)),
        same_dims(*final(buffer), *old(buffer)),
        final(buffer).bytes@.len() == old(buffer).bytes@.len(),
        forall|j: int| 0 <= j < final(buffer).bytes@.len() ==> final(buffer).bytes@[j] == 0,
        plane_empty(*final(buffer)),
        total_bits(final(buffer).bytes@) == 0,
{
    let n = buffer.bytes.len();
    let mut i: usize = 0;
    while i < n
        invariant
            i <= n,
            buffer.width == old(buffer).width,
            buffer.height == old(buffer).height,
            buffer.stride == old(buffer).stride,
            buffer.bytes@.len() == n,
            forall|j: int| 0 <= j < i ==> buffer.bytes@[j] == 0,
        decreases n - i,
    {
        buffer.bytes.set(i, 0u8);
        i += 1;
    }
    proof {
        lemma_zero_bytes_empty(*buffer);
        lemma_total_bits_zero(buffer.bytes@);
    }
}

/// Read cell `(x, y)`; out-of-range coordinates read as `false`.
pub fn get_pixel(buffer: &BitPlane, x: usize, y: usize) -> (r: bool)
    requires
        wf(*buffer),
    ensures
        r == bit(*buffer, x as int, y as int),
{
    if x >= buffer.width || y >= buffer.height {
        return false;
    }
    proof {
        lemma_column_offset(buffer.width as int, buffer.stride as int, x as int);
        lemma_index_bounds(buffer.stride as int, buffer.height as int, y as int, x as int / 8);
        assert(0 <= y as int * buffer.stride as int);
    }
    let n = buffer.bytes.len();
    proof {
        assert(y as int * buffer.stride as int + x as int / 8 < n as int);
    }
    let index = y * buffer.stride + x / 8;
    (buffer.bytes[index] & (0x80u8 >> (x % 8))) != 0
}

/// Write cell `(x, y)`; out-of-range coordinates are silently dropped.
/// The addressed bit takes `value` and no other bit of the plane moves.
pub fn set_pixel(buffer: &mut BitPlane, x: usize, y: usize, value: bool)
    requires
        wf(*old(buffer)),
    ensures
        wf(*final(buffer)),
        same_dims(*final(buffer), *old(buffer)),
        final(buffer).bytes@.len() == old(buffer).bytes@.len(),
        in_bounds(*old(buffer), x as int, y as int)
            ==> bit(*final(buffer), x as int, y as int) == value,
        forall|i: int, j: int|
            !(i == x as int && j == y as int)
                ==> bit(*final(buffer), i, j) == bit(*old(buffer), i, j),
        !in_bounds(*old(buffer), x as int, y as int)
            ==> final(buffer).bytes@ == old(buffer).bytes@,
        total_bits(final(buffer).bytes@)
            + (if bit(*old(buffer), x as int, y as int) { 1int } else { 0int })
            == total_bits(old(buffer).bytes@)
            + (if bit(*final(buffer), x as int, y as int) { 1int } else { 0int }),
{
    if x >= buffer.width || y >= buffer.height {
        return;
    }
    proof {
        lemma_column_offset(buffer.width as int, buffer.stride as int, x as int);
        lemma_index_bounds(buffer.stride as int, buffer.height as int, y as int, x as int / 8);
        assert(0 <= y as int * buffer.stride as int);
    }
    let n = buffer.bytes.len();
    proof {
        assert(y as int * buffer.stride as int + x as int / 8 < n as int);
    }
    let index = y * buffer.stride + x / 8;
    let k = x % 8;
    let b = buffer.bytes[index];
    let nb = if value { b | (0x80u8 >> k) } else { b & !(0x80u8 >> k) };
    buffer.bytes.set(index, nb);
    proof {
        let xi = x as int;
        let yi = y as int;
        assert(bit_mask(xi) == 0x80u8 >> k);
        lemma_u8_set_bit(b, k, k);
        lemma_u8_clear_bit(b, k, k);
        lemma_total_bits_update(old(buffer).bytes@, index as int, nb);
        assert forall|i: int, j: int|
            !(i == xi && j == yi) implies bit(*buffer, i, j) == bit(*old(buffer), i, j) by {
            if in_bounds(*old(buffer), i, j) {
                lemma_column_offset(buffer.width as int, buffer.stride as int, i);
                lemma_index_bounds(buffer.stride as int, buffer.height as int, j, i / 8);
                let idx2 = byte_index(*old(buffer), i, j);
                if idx2 == index as int {
                    lemma_index_injective(buffer.stride as int, j, i / 8, yi, xi / 8);
                    lemma_fundamental_div_mod(i, 8);
                    lemma_fundamental_div_mod(xi, 8);
                    let km = (i % 8) as usize;
                    assert(0 <= i % 8 < 8) by (nonlinear_arith)
                        requires i >= 0,
                    ;
                    assert(km != k);
                    assert(bit_mask(i) == 0x80u8 >> km);
                    lemma_u8_set_bit(b, k, km);
                    lemma_u8_clear_bit(b, k, km);
                }
            }
        }
    }
}

} // verus!
