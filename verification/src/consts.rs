//! Canonical raster dimensions of the target display and brush size.

use vstd::prelude::*;

verus! {

/// Pixel rows of the display raster.
pub const ROWS: usize = 240;

/// Pixel columns of the display raster.
pub const PIXEL_WIDTH: usize = 400;

/// Bytes per packed row: one bit per pixel plus a two-byte padding margin.
pub const COLUMNS: usize = 2 + PIXEL_WIDTH / 8;

/// Total byte length of one packed plane at the canonical dimensions.
pub const BUFFER_SIZE: usize = COLUMNS * ROWS;

/// Side length of the square placement brush.
pub const SAND_BRUSH_SIZE: usize = 5;

} // verus!
