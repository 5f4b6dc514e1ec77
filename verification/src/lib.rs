//! A falling-sand cellular automaton on packed 1-bit-per-pixel planes.
//!
//! The simulation keeps two bit planes (sand occupancy and solid obstacles),
//! a per-cell velocity field, an adaptive performance controller driven by a
//! sampled occupancy density, and a dirty-row tracker that coalesces changed
//! rows into minimal contiguous intervals for the display driver.

pub mod automaton;
pub mod bitplane;
pub mod compose;
pub mod consts;
pub mod density;
pub mod dirty;
pub mod fixed;
pub mod forces;
pub mod platform;
pub mod rng;
pub mod sim;
pub mod utils;
pub mod velocity;
