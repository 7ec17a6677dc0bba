//! A small fixed-point arcade-shooter simulation.
//!
//! The playfield is measured in subpixels (1/1000 of a pixel) and time in
//! milliseconds, so one pixel-per-second of speed is one subpixel per
//! millisecond. All state transitions are integer arithmetic, clamped to a
//! fixed coordinate range so that a step is total for every `dt`.

pub mod game;
pub mod laws;
pub mod rng;

use vstd::prelude::*;

verus! {

/// Largest coordinate magnitude the simulation represents, in subpixels.
pub const COORD_LIMIT: i64 = 1_000_000_000;

/// Clamp of a mathematical integer into the representable coordinate range.
pub open spec fn clamped(v: int) -> int {
    if v < -COORD_LIMIT {
        -COORD_LIMIT as int
    } else if v > COORD_LIMIT {
        COORD_LIMIT as int
    } else {
        v
    }
}

/// Clamp a wide intermediate value into the coordinate range.
pub fn clamp_wide(v: i128) -> (r: i64)
    ensures
        r == clamped(v as int),
{
    if v < -COORD_LIMIT as i128 {
        -COORD_LIMIT
    } else if v > COORD_LIMIT as i128 {
        COORD_LIMIT
    } else {
        v as i64
    }
}

/// Clamped sum of two coordinates or timer values.
pub fn clamp_add(a: i64, b: i64) -> (r: i64)
    ensures
        r == clamped(a + b),
{
    clamp_wide(a as i128 + b as i128)
}

} // verus!
