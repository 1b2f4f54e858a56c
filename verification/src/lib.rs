//! Scale-resolution and measurement-state engine for construction take-off.
//!
//! Users draw measurements (counts, polygons, polylines, rectangles) on
//! scanned drawing pages; the engine decides which real-world scale applies
//! to each pixel geometry, derives real-world area/length/count values,
//! and aggregates them into named groups. All quantities are exact
//! rationals, so every derivation here carries a proved contract.

use vstd::prelude::*;

pub mod cell;
pub mod coords;
pub mod error;
pub mod group;
pub mod laws;
pub mod measurement;
pub mod page;
pub mod rat;
pub mod scale;
pub mod state;
pub mod unit;

verus! {

/// Adds two numbers, provided the sum fits in a `u64`.
pub fn add(left: u64, right: u64) -> (r: u64)
    requires
        left + right <= u64::MAX,
    ensures
        r == left + right,
{
    left + right
}

/// Add 100 to the input.
pub fn plus_100(input: u32) -> (r: u32)
    requires
        input + 100 <= u32::MAX,
    ensures
        r == input + 100,
{
    input + 100
}

/// Add 200 to the input.
pub fn plus_200(input: u32) -> (r: u32)
    requires
        input + 200 <= u32::MAX,
    ensures
        r == input + 200,
{
    input + 200
}

} // verus!
