//! Geometry value types: sizes and screen regions.
//!
//! The composition engine treats these as opaque plain values: an `Area` is a
//! width/height pair with a canonical zero, and a `Region` is a position plus
//! an area. The only arithmetic the engine performs on them is saturating
//! accumulation when stacking areas, defined here.

use vstd::prelude::*;

verus! {

/// A width/height pair in device units.
#[derive(Copy, Clone, Debug, PartialEq, Eq, Structural)]
pub struct Area {
    pub width: u32,
    pub height: u32,
}

impl Area {
    /// The canonical zero-sized area.
    pub open spec fn zero_spec() -> Area {
        Area { width: 0, height: 0 }
    }

    pub fn zero() -> (a: Area)
        ensures
            a == Area::zero_spec(),
    {
        Area { width: 0, height: 0 }
    }
}

/// A position in device units.
#[derive(Copy, Clone, Debug, PartialEq, Eq, Structural)]
pub struct Point {
    pub x: u32,
    pub y: u32,
}

/// A placed rectangle: a position plus an area.
#[derive(Copy, Clone, Debug, PartialEq, Eq, Structural)]
pub struct Region {
    pub pos: Point,
    pub area: Area,
}

/// Saturating addition on `u32`, used when accumulating stacked heights.
pub open spec fn sat_add(a: u32, b: u32) -> u32 {
    if a + b <= u32::MAX {
        (a + b) as u32
    } else {
        u32::MAX
    }
}

pub fn sat_add_u32(a: u32, b: u32) -> (r: u32)
    ensures
        r == sat_add(a, b),
{
    if a <= u32::MAX - b {
        a + b
    } else {
        u32::MAX
    }
}

/// The larger of two `u32` values, used when accumulating stacked widths.
pub open spec fn max_of(a: u32, b: u32) -> u32 {
    if a >= b {
        a
    } else {
        b
    }
}

pub fn max_u32(a: u32, b: u32) -> (r: u32)
    ensures
        r == max_of(a, b),
{
    if a >= b {
        a
    } else {
        b
    }
}

} // verus!
