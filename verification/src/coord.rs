//! The totally ordered coordinate domain.
//!
//! Every coordinate is a dyadic rational `raw / 65536`, stored as the
//! integer `raw`. The domain is totally ordered (by `raw`), closed under
//! the exact translation and interpolation arithmetic the slicer needs,
//! and free of the partial-order pitfalls of machine floating point:
//! there is no value that fails to compare.

use vstd::prelude::*;

verus! {

/// Number of `raw` steps per model unit: coordinates carry 16 fractional bits.
pub const COORD_SCALE: i64 = 65536;

/// One coordinate of a model-space point, measured in 1/65536 units.
#[derive(Clone, Copy, Debug, PartialEq, Eq, Structural)]
pub struct Coord {
    /// The coordinate value multiplied by `COORD_SCALE`.
    pub raw: i64,
}

impl Coord {
    /// The coordinate as an unbounded integer count of 1/65536 units.
    pub open spec fn as_int(self) -> int {
        self.raw as int
    }

    /// The coordinate holding exactly `raw / 65536` units.
    pub fn from_raw(raw: i64) -> (r: Coord)
        ensures
            r.raw == raw,
    {
        Coord { raw }
    }

    /// The coordinate holding exactly `units` whole units.
    pub fn from_units(units: i64) -> (r: Coord)
        requires
            units * COORD_SCALE <= i64::MAX,
            units * COORD_SCALE >= i64::MIN,
        ensures
            r.raw == units * COORD_SCALE,
    {
        Coord { raw: units * COORD_SCALE }
    }

    /// The coordinate of the origin.
    pub fn zero() -> (r: Coord)
        ensures
            r.raw == 0,
    {
        Coord { raw: 0 }
    }
}

} // verus!
