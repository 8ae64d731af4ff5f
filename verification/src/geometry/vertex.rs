//! A point of model space.

use crate::coord::Coord;
use vstd::prelude::*;

verus! {

/// A 3D point with totally ordered coordinates.
#[derive(Clone, Copy, Debug, PartialEq, Eq, Structural)]
pub struct Vertex {
    pub x: Coord,
    pub y: Coord,
    pub z: Coord,
}

impl Vertex {
    /// The origin, as a specification value.
    pub open spec fn origin() -> Vertex {
        Vertex { x: Coord { raw: 0 }, y: Coord { raw: 0 }, z: Coord { raw: 0 } }
    }

    /// The point with the given coordinates.
    pub fn new(x: Coord, y: Coord, z: Coord) -> (r: Vertex)
        ensures
            r == (Vertex { x, y, z }),
    {
        Vertex { x, y, z }
    }
}

impl Default for Vertex {
    /// The origin.
    fn default() -> (r: Vertex)
        ensures
            r == Vertex::origin(),
    {
        Vertex { x: Coord { raw: 0 }, y: Coord { raw: 0 }, z: Coord { raw: 0 } }
    }
}

} // verus!
