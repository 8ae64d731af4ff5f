//! One horizontal cross-section of a mesh.

use crate::coord::Coord;
use crate::geometry::line::Line;
use vstd::prelude::*;

verus! {

/// The cross-section of a mesh at one height: the segments cut from its
/// triangles by the plane `z == height`, in mesh order, plus that height.
///
/// A slice owns its lines outright; it never references mesh storage.
#[derive(Clone, Debug, PartialEq)]
pub struct Slice {
    pub lines: Vec<Line>,
    pub height: Coord,
}

impl Default for Slice {
    /// The empty cross-section at height zero.
    fn default() -> (r: Slice)
        ensures
            r.lines@ == Seq::<Line>::empty(),
            r.height.raw == 0,
    {
        Slice { lines: Vec::new(), height: Coord { raw: 0 } }
    }
}

} // verus!
