//! One edge of a slice's contour.

use crate::geometry::vertex::Vertex;
use vstd::prelude::*;

verus! {

/// An ordered pair of vertices, the unit of cross-section output.
///
/// The endpoints are distinct except in degenerate near-tangent cuts.
#[derive(Clone, Copy, Debug, PartialEq, Eq, Structural)]
pub struct Line {
    pub v1: Vertex,
    pub v2: Vertex,
}

impl Default for Line {
    /// The degenerate segment at the origin.
    fn default() -> (r: Line)
        ensures
            r.v1 == Vertex::origin() && r.v2 == Vertex::origin(),
    {
        Line { v1: Vertex::default(), v2: Vertex::default() }
    }
}

impl From<(Vertex, Vertex)> for Line {
    /// The segment from the first to the second vertex of the pair.
    fn from(input: (Vertex, Vertex)) -> (r: Line) {
        Line { v1: input.0, v2: input.1 }
    }
}

impl vstd::std_specs::convert::FromSpecImpl<(Vertex, Vertex)> for Line {
    open spec fn obeys_from_spec() -> bool {
        true
    }

    open spec fn from_spec(input: (Vertex, Vertex)) -> Line {
        Line { v1: input.0, v2: input.1 }
    }
}

} // verus!
