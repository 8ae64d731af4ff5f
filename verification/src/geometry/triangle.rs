//! Triangles and the triangle/plane intersector.

use crate::coord::Coord;
use crate::geometry::line::Line;
use crate::geometry::vertex::Vertex;
use vstd::arithmetic::div_mod::{lemma_div_is_ordered, lemma_div_multiples_vanish};
use vstd::arithmetic::mul::{lemma_mul_inequality, lemma_mul_upper_bound};
use vstd::math::abs;
use vstd::prelude::*;

verus! {

/// A facet of a mesh: three vertices in order, an outward normal, and a
/// 16-bit attribute carried through the decoder unchanged.
#[derive(Clone, Copy, Debug, PartialEq)]
pub struct Triangle {
    pub normal: Vertex,
    pub vertices: [Vertex; 3],
    pub attr_byte_count: u16,
}

impl Default for Triangle {
    /// The degenerate triangle at the origin.
    fn default() -> (r: Triangle)
        ensures
            r.normal == Vertex::origin(),
            r.vertices@ =~= seq![Vertex::origin(), Vertex::origin(), Vertex::origin()],
            r.attr_byte_count == 0,
    {
        Triangle {
            normal: Vertex::default(),
            vertices: [Vertex::default(), Vertex::default(), Vertex::default()],
            attr_byte_count: 0,
        }
    }
}

/// The triangle's vertices in ascending Z, ties kept in original order
/// (a stable sort, so the cut is deterministic and reproducible).
pub open spec fn sorted_by_z(t: Triangle) -> (Vertex, Vertex, Vertex) {
    let a = t.vertices[0];
    let b = t.vertices[1];
    let c = t.vertices[2];
    let ab = if b.z.raw < a.z.raw {
        (b, a)
    } else {
        (a, b)
    };
    if c.z.raw < ab.1.z.raw {
        if c.z.raw < ab.0.z.raw {
            (c, ab.0, ab.1)
        } else {
            (ab.0, c, ab.1)
        }
    } else {
        (ab.0, ab.1, c)
    }
}

/// The magnitude of the interpolation offset: the exact rational offset
/// `num_mag * dx_mag / den_mag`, rounded down to the coordinate grid.
pub open spec fn interp_off(num_mag: nat, dx_mag: nat, den_mag: nat) -> nat
    recommends
        den_mag > 0,
{
    num_mag * dx_mag / den_mag
}

/// Linear interpolation of one axis from `p` toward `q`, at the fraction
/// `num_mag / den_mag` of the edge (the offset is rounded toward `p`).
pub open spec fn interp_coord(p: int, q: int, num_mag: nat, den_mag: nat) -> int
    recommends
        den_mag > 0,
        num_mag <= den_mag,
{
    if q >= p {
        p + interp_off(num_mag, (q - p) as nat, den_mag)
    } else {
        p - interp_off(num_mag, (p - q) as nat, den_mag)
    }
}

/// The point where the edge from `p` to `q` crosses the plane `z == h`:
/// X and Y are interpolated at the fraction `(h - p.z) / (q.z - p.z)`
/// along the edge, and Z is fixed at the cutting height itself.
pub open spec fn interp_vertex(p: Vertex, q: Vertex, h: i64) -> Vertex
    recommends
        p.z.raw != q.z.raw,
        p.z.raw <= h <= q.z.raw || q.z.raw <= h <= p.z.raw,
{
    let num = abs(h - p.z.raw);
    let den = abs(q.z.raw - p.z.raw);
    Vertex {
        x: Coord { raw: interp_coord(p.x.raw as int, q.x.raw as int, num, den) as i64 },
        y: Coord { raw: interp_coord(p.y.raw as int, q.y.raw as int, num, den) as i64 },
        z: Coord { raw: h },
    }
}

/// What cutting a triangle at height `h` yields.
///
/// With the vertices sorted by Z as `v0 <= v1 <= v2`:
/// - a triangle strictly above or strictly below the plane yields nothing;
/// - a triangle coplanar with the plane yields nothing;
/// - when only `v0` lies at or below the plane, the cut crosses the edges
///   `(v0, v2)` and `(v0, v1)`;
/// - when `v1` lies at or below the plane too, the cut crosses the edges
///   `(v2, v1)` and `(v2, v0)`; if `v1` and `v2` share the cutting height
///   exactly, the edge between them lies in the plane and its far endpoint
///   is taken directly instead of dividing by zero.
pub open spec fn intersect_spec(t: Triangle, h: i64) -> Option<Line> {
    let svs = sorted_by_z(t);
    let v0 = svs.0;
    let v1 = svs.1;
    let v2 = svs.2;
    if v0.z.raw > h {
        None
    } else if v2.z.raw < h {
        None
    } else if v0.z.raw == v2.z.raw {
        None
    } else if v1.z.raw > h {
        Some(Line { v1: interp_vertex(v0, v2, h), v2: interp_vertex(v0, v1, h) })
    } else {
        let p1 = if v1.z.raw == v2.z.raw {
            Vertex { x: v1.x, y: v1.y, z: Coord { raw: h } }
        } else {
            interp_vertex(v2, v1, h)
        };
        Some(Line { v1: p1, v2: interp_vertex(v2, v0, h) })
    }
}

/// Every vertex lies strictly above the plane `z == h`.
pub open spec fn all_strictly_above(t: Triangle, h: i64) -> bool {
    t.vertices[0].z.raw > h && t.vertices[1].z.raw > h && t.vertices[2].z.raw > h
}

/// Every vertex lies strictly below the plane `z == h`.
pub open spec fn all_strictly_below(t: Triangle, h: i64) -> bool {
    t.vertices[0].z.raw < h && t.vertices[1].z.raw < h && t.vertices[2].z.raw < h
}

/// A triangle strictly above or strictly below the cutting plane yields
/// no line.
pub proof fn lemma_outside_yields_none(t: Triangle, h: i64)
    requires
        all_strictly_above(t, h) || all_strictly_below(t, h),
    ensures
        intersect_spec(t, h) is None,
{
}

/// The intersector yields a line exactly when the plane meets the
/// triangle's Z extent and the triangle does not lie wholly inside the
/// plane.
pub proof fn lemma_cut_exists(t: Triangle, h: i64)
    ensures
        intersect_spec(t, h) is Some <==> (!all_strictly_above(t, h) && !all_strictly_below(t, h)
            && !(t.vertices[0].z.raw == h && t.vertices[1].z.raw == h && t.vertices[2].z.raw
            == h)),
{
}

/// Both endpoints of any line the intersector yields lie exactly at the
/// cutting height.
pub proof fn lemma_cut_lies_at_height(t: Triangle, h: i64)
    requires
        intersect_spec(t, h) is Some,
    ensures
        intersect_spec(t, h)->Some_0.v1.z.raw == h,
        intersect_spec(t, h)->Some_0.v2.z.raw == h,
{
}

/// Interpolation of one axis: `p` plus the offset `num_mag * |q - p| / den_mag`
/// rounded down, taken toward `q`. The result always lies between `p` and `q`.
fn interp_axis(p: i64, q: i64, num_mag: u64, den_mag: u64) -> (r: i64)
    requires
        den_mag > 0,
        num_mag <= den_mag,
    ensures
        r as int == interp_coord(p as int, q as int, num_mag as nat, den_mag as nat),
        p <= q ==> p <= r <= q,
        q <= p ==> q <= r <= p,
{
    let dx_mag: u128 = if q >= p {
        (q as i128 - p as i128) as u128
    } else {
        (p as i128 - q as i128) as u128
    };
    proof {
        assert((num_mag as int) * (dx_mag as int) <= (u64::MAX as int) * (u64::MAX as int)) by {
            lemma_mul_upper_bound(num_mag as int, u64::MAX as int, dx_mag as int, u64::MAX as int);
        }
    }
    let off: u128 = (num_mag as u128) * dx_mag / (den_mag as u128);
    proof {
        assert((num_mag as int) * (dx_mag as int) <= (den_mag as int) * (dx_mag as int)) by {
            lemma_mul_inequality(num_mag as int, den_mag as int, dx_mag as int);
        }
        assert((num_mag as int) * (dx_mag as int) / (den_mag as int) <= (den_mag as int) * (
        dx_mag as int) / (den_mag as int)) by {
            lemma_div_is_ordered(
                (num_mag as int) * (dx_mag as int),
                (den_mag as int) * (dx_mag as int),
                den_mag as int,
            );
        }
        assert((den_mag as int) * (dx_mag as int) / (den_mag as int) == dx_mag as int) by {
            lemma_div_multiples_vanish(dx_mag as int, den_mag as int);
        }
        assert(off <= dx_mag);
    }
    if q >= p {
        let r: i128 = p as i128 + off as i128;
        r as i64
    } else {
        let r: i128 = p as i128 - off as i128;
        r as i64
    }
}

/// The point where the edge from `p` to `q` crosses the plane `z == h`.
fn interp_edge(p: &Vertex, q: &Vertex, h: i64) -> (r: Vertex)
    requires
        p.z.raw != q.z.raw,
        p.z.raw <= h <= q.z.raw || q.z.raw <= h <= p.z.raw,
    ensures
        r == interp_vertex(*p, *q, h),
{
    let num_mag: u64 = if h >= p.z.raw {
        (h as i128 - p.z.raw as i128) as u64
    } else {
        (p.z.raw as i128 - h as i128) as u64
    };
    let den_mag: u64 = if q.z.raw >= p.z.raw {
        (q.z.raw as i128 - p.z.raw as i128) as u64
    } else {
        (p.z.raw as i128 - q.z.raw as i128) as u64
    };
    let x = interp_axis(p.x.raw, q.x.raw, num_mag, den_mag);
    let y = interp_axis(p.y.raw, q.y.raw, num_mag, den_mag);
    Vertex { x: Coord { raw: x }, y: Coord { raw: y }, z: Coord { raw: h } }
}

impl Triangle {
    /// The triangle's vertices sorted by Z ascending, ties in original order.
    fn sort_vertices_by_z(&self) -> (r: (Vertex, Vertex, Vertex))
        ensures
            r == sorted_by_z(*self),
    {
        let a = self.vertices[0];
        let b = self.vertices[1];
        let c = self.vertices[2];
        let (a1, b1) = if b.z.raw < a.z.raw {
            (b, a)
        } else {
            (a, b)
        };
        if c.z.raw < b1.z.raw {
            if c.z.raw < a1.z.raw {
                (c, a1, b1)
            } else {
                (a1, c, b1)
            }
        } else {
            (a1, b1, c)
        }
    }

    /// The line where the plane `z == z.raw` cuts this triangle, if any.
    ///
    /// A triangle strictly above the plane, strictly below it, or exactly
    /// coplanar with it yields `None`; every other triangle yields the
    /// segment whose endpoints lie on the two crossed edges, both exactly
    /// at the cutting height.
    pub fn intersects_z(&self, z: Coord) -> (r: Option<Line>)
        ensures
            r == intersect_spec(*self, z.raw),
    {
        let h = z.raw;
        let (v0, v1, v2) = self.sort_vertices_by_z();
        if v0.z.raw > h {
            return None;
        }
        if v2.z.raw < h {
            return None;
        }
        if v0.z.raw == v2.z.raw {
            return None;
        }
        if v1.z.raw > h {
            let p1 = interp_edge(&v0, &v2, h);
            let p2 = interp_edge(&v0, &v1, h);
            Some(Line { v1: p1, v2: p2 })
        } else {
            let p1 = if v1.z.raw == v2.z.raw {
                Vertex { x: v1.x, y: v1.y, z: Coord { raw: h } }
            } else {
                interp_edge(&v2, &v1, h)
            };
            let p2 = interp_edge(&v2, &v0, h);
            Some(Line { v1: p1, v2: p2 })
        }
    }
}

} // verus!
