//! The mesh: an ordered collection of triangles with cached extents,
//! normalization into non-negative coordinate space, and slicing.

use crate::coord::Coord;
use crate::geometry::line::Line;
use crate::geometry::slice::Slice;
use crate::geometry::triangle::{intersect_spec, lemma_outside_yields_none, Triangle};
use crate::geometry::vertex::Vertex;
use vstd::math::{max, min};
use vstd::prelude::*;

verus! {

/// Coordinate `a` (0 = X, 1 = Y, 2 = Z) of a vertex, as an integer.
pub open spec fn axis_of(v: Vertex, a: int) -> int {
    if a == 0 {
        v.x.raw as int
    } else if a == 1 {
        v.y.raw as int
    } else {
        v.z.raw as int
    }
}

/// The least coordinate of a triangle's vertices on axis `a`.
pub open spec fn tri_min(t: Triangle, a: int) -> int {
    min(axis_of(t.vertices[0], a), min(axis_of(t.vertices[1], a), axis_of(t.vertices[2], a)))
}

/// The greatest coordinate of a triangle's vertices on axis `a`.
pub open spec fn tri_max(t: Triangle, a: int) -> int {
    max(axis_of(t.vertices[0], a), max(axis_of(t.vertices[1], a), axis_of(t.vertices[2], a)))
}

/// The least coordinate on axis `a` over every vertex of every triangle;
/// zero for an empty mesh.
pub open spec fn mesh_min(ts: Seq<Triangle>, a: int) -> int
    decreases ts.len(),
{
    if ts.len() == 0 {
        0
    } else if ts.len() == 1 {
        tri_min(ts[0], a)
    } else {
        min(mesh_min(ts.drop_last(), a), tri_min(ts.last(), a))
    }
}

/// The greatest coordinate on axis `a` over every vertex of every triangle;
/// zero for an empty mesh.
pub open spec fn mesh_max(ts: Seq<Triangle>, a: int) -> int
    decreases ts.len(),
{
    if ts.len() == 0 {
        0
    } else if ts.len() == 1 {
        tri_max(ts[0], a)
    } else {
        max(mesh_max(ts.drop_last(), a), tri_max(ts.last(), a))
    }
}

/// The minimum corner of the axis-aligned box enclosing the triangles.
pub open spec fn extents_min(ts: Seq<Triangle>) -> Vertex {
    Vertex {
        x: Coord { raw: mesh_min(ts, 0) as i64 },
        y: Coord { raw: mesh_min(ts, 1) as i64 },
        z: Coord { raw: mesh_min(ts, 2) as i64 },
    }
}

/// The maximum corner of the axis-aligned box enclosing the triangles.
pub open spec fn extents_max(ts: Seq<Triangle>) -> Vertex {
    Vertex {
        x: Coord { raw: mesh_max(ts, 0) as i64 },
        y: Coord { raw: mesh_max(ts, 1) as i64 },
        z: Coord { raw: mesh_max(ts, 2) as i64 },
    }
}

/// The translation applied on one axis: an axis whose least coordinate
/// `min0` is negative is shifted up by `|min0|` plus the margin; an axis
/// already non-negative is left untouched.
pub open spec fn spec_off(min0: int, margin: int) -> int {
    if min0 < 0 {
        -min0 + margin
    } else {
        0
    }
}

/// The translation `normalize` applies to the given triangles on axis `a`.
pub open spec fn offset_for(ts: Seq<Triangle>, a: int, margin: int) -> int {
    spec_off(min(0, mesh_min(ts, a)), margin)
}

/// A vertex translated by the given per-axis offsets.
pub open spec fn translate_vertex(v: Vertex, ox: int, oy: int, oz: int) -> Vertex {
    Vertex {
        x: Coord { raw: (v.x.raw + ox) as i64 },
        y: Coord { raw: (v.y.raw + oy) as i64 },
        z: Coord { raw: (v.z.raw + oz) as i64 },
    }
}

/// A triangle whose vertices are translated by the given per-axis offsets;
/// the normal and the attribute are untouched.
pub open spec fn translate_triangle(t: Triangle, ox: int, oy: int, oz: int) -> Triangle {
    Triangle {
        normal: t.normal,
        vertices: [
            translate_vertex(t.vertices[0], ox, oy, oz),
            translate_vertex(t.vertices[1], ox, oy, oz),
            translate_vertex(t.vertices[2], ox, oy, oz),
        ],
        attr_byte_count: t.attr_byte_count,
    }
}

/// What normalization with the given margins does to a triangle sequence:
/// every vertex of every triangle moves by the same per-axis offsets, and
/// only axes whose least coordinate was negative move at all.
pub open spec fn normalize_spec(ts: Seq<Triangle>, mx: int, my: int, mz: int) -> Seq<Triangle> {
    translate_seq(ts, offset_for(ts, 0, mx), offset_for(ts, 1, my), offset_for(ts, 2, mz))
}

/// An ordered collection of triangles, the cached corners of its bounding
/// box, and the triangle count recorded when it was built.
#[derive(Clone, Debug)]
pub struct Mesh {
    pub triangles: Vec<Triangle>,
    pub triangle_count: u32,
    pub minimum: Vertex,
    pub maximum: Vertex,
}

impl Mesh {
    /// The cached extents and count agree with the triangles. Every mesh
    /// this module builds satisfies this, and every mutation here keeps it;
    /// it must be re-established (`find_extents`) after any direct edit of
    /// the triangle data.
    pub open spec fn wf(self) -> bool {
        &&& self.triangle_count == self.triangles@.len() as u32
        &&& self.minimum == extents_min(self.triangles@)
        &&& self.maximum == extents_max(self.triangles@)
    }

    /// The empty mesh.
    pub fn new() -> (r: Mesh)
        ensures
            r.wf(),
            r.triangles@ == Seq::<Triangle>::empty(),
    {
        Mesh {
            triangles: Vec::new(),
            triangle_count: 0u32,
            minimum: Vertex::default(),
            maximum: Vertex::default(),
        }
    }

    /// Recompute the cached bounding-box corners from the triangle data.
    ///
    /// An empty mesh gets the origin for both corners.
    pub fn find_extents(&mut self)
        ensures
            final(self).triangles == old(self).triangles,
            final(self).triangle_count == old(self).triangle_count,
            final(self).minimum == extents_min(old(self).triangles@),
            final(self).maximum == extents_max(old(self).triangles@),
    {
        if self.triangles.len() == 0 {
            self.minimum = Vertex::default();
            self.maximum = Vertex::default();
            return;
        }
        let first = self.triangles[0].vertices[0];
        let mut minv = first;
        let mut maxv = first;
        fold_triangle(&self.triangles[0], &mut minv, &mut maxv);
        let ghost ts = self.triangles@;
        proof {
            assert(ts.take(1).len() == 1);
            assert(ts.take(1)[0] == ts[0]);
        }
        let mut i: usize = 1;
        while i < self.triangles.len()
            invariant
                1 <= i <= ts.len(),
                self.triangles@ == ts,
                ts.len() >= 1,
                minv.x.raw == mesh_min(ts.take(i as int), 0),
                minv.y.raw == mesh_min(ts.take(i as int), 1),
                minv.z.raw == mesh_min(ts.take(i as int), 2),
                maxv.x.raw == mesh_max(ts.take(i as int), 0),
                maxv.y.raw == mesh_max(ts.take(i as int), 1),
                maxv.z.raw == mesh_max(ts.take(i as int), 2),
            decreases ts.len() - i,
        {
            fold_triangle(&self.triangles[i], &mut minv, &mut maxv);
            proof {
                lemma_extents_step(ts, i as int);
            }
            i = i + 1;
        }
        proof {
            assert(ts.take(ts.len() as int) == ts);
        }
        self.minimum = minv;
        self.maximum = maxv;
    }

    /// Translate the mesh into non-negative coordinate space.
    ///
    /// Each axis whose least coordinate is negative is shifted up so that
    /// its new least coordinate is exactly the margin given for that axis;
    /// axes already non-negative are left untouched. The cached extents
    /// are recomputed. Normalizing twice with the same margins changes
    /// nothing the second time.
    pub fn normalize(&mut self, x: Coord, y: Coord, z: Coord)
        requires
            old(self).wf(),
            x.raw >= 0 && y.raw >= 0 && z.raw >= 0,
            mesh_min(old(self).triangles@, 0) < 0 ==> mesh_max(old(self).triangles@, 0) - mesh_min(
                old(self).triangles@,
                0,
            ) + x.raw <= i64::MAX,
            mesh_min(old(self).triangles@, 1) < 0 ==> mesh_max(old(self).triangles@, 1) - mesh_min(
                old(self).triangles@,
                1,
            ) + y.raw <= i64::MAX,
            mesh_min(old(self).triangles@, 2) < 0 ==> mesh_max(old(self).triangles@, 2) - mesh_min(
                old(self).triangles@,
                2,
            ) + z.raw <= i64::MAX,
        ensures
            final(self).wf(),
            final(self).triangles@ == normalize_spec(
                old(self).triangles@,
                x.raw as int,
                y.raw as int,
                z.raw as int,
            ),
            final(self).triangle_count == old(self).triangle_count,
            final(self).minimum.x.raw == if mesh_min(old(self).triangles@, 0) < 0 {
                x.raw as int
            } else {
                mesh_min(old(self).triangles@, 0)
            },
            final(self).minimum.y.raw == if mesh_min(old(self).triangles@, 1) < 0 {
                y.raw as int
            } else {
                mesh_min(old(self).triangles@, 1)
            },
            final(self).minimum.z.raw == if mesh_min(old(self).triangles@, 2) < 0 {
                z.raw as int
            } else {
                mesh_min(old(self).triangles@, 2)
            },
            final(self).maximum.x.raw == mesh_max(old(self).triangles@, 0) + offset_for(
                old(self).triangles@,
                0,
                x.raw as int,
            ),
            final(self).maximum.y.raw == mesh_max(old(self).triangles@, 1) + offset_for(
                old(self).triangles@,
                1,
                y.raw as int,
            ),
            final(self).maximum.z.raw == mesh_max(old(self).triangles@, 2) + offset_for(
                old(self).triangles@,
                2,
                z.raw as int,
            ),
    {
        let ghost ts = self.triangles@;
        let ghost m0 = *self;
        let ghost ox = offset_for(ts, 0, x.raw as int);
        let ghost oy = offset_for(ts, 1, y.raw as int);
        let ghost oz = offset_for(ts, 2, z.raw as int);

        // Least coordinate per axis, seeded at zero: `min(0, mesh_min)`.
        let mut minv = Vertex::default();
        let mut maxv = Vertex::default();
        let mut i: usize = 0;
        while i < self.triangles.len()
            invariant
                0 <= i <= ts.len(),
                *self == m0,
                self.triangles@ == ts,
                minv.x.raw == min(0, mesh_min(ts.take(i as int), 0)),
                minv.y.raw == min(0, mesh_min(ts.take(i as int), 1)),
                minv.z.raw == min(0, mesh_min(ts.take(i as int), 2)),
            decreases ts.len() - i,
        {
            fold_triangle(&self.triangles[i], &mut minv, &mut maxv);
            proof {
                if i >= 1 {
                    lemma_extents_step(ts, i as int);
                } else {
                    assert(ts.take(1).len() == 1 && ts.take(1)[0] == ts[0]);
                }
            }
            i = i + 1;
        }
        proof {
            assert(ts.take(ts.len() as int) == ts);
        }

        if minv.x.raw < 0 || minv.y.raw < 0 || minv.z.raw < 0 {
            let mut newts: Vec<Triangle> = Vec::new();
            let mut i: usize = 0;
            while i < self.triangles.len()
                invariant
                    0 <= i <= ts.len(),
                    *self == m0,
                    self.triangles@ == ts,
                    x.raw >= 0 && y.raw >= 0 && z.raw >= 0,
                    minv.x.raw == min(0, mesh_min(ts, 0)),
                    minv.y.raw == min(0, mesh_min(ts, 1)),
                    minv.z.raw == min(0, mesh_min(ts, 2)),
                    mesh_min(ts, 0) < 0 ==> mesh_max(ts, 0) - mesh_min(ts, 0) + x.raw <= i64::MAX,
                    mesh_min(ts, 1) < 0 ==> mesh_max(ts, 1) - mesh_min(ts, 1) + y.raw <= i64::MAX,
                    mesh_min(ts, 2) < 0 ==> mesh_max(ts, 2) - mesh_min(ts, 2) + z.raw <= i64::MAX,
                    newts@.len() == i,
                    forall|j: int|
                        0 <= j < i ==> newts@[j] == translate_triangle(
                            ts[j],
                            offset_for(ts, 0, x.raw as int),
                            offset_for(ts, 1, y.raw as int),
                            offset_for(ts, 2, z.raw as int),
                        ),
                decreases ts.len() - i,
            {
                proof {
                    lemma_tri_within_extents(ts, 0, i as int);
                    lemma_tri_within_extents(ts, 1, i as int);
                    lemma_tri_within_extents(ts, 2, i as int);
                }
                let nt = translate_triangle_exec(
                    &self.triangles[i],
                    minv.x.raw,
                    minv.y.raw,
                    minv.z.raw,
                    x.raw,
                    y.raw,
                    z.raw,
                );
                newts.push(nt);
                i = i + 1;
            }
            self.triangles = newts;
            proof {
                assert(self.triangles@ =~= normalize_spec(ts, x.raw as int, y.raw as int, z.raw as int));
            }
        } else {
            proof {
                assert forall|j: int| 0 <= j < ts.len() implies normalize_spec(
                    ts,
                    x.raw as int,
                    y.raw as int,
                    z.raw as int,
                )[j] == ts[j] by {
                    assert(translate_triangle(ts[j], 0, 0, 0).vertices =~= ts[j].vertices);
                    assert(translate_triangle(ts[j], 0, 0, 0) == ts[j]);
                }
                assert(normalize_spec(ts, x.raw as int, y.raw as int, z.raw as int) =~= ts);
            }
        }
        self.find_extents();
        proof {
            if ts.len() >= 1 {
                lemma_extents_in_range(ts, 0);
                lemma_extents_in_range(ts, 1);
                lemma_extents_in_range(ts, 2);
                lemma_translate_extents(ts, ox, oy, oz);
            }
        }
    }
}

/// The lines cut from the given triangles by the plane `z == h`, in mesh
/// order: the intersector's result for each triangle that yields one.
pub open spec fn slice_lines(ts: Seq<Triangle>, h: i64) -> Seq<Line>
    decreases ts.len(),
{
    if ts.len() == 0 {
        Seq::empty()
    } else {
        slice_lines(ts.drop_last(), h) + (match intersect_spec(ts.last(), h) {
            Option::Some(l) => seq![l],
            Option::None => Seq::empty(),
        })
    }
}

/// How many slices a full pass produces: one per multiple of the layer
/// height that does not exceed the mesh's top.
pub open spec fn slice_count(maxz: int, lh: int) -> int
    recommends
        lh >= 1,
{
    if maxz < lh {
        0
    } else {
        maxz / lh
    }
}

impl Mesh {
    /// The cross-section of the mesh at one height.
    ///
    /// Only candidate triangles — those with a vertex at or above the
    /// plane and a vertex at or below it — are handed to the intersector;
    /// the rest can yield nothing. The lines of the candidates that do
    /// intersect are collected in mesh order.
    pub fn slice_at(&self, point: Coord) -> (r: Slice)
        ensures
            r.height == point,
            r.lines@ == slice_lines(self.triangles@, point.raw),
    {
        let mut lines: Vec<Line> = Vec::new();
        let ghost ts = self.triangles@;
        let mut i: usize = 0;
        while i < self.triangles.len()
            invariant
                0 <= i <= ts.len(),
                self.triangles@ == ts,
                lines@ == slice_lines(ts.take(i as int), point.raw),
            decreases ts.len() - i,
        {
            let t = &self.triangles[i];
            if (t.vertices[0].z.raw >= point.raw || t.vertices[1].z.raw >= point.raw
                || t.vertices[2].z.raw >= point.raw) && (t.vertices[0].z.raw <= point.raw
                || t.vertices[1].z.raw <= point.raw || t.vertices[2].z.raw <= point.raw) {
                if let Option::Some(l) = t.intersects_z(point) {
                    lines.push(l);
                }
            } else {
                proof {
                    lemma_outside_yields_none(ts[i as int], point.raw);
                }
            }
            proof {
                assert(ts.take(i as int + 1).drop_last() =~= ts.take(i as int));
                assert(ts.take(i as int + 1).last() == ts[i as int]);
            }
            i = i + 1;
        }
        proof {
            assert(ts.take(ts.len() as int) == ts);
        }
        Slice { lines, height: point }
    }

    /// Cross-sections at an explicitly supplied list of heights, one
    /// slice per entry, in the order given.
    pub fn slice_at_heights(&self, heights: &Vec<Coord>) -> (r: Vec<Slice>)
        ensures
            r@.len() == heights@.len(),
            forall|j: int|
                0 <= j < r@.len() ==> (#[trigger] r@[j]).height == heights@[j] && r@[j].lines@
                    == slice_lines(self.triangles@, heights@[j].raw),
    {
        let mut slices: Vec<Slice> = Vec::new();
        let mut i: usize = 0;
        while i < heights.len()
            invariant
                i <= heights@.len(),
                slices@.len() == i,
                forall|j: int|
                    0 <= j < i ==> (#[trigger] slices@[j]).height == heights@[j] && slices@[j].lines@
                        == slice_lines(self.triangles@, heights@[j].raw),
            decreases heights@.len() - i,
        {
            slices.push(self.slice_at(heights[i]));
            i = i + 1;
        }
        slices
    }

    /// Slice the whole mesh bottom-up: cross-sections at every multiple of
    /// the layer height, starting at one layer height and stopping once
    /// the next height would exceed the mesh's top. The result is ordered
    /// by strictly increasing height, one slice per step.
    pub fn slice(&self, layer_height: Coord) -> (r: Vec<Slice>)
        requires
            self.wf(),
            layer_height.raw >= 1,
            mesh_max(self.triangles@, 2) + layer_height.raw <= i64::MAX,
        ensures
            r@.len() == slice_count(mesh_max(self.triangles@, 2), layer_height.raw as int),
            forall|j: int|
                0 <= j < r@.len() ==> (#[trigger] r@[j]).height.raw == (j + 1) * (
                layer_height.raw as int),
            forall|j: int|
                0 <= j < r@.len() ==> (#[trigger] r@[j]).lines@ == slice_lines(
                    self.triangles@,
                    ((j + 1) * (layer_height.raw as int)) as i64,
                ),
    {
        let ghost lh = layer_height.raw as int;
        let ghost maxz = mesh_max(self.triangles@, 2);
        let mut slices: Vec<Slice> = Vec::new();
        let mut height: i64 = layer_height.raw;
        proof {
            vstd::arithmetic::mul::lemma_mul_basics(lh);
        }
        while height <= self.maximum.z.raw
            invariant
                self.wf(),
                layer_height.raw as int == lh,
                lh >= 1,
                mesh_max(self.triangles@, 2) == maxz,
                maxz + lh <= i64::MAX,
                height as int == (slices@.len() + 1) * lh,
                slices@.len() == 0 || slices@.len() * lh <= maxz,
                forall|j: int|
                    0 <= j < slices@.len() ==> (#[trigger] slices@[j]).height.raw == (j + 1) * lh,
                forall|j: int|
                    0 <= j < slices@.len() ==> (#[trigger] slices@[j]).lines@ == slice_lines(
                        self.triangles@,
                        ((j + 1) * lh) as i64,
                    ),
            decreases max(maxz + lh - height, 0),
        {
            let ghost k = slices@.len() as int;
            let s = self.slice_at(Coord { raw: height });
            slices.push(s);
            proof {
                vstd::arithmetic::mul::lemma_mul_basics(lh);
                vstd::arithmetic::mul::lemma_mul_is_distributive_add_other_way(lh, k + 1, 1);
                if self.triangles@.len() > 0 {
                    lemma_extents_in_range(self.triangles@, 2);
                    lemma_min_le_max(self.triangles@, 2);
                }
                assert(self.maximum.z.raw == maxz);
            }
            height = height + layer_height.raw;
        }
        proof {
            let k = slices@.len() as int;
            vstd::arithmetic::mul::lemma_mul_basics(lh);
            if self.triangles@.len() > 0 {
                lemma_extents_in_range(self.triangles@, 2);
                lemma_min_le_max(self.triangles@, 2);
            }
            assert(self.maximum.z.raw == maxz);
            if k == 0 {
                assert(maxz < lh);
                assert(slice_count(maxz, lh) == 0);
            } else {
                assert(k * lh <= maxz);
                assert(maxz < (k + 1) * lh);
                vstd::arithmetic::mul::lemma_mul_is_distributive_add_other_way(lh, k, 1);
                assert(maxz < k * lh + lh);
                vstd::arithmetic::mul::lemma_mul_is_commutative(k, lh);
                vstd::arithmetic::div_mod::lemma_fundamental_div_mod_converse(
                    maxz,
                    lh,
                    k,
                    maxz - k * lh,
                );
                assert(k == maxz / lh);
                vstd::arithmetic::mul::lemma_mul_inequality(1, k, lh);
                assert(maxz >= lh);
                assert(slice_count(maxz, lh) == k);
            }
            assert(slices@.len() as int == slice_count(maxz, lh));
        }
        slices
    }
}

/// Normalization is idempotent: a second pass with the same margins is a
/// no-op, because after the first every axis minimum is non-negative (it
/// is the margin where the axis moved, unchanged and non-negative where
/// it did not), so no axis qualifies for translation again.
pub proof fn lemma_normalize_idempotent(ts: Seq<Triangle>, mx: i64, my: i64, mz: i64)
    requires
        mx >= 0 && my >= 0 && mz >= 0,
        mesh_min(ts, 0) < 0 ==> mesh_max(ts, 0) - mesh_min(ts, 0) + mx <= i64::MAX,
        mesh_min(ts, 1) < 0 ==> mesh_max(ts, 1) - mesh_min(ts, 1) + my <= i64::MAX,
        mesh_min(ts, 2) < 0 ==> mesh_max(ts, 2) - mesh_min(ts, 2) + mz <= i64::MAX,
    ensures
        normalize_spec(normalize_spec(ts, mx as int, my as int, mz as int), mx as int, my as int, mz as int)
            == normalize_spec(ts, mx as int, my as int, mz as int),
{
    let ts1 = normalize_spec(ts, mx as int, my as int, mz as int);
    if ts.len() == 0 {
        assert(normalize_spec(ts1, mx as int, my as int, mz as int) =~= ts1);
    } else {
        lemma_extents_in_range(ts, 0);
        lemma_extents_in_range(ts, 1);
        lemma_extents_in_range(ts, 2);
        lemma_translate_extents(
            ts,
            offset_for(ts, 0, mx as int),
            offset_for(ts, 1, my as int),
            offset_for(ts, 2, mz as int),
        );
        assert(mesh_min(ts1, 0) >= 0 && mesh_min(ts1, 1) >= 0 && mesh_min(ts1, 2) >= 0);
        assert forall|j: int| 0 <= j < ts1.len() implies normalize_spec(
            ts1,
            mx as int,
            my as int,
            mz as int,
        )[j] == ts1[j] by {
            assert(translate_triangle(ts1[j], 0, 0, 0).vertices =~= ts1[j].vertices);
            assert(translate_triangle(ts1[j], 0, 0, 0) == ts1[j]);
        }
        assert(normalize_spec(ts1, mx as int, my as int, mz as int) =~= ts1);
    }
}

/// After normalizing a mesh that reaches below zero on every axis, the
/// minimum corner of the extents is exactly the margins.
pub proof fn lemma_normalize_sets_minimum(ts: Seq<Triangle>, mx: i64, my: i64, mz: i64)
    requires
        ts.len() >= 1,
        mesh_min(ts, 0) < 0 && mesh_min(ts, 1) < 0 && mesh_min(ts, 2) < 0,
        mesh_max(ts, 0) - mesh_min(ts, 0) + mx <= i64::MAX,
        mesh_max(ts, 1) - mesh_min(ts, 1) + my <= i64::MAX,
        mesh_max(ts, 2) - mesh_min(ts, 2) + mz <= i64::MAX,
    ensures
        extents_min(normalize_spec(ts, mx as int, my as int, mz as int)) == (Vertex {
            x: Coord { raw: mx },
            y: Coord { raw: my },
            z: Coord { raw: mz },
        }),
{
    lemma_extents_in_range(ts, 0);
    lemma_extents_in_range(ts, 1);
    lemma_extents_in_range(ts, 2);
    lemma_translate_extents(
        ts,
        offset_for(ts, 0, mx as int),
        offset_for(ts, 1, my as int),
        offset_for(ts, 2, mz as int),
    );
}

impl Default for Mesh {
    /// The empty mesh.
    fn default() -> (r: Mesh)
        ensures
            r.wf(),
            r.triangles@ == Seq::<Triangle>::empty(),
    {
        Mesh::new()
    }
}

impl From<Vec<Triangle>> for Mesh {
    /// A mesh owning the given triangles, extents derived on construction.
    fn from(input: Vec<Triangle>) -> (r: Mesh) {
        let mut m = Mesh {
            triangles: input,
            triangle_count: 0u32,
            minimum: Vertex::default(),
            maximum: Vertex::default(),
        };
        m.triangle_count = #[verifier::truncate] (m.triangles.len() as u32);
        m.find_extents();
        m
    }
}

impl vstd::std_specs::convert::FromSpecImpl<Vec<Triangle>> for Mesh {
    open spec fn obeys_from_spec() -> bool {
        true
    }

    open spec fn from_spec(input: Vec<Triangle>) -> Mesh {
        Mesh {
            triangles: input,
            triangle_count: input@.len() as u32,
            minimum: extents_min(input@),
            maximum: extents_max(input@),
        }
    }
}

/// One vertex translated by the normalization offsets, computed without
/// materializing the offsets themselves (which need not fit in an `i64`
/// as standalone values).
fn translate_vertex_exec(v: &Vertex, minx0: i64, miny0: i64, minz0: i64, mx: i64, my: i64, mz: i64) -> (r:
    Vertex)
    requires
        mx >= 0 && my >= 0 && mz >= 0,
        minx0 <= 0 && miny0 <= 0 && minz0 <= 0,
        minx0 < 0 ==> minx0 <= v.x.raw && v.x.raw - minx0 + mx <= i64::MAX,
        miny0 < 0 ==> miny0 <= v.y.raw && v.y.raw - miny0 + my <= i64::MAX,
        minz0 < 0 ==> minz0 <= v.z.raw && v.z.raw - minz0 + mz <= i64::MAX,
    ensures
        r == translate_vertex(
            *v,
            spec_off(minx0 as int, mx as int),
            spec_off(miny0 as int, my as int),
            spec_off(minz0 as int, mz as int),
        ),
{
    let nx: i64 = if minx0 < 0 {
        v.x.raw - minx0 + mx
    } else {
        v.x.raw
    };
    let ny: i64 = if miny0 < 0 {
        v.y.raw - miny0 + my
    } else {
        v.y.raw
    };
    let nz: i64 = if minz0 < 0 {
        v.z.raw - minz0 + mz
    } else {
        v.z.raw
    };
    Vertex { x: Coord { raw: nx }, y: Coord { raw: ny }, z: Coord { raw: nz } }
}

/// One triangle translated by the normalization offsets.
fn translate_triangle_exec(t: &Triangle, minx0: i64, miny0: i64, minz0: i64, mx: i64, my: i64, mz: i64) -> (r:
    Triangle)
    requires
        mx >= 0 && my >= 0 && mz >= 0,
        minx0 <= 0 && miny0 <= 0 && minz0 <= 0,
        minx0 < 0 ==> minx0 <= tri_min(*t, 0) && tri_max(*t, 0) - minx0 + mx <= i64::MAX,
        miny0 < 0 ==> miny0 <= tri_min(*t, 1) && tri_max(*t, 1) - miny0 + my <= i64::MAX,
        minz0 < 0 ==> minz0 <= tri_min(*t, 2) && tri_max(*t, 2) - minz0 + mz <= i64::MAX,
    ensures
        r == translate_triangle(
            *t,
            spec_off(minx0 as int, mx as int),
            spec_off(miny0 as int, my as int),
            spec_off(minz0 as int, mz as int),
        ),
{
    let v0 = translate_vertex_exec(&t.vertices[0], minx0, miny0, minz0, mx, my, mz);
    let v1 = translate_vertex_exec(&t.vertices[1], minx0, miny0, minz0, mx, my, mz);
    let v2 = translate_vertex_exec(&t.vertices[2], minx0, miny0, minz0, mx, my, mz);
    Triangle { normal: t.normal, vertices: [v0, v1, v2], attr_byte_count: t.attr_byte_count }
}

/// Widen a running bounding box to cover one more vertex.
fn fold_vertex(v: &Vertex, minv: &mut Vertex, maxv: &mut Vertex)
    ensures
        final(minv).x.raw == min(old(minv).x.raw as int, v.x.raw as int),
        final(minv).y.raw == min(old(minv).y.raw as int, v.y.raw as int),
        final(minv).z.raw == min(old(minv).z.raw as int, v.z.raw as int),
        final(maxv).x.raw == max(old(maxv).x.raw as int, v.x.raw as int),
        final(maxv).y.raw == max(old(maxv).y.raw as int, v.y.raw as int),
        final(maxv).z.raw == max(old(maxv).z.raw as int, v.z.raw as int),
{
    if v.x.raw < minv.x.raw {
        minv.x = v.x;
    }
    if v.y.raw < minv.y.raw {
        minv.y = v.y;
    }
    if v.z.raw < minv.z.raw {
        minv.z = v.z;
    }
    if v.x.raw > maxv.x.raw {
        maxv.x = v.x;
    }
    if v.y.raw > maxv.y.raw {
        maxv.y = v.y;
    }
    if v.z.raw > maxv.z.raw {
        maxv.z = v.z;
    }
}

/// Widen a running bounding box to cover one more triangle.
fn fold_triangle(t: &Triangle, minv: &mut Vertex, maxv: &mut Vertex)
    ensures
        final(minv).x.raw == min(old(minv).x.raw as int, tri_min(*t, 0)),
        final(minv).y.raw == min(old(minv).y.raw as int, tri_min(*t, 1)),
        final(minv).z.raw == min(old(minv).z.raw as int, tri_min(*t, 2)),
        final(maxv).x.raw == max(old(maxv).x.raw as int, tri_max(*t, 0)),
        final(maxv).y.raw == max(old(maxv).y.raw as int, tri_max(*t, 1)),
        final(maxv).z.raw == max(old(maxv).z.raw as int, tri_max(*t, 2)),
{
    fold_vertex(&t.vertices[0], minv, maxv);
    fold_vertex(&t.vertices[1], minv, maxv);
    fold_vertex(&t.vertices[2], minv, maxv);
}

/// Each triangle's own bounds lie within the mesh bounds.
proof fn lemma_tri_within_extents(ts: Seq<Triangle>, a: int, i: int)
    requires
        0 <= i < ts.len(),
    ensures
        mesh_min(ts, a) <= tri_min(ts[i], a),
        tri_max(ts[i], a) <= mesh_max(ts, a),
    decreases ts.len(),
{
    if ts.len() > 1 && i < ts.len() - 1 {
        lemma_tri_within_extents(ts.drop_last(), a, i);
        assert(ts.drop_last()[i] == ts[i]);
    }
}

/// Mesh extents are coordinates of actual vertices, hence representable.
proof fn lemma_extents_in_range(ts: Seq<Triangle>, a: int)
    requires
        ts.len() >= 1,
    ensures
        i64::MIN <= mesh_min(ts, a),
        mesh_max(ts, a) <= i64::MAX,
    decreases ts.len(),
{
    if ts.len() > 1 {
        lemma_extents_in_range(ts.drop_last(), a);
    }
}

/// A mesh's least bound never exceeds its greatest bound.
proof fn lemma_min_le_max(ts: Seq<Triangle>, a: int)
    requires
        ts.len() >= 1,
    ensures
        mesh_min(ts, a) <= mesh_max(ts, a),
    decreases ts.len(),
{
    if ts.len() > 1 {
        lemma_min_le_max(ts.drop_last(), a);
    }
}

/// Translating a triangle shifts its per-axis bounds by the offsets,
/// provided the shifted coordinates stay representable.
proof fn lemma_translate_tri_bounds(t: Triangle, ox: int, oy: int, oz: int)
    requires
        i64::MIN <= tri_min(t, 0) + ox,
        tri_max(t, 0) + ox <= i64::MAX,
        i64::MIN <= tri_min(t, 1) + oy,
        tri_max(t, 1) + oy <= i64::MAX,
        i64::MIN <= tri_min(t, 2) + oz,
        tri_max(t, 2) + oz <= i64::MAX,
    ensures
        tri_min(translate_triangle(t, ox, oy, oz), 0) == tri_min(t, 0) + ox,
        tri_min(translate_triangle(t, ox, oy, oz), 1) == tri_min(t, 1) + oy,
        tri_min(translate_triangle(t, ox, oy, oz), 2) == tri_min(t, 2) + oz,
        tri_max(translate_triangle(t, ox, oy, oz), 0) == tri_max(t, 0) + ox,
        tri_max(translate_triangle(t, ox, oy, oz), 1) == tri_max(t, 1) + oy,
        tri_max(translate_triangle(t, ox, oy, oz), 2) == tri_max(t, 2) + oz,
{
}

/// The sequence of triangles, each translated by the same offsets.
pub open spec fn translate_seq(ts: Seq<Triangle>, ox: int, oy: int, oz: int) -> Seq<Triangle> {
    Seq::new(ts.len(), |i: int| translate_triangle(ts[i], ox, oy, oz))
}

/// Translating every triangle shifts the mesh extents by the offsets,
/// provided the shifted coordinates stay representable.
proof fn lemma_translate_extents(ts: Seq<Triangle>, ox: int, oy: int, oz: int)
    requires
        ts.len() >= 1,
        i64::MIN <= mesh_min(ts, 0) + ox,
        mesh_max(ts, 0) + ox <= i64::MAX,
        i64::MIN <= mesh_min(ts, 1) + oy,
        mesh_max(ts, 1) + oy <= i64::MAX,
        i64::MIN <= mesh_min(ts, 2) + oz,
        mesh_max(ts, 2) + oz <= i64::MAX,
    ensures
        mesh_min(translate_seq(ts, ox, oy, oz), 0) == mesh_min(ts, 0) + ox,
        mesh_min(translate_seq(ts, ox, oy, oz), 1) == mesh_min(ts, 1) + oy,
        mesh_min(translate_seq(ts, ox, oy, oz), 2) == mesh_min(ts, 2) + oz,
        mesh_max(translate_seq(ts, ox, oy, oz), 0) == mesh_max(ts, 0) + ox,
        mesh_max(translate_seq(ts, ox, oy, oz), 1) == mesh_max(ts, 1) + oy,
        mesh_max(translate_seq(ts, ox, oy, oz), 2) == mesh_max(ts, 2) + oz,
    decreases ts.len(),
{
    let tvs = translate_seq(ts, ox, oy, oz);
    if ts.len() == 1 {
        lemma_translate_tri_bounds(ts[0], ox, oy, oz);
        assert(tvs.len() == 1 && tvs[0] == translate_triangle(ts[0], ox, oy, oz));
    } else {
        lemma_tri_within_extents(ts, 0, ts.len() - 1);
        lemma_tri_within_extents(ts, 1, ts.len() - 1);
        lemma_tri_within_extents(ts, 2, ts.len() - 1);
        lemma_translate_tri_bounds(ts.last(), ox, oy, oz);
        lemma_translate_extents(ts.drop_last(), ox, oy, oz);
        assert(tvs.drop_last() =~= translate_seq(ts.drop_last(), ox, oy, oz));
        assert(tvs.last() == translate_triangle(ts.last(), ox, oy, oz));
    }
}

/// One step of the extents fold: extending the prefix by one triangle
/// widens each bound by that triangle's own bound.
proof fn lemma_extents_step(ts: Seq<Triangle>, i: int)
    requires
        1 <= i < ts.len(),
    ensures
        forall|a: int|
            #![auto]
            mesh_min(ts.take(i + 1), a) == min(mesh_min(ts.take(i), a), tri_min(ts[i], a)),
        forall|a: int|
            #![auto]
            mesh_max(ts.take(i + 1), a) == max(mesh_max(ts.take(i), a), tri_max(ts[i], a)),
{
    assert(ts.take(i + 1).drop_last() == ts.take(i));
    assert(ts.take(i + 1).last() == ts[i]);
    assert(ts.take(i + 1).len() == i + 1 >= 2);
}

} // verus!
