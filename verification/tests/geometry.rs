use stl_slicer::coord::{Coord, COORD_SCALE};
use stl_slicer::geometry::line::Line;
use stl_slicer::geometry::mesh::Mesh;
use stl_slicer::geometry::slice::Slice;
use stl_slicer::geometry::triangle::Triangle;
use stl_slicer::geometry::vertex::Vertex;

fn c(units: i64) -> Coord {
    Coord::from_units(units)
}

fn ch(half_units: i64) -> Coord {
    // `half_units` counts halves of a unit.
    Coord::from_raw(half_units * (COORD_SCALE / 2))
}

fn v(x: Coord, y: Coord, z: Coord) -> Vertex {
    Vertex::new(x, y, z)
}

fn tri(a: Vertex, b: Vertex, e: Vertex) -> Triangle {
    Triangle {
        normal: Vertex::default(),
        vertices: [a, b, e],
        attr_byte_count: 0,
    }
}

#[test]
fn intersect_returns_none_strictly_above() {
    let t = tri(
        v(c(0), c(0), c(1)),
        v(c(1), c(0), c(2)),
        v(c(0), c(1), c(3)),
    );
    assert!(t.intersects_z(ch(1)).is_none());
}

#[test]
fn intersect_returns_none_strictly_below() {
    let t = tri(
        v(c(0), c(0), c(1)),
        v(c(1), c(0), c(2)),
        v(c(0), c(1), c(3)),
    );
    assert!(t.intersects_z(c(10)).is_none());
}

#[test]
fn intersect_mid_triangle_lies_at_height() {
    // Vertices at Z = 0, 1, 2; the cut at 1 stays at Z = 1.
    let t = tri(
        v(c(0), c(0), c(0)),
        v(c(2), c(0), c(1)),
        v(c(0), c(2), c(2)),
    );
    let line = t.intersects_z(c(1)).unwrap();
    assert_eq!(line.v1.z, c(1));
    assert_eq!(line.v2.z, c(1));
}

#[test]
fn intersect_unit_triangle_at_half_height() {
    // The cut at 0.5 meets edge (0,0,0)->(0,1,1) at (0, 0.5, 0.5) and
    // edge (1,0,0)->(0,1,1) at (0.5, 0.5, 0.5).
    let t = tri(
        v(c(0), c(0), c(0)),
        v(c(1), c(0), c(0)),
        v(c(0), c(1), c(1)),
    );
    let line = t.intersects_z(ch(1)).unwrap();
    assert_eq!(line.v1, v(ch(1), ch(1), ch(1)));
    assert_eq!(line.v2, v(c(0), ch(1), ch(1)));
}

#[test]
fn intersect_coplanar_triangle_returns_none() {
    let t = tri(
        v(c(0), c(0), c(1)),
        v(c(1), c(0), c(1)),
        v(c(0), c(1), c(1)),
    );
    assert!(t.intersects_z(c(1)).is_none());
}

#[test]
fn intersect_top_edge_in_plane_yields_that_edge() {
    // Two vertices share the cutting height exactly: the cut is the
    // edge between them, not a division by zero.
    let t = tri(
        v(c(0), c(0), c(0)),
        v(c(1), c(0), c(1)),
        v(c(2), c(3), c(1)),
    );
    let line = t.intersects_z(c(1)).unwrap();
    assert_eq!(line.v1, v(c(1), c(0), c(1)));
    assert_eq!(line.v2, v(c(2), c(3), c(1)));
}

#[test]
fn extents_of_empty_mesh_are_origin() {
    let mut m = Mesh::new();
    m.find_extents();
    assert_eq!(m.minimum, Vertex::default());
    assert_eq!(m.maximum, Vertex::default());
    assert_eq!(m.triangle_count, 0);
}

#[test]
fn extents_cover_all_vertices_per_axis() {
    let m = Mesh::from(vec![
        tri(
            v(c(-1), c(5), c(0)),
            v(c(2), c(-3), c(1)),
            v(c(0), c(0), c(7)),
        ),
        tri(
            v(c(4), c(0), c(-2)),
            v(c(0), c(6), c(0)),
            v(c(1), c(1), c(1)),
        ),
    ]);
    assert_eq!(m.minimum, v(c(-1), c(-3), c(-2)));
    assert_eq!(m.maximum, v(c(4), c(6), c(7)));
    assert_eq!(m.triangle_count, 2);
}

#[test]
fn normalize_sets_minimum_to_margins() {
    // Negative on every axis: the new minimum corner is the margins.
    let mut m = Mesh::from(vec![tri(
        v(c(-1), c(-2), c(-3)),
        v(c(1), c(1), c(1)),
        v(c(0), c(0), c(0)),
    )]);
    m.normalize(c(1), c(1), c(0));
    assert_eq!(m.minimum, v(c(1), c(1), c(0)));
    assert_eq!(m.maximum, v(c(3), c(4), c(4)));
}

#[test]
fn normalize_leaves_non_negative_axes_untouched() {
    let mut m = Mesh::from(vec![tri(
        v(c(2), c(-1), c(0)),
        v(c(3), c(1), c(1)),
        v(c(4), c(0), c(2)),
    )]);
    m.normalize(c(1), c(1), c(1));
    // X never moves (already non-negative), Y moves by |-1| + 1.
    assert_eq!(m.minimum, v(c(2), c(1), c(0)));
    assert_eq!(m.triangles[0].vertices[0], v(c(2), c(1), c(0)));
}

#[test]
fn normalize_is_idempotent() {
    let mut once = Mesh::from(vec![tri(
        v(c(-5), c(-1), c(-2)),
        v(c(1), c(2), c(3)),
        v(c(0), c(0), c(0)),
    )]);
    once.normalize(c(1), c(2), c(3));
    let mut twice = once.clone();
    twice.normalize(c(1), c(2), c(3));
    assert_eq!(once.triangles, twice.triangles);
    assert_eq!(once.minimum, twice.minimum);
    assert_eq!(once.maximum, twice.maximum);
}

#[test]
fn normalize_does_not_move_normals() {
    let mut m = Mesh::from(vec![Triangle {
        normal: v(c(0), c(0), c(1)),
        vertices: [
            v(c(-1), c(-1), c(-1)),
            v(c(0), c(0), c(0)),
            v(c(1), c(1), c(1)),
        ],
        attr_byte_count: 7,
    }]);
    m.normalize(c(0), c(0), c(0));
    assert_eq!(m.triangles[0].normal, v(c(0), c(0), c(1)));
    assert_eq!(m.triangles[0].attr_byte_count, 7);
}

/// The twelve facets of the axis-aligned cube `[0, s]^3`.
fn cube(s: i64) -> Vec<Triangle> {
    let p = |x: i64, y: i64, z: i64| v(c(x), c(y), c(z));
    let mut ts = Vec::new();
    // bottom (z = 0) and top (z = s)
    ts.push(tri(p(0, 0, 0), p(s, 0, 0), p(s, s, 0)));
    ts.push(tri(p(0, 0, 0), p(s, s, 0), p(0, s, 0)));
    ts.push(tri(p(0, 0, s), p(s, 0, s), p(s, s, s)));
    ts.push(tri(p(0, 0, s), p(s, s, s), p(0, s, s)));
    // front (y = 0) and back (y = s)
    ts.push(tri(p(0, 0, 0), p(s, 0, 0), p(s, 0, s)));
    ts.push(tri(p(0, 0, 0), p(s, 0, s), p(0, 0, s)));
    ts.push(tri(p(0, s, 0), p(s, s, 0), p(s, s, s)));
    ts.push(tri(p(0, s, 0), p(s, s, s), p(0, s, s)));
    // left (x = 0) and right (x = s)
    ts.push(tri(p(0, 0, 0), p(0, s, 0), p(0, s, s)));
    ts.push(tri(p(0, 0, 0), p(0, s, s), p(0, 0, s)));
    ts.push(tri(p(s, 0, 0), p(s, s, 0), p(s, s, s)));
    ts.push(tri(p(s, 0, 0), p(s, s, s), p(s, 0, s)));
    ts
}

#[test]
fn slice_cube_yields_two_ascending_layers() {
    // A cube with Z extent [0, 2], layer height 1.0: exactly two
    // slices, at heights 1.0 and 2.0, in that order.
    let m = Mesh::from(cube(2));
    let slices = m.slice(c(1));
    assert_eq!(slices.len(), 2);
    assert_eq!(slices[0].height, c(1));
    assert_eq!(slices[1].height, c(2));
    assert!(!slices[0].lines.is_empty());
}

#[test]
fn slice_mid_cube_cuts_every_side_facet() {
    let m = Mesh::from(cube(2));
    let s = m.slice_at(c(1));
    assert_eq!(s.height, c(1));
    // The eight side facets each contribute one segment at Z = 1.
    assert_eq!(s.lines.len(), 8);
    for line in &s.lines {
        assert_eq!(line.v1.z, c(1));
        assert_eq!(line.v2.z, c(1));
    }
}

#[test]
fn slice_of_empty_mesh_is_empty() {
    let m = Mesh::new();
    let s = m.slice_at(c(1));
    assert_eq!(s.height, c(1));
    assert!(s.lines.is_empty());
    assert!(m.slice(c(1)).is_empty());
}

#[test]
fn slice_at_explicit_heights_keeps_order() {
    let m = Mesh::from(cube(2));
    let heights = vec![ch(3), ch(1)];
    let slices = m.slice_at_heights(&heights);
    assert_eq!(slices.len(), 2);
    assert_eq!(slices[0].height, ch(3));
    assert_eq!(slices[1].height, ch(1));
    assert_eq!(slices[0].lines.len(), 8);
}

#[test]
fn slice_step_larger_than_mesh_yields_nothing() {
    let m = Mesh::from(cube(2));
    let slices = m.slice(c(3));
    assert!(slices.is_empty());
}

#[test]
fn line_from_pair_keeps_order() {
    let a = v(c(1), c(2), c(3));
    let b = v(c(4), c(5), c(6));
    let line = Line::from((a, b));
    assert_eq!(line.v1, a);
    assert_eq!(line.v2, b);
}

#[test]
fn default_values_are_at_the_origin() {
    assert_eq!(Vertex::default(), v(c(0), c(0), c(0)));
    let line = Line::default();
    assert_eq!(line.v1, Vertex::default());
    let t = Triangle::default();
    assert_eq!(t.vertices[2], Vertex::default());
    assert_eq!(t.attr_byte_count, 0);
    let s = Slice::default();
    assert!(s.lines.is_empty());
    assert_eq!(s.height, Coord::from_raw(0));
    let m = Mesh::default();
    assert_eq!(m.triangle_count, 0);
}

#[test]
fn coord_constructors_agree() {
    assert_eq!(Coord::from_units(3).raw, 3 * COORD_SCALE);
    assert_eq!(Coord::from_raw(12345).raw, 12345);
    assert_eq!(Coord::zero().raw, 0);
    assert_eq!(Coord::from_units(-2).raw, -2 * COORD_SCALE);
}
