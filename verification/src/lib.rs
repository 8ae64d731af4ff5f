//! A verified core for slicing triangulated solid models into horizontal
//! cross-sections, the geometric groundwork of additive-manufacturing
//! toolpath planning.
//!
//! Coordinates are dyadic rationals on a fixed grid (an `i64` count of
//! 1/65536 units), a totally ordered numeric domain that admits exact
//! minima, maxima, translation and plane intersection. The binary mesh
//! decoder maps each finite, in-range IEEE 754 binary32 wire value onto
//! that grid — exactly where the value lies on the grid, to the nearest
//! grid point otherwise — and rejects NaNs outright.

pub mod binary32;
pub mod coord;
pub mod geometry;
pub mod stl;
