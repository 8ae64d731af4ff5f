//! Model-space geometry: points, cross-section segments, triangles,
//! meshes and slices.

pub mod line;
pub mod mesh;
pub mod slice;
pub mod triangle;
pub mod vertex;
