//! A format-independent library of triangular meshes.
//!
//! A mesh is a list of vertices and a list of indices into it, read three at
//! a time as triangles. Meshes come from a format adapter (see [`load`]), from
//! a procedural builder (see [`build`]), or from a plain sequence of triangles,
//! in which case equal vertices are merged.

pub mod errors;
pub mod geometry;
pub mod index;
pub mod model;
pub mod load;
pub mod build;

pub use errors::{Error, ErrorKind};
pub use geometry::{Color, Triangle, Vector, Vertex};
pub use index::Index;
pub use model::{BuildModel, Model, TriangularMesh, Triangles};
