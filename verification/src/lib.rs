//! A Whitted-style ray tracer over fixed-point arithmetic.
//!
//! Scalars are `i64` numbers of 1/65536 units. The geometry kernel, the
//! primitive intersection tests, the scene query, the recursive shading
//! algorithm and the image driver are all verified against exact
//! integer-arithmetic specifications.

pub mod fixed;
pub mod geometry;
pub mod laws;
pub mod primitives;
pub mod render;
pub mod scene;
