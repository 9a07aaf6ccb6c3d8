//! Exact 2D geometric primitives for spatial indexing and
//! Delaunay-style triangulation: directed edges, triangles and circles,
//! with signed side-of-line classification, projection, nearest-point
//! and squared-distance queries.
//!
//! Coordinates are exact rational numbers, so every predicate and every
//! distance is computed without rounding; the price is that each
//! operation states, as a precondition, the coordinate magnitudes under
//! which its fixed-width integer arithmetic cannot overflow.

pub mod bounding_rect;
pub mod circle;
pub mod edge;
pub mod kernel;
pub mod point;
pub mod side_info;
pub mod triangle;
pub mod rational;

pub use bounding_rect::BoundingRect;
pub use circle::SimpleCircle;
pub use edge::SimpleEdge;
pub use kernel::{DelaunayKernel, TrivialKernel};
pub use point::Point2;
pub use side_info::EdgeSideInfo;
pub use triangle::SimpleTriangle;
pub use rational::Rat;
