//! Integer geometry used by the polygon triangulation and overlay code.

pub mod arith;
pub mod point;
pub mod fix_vec;
pub mod rect;
pub mod triangle;
pub mod u128;
pub mod earcut;
pub mod flat_buffer;
pub mod delaunay;
pub mod graph;
