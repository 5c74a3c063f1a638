//! A spatial index for ray/mesh collision queries: a recursive octree of
//! axis-aligned bounding boxes over a triangle buffer, together with a query
//! engine that walks the tree and resolves exact ray/triangle intersection
//! points.
//!
//! All geometry is exact: points live on a bounded integer grid and the
//! intersection parameters are rationals, so every predicate here is computed
//! and verified without rounding.

pub mod arith;
pub mod bbox;
pub mod classify;
pub mod math;
pub mod query;
pub mod tree;
