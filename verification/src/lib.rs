//! Grid-based vertex clustering and cluster simplification.
//!
//! The library partitions a planar point set into uniform square bins
//! (`GridIndex`), derives one `Cluster` per non-empty bin, and reduces each
//! cluster to a single representative point by a weighted-centroid rule
//! (`simplify`). A `ClusterSession` caches the last index so that repeated
//! clustering requests with an unchanged bin size reuse it.
//!
//! All geometry is exact: input coordinates are dyadic fixed-point numbers
//! (`Dyadic`, the value domain of binary floating-point data), and derived
//! points are exact fractions (`Ratio`). No floating-point arithmetic occurs
//! anywhere in the library.

use vstd::prelude::*;

pub mod cluster;
pub mod error;
pub mod grid;
pub mod ids;
pub mod num;
pub mod point;
pub mod session;
pub mod simplify;

verus! {

/// Dimensionality selector for mesh generation requests: planar
/// triangulation or spatial tetrahedralization.
#[derive(Clone, Copy, Debug, PartialEq, Eq, Structural)]
pub enum Dimension {
    Two,
    Three,
}

} // verus!
