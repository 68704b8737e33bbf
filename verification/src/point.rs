//! Point types: exact input points and exact derived points.

use crate::num::{Dyadic, Ratio};
use vstd::prelude::*;

verus! {

/// A planar point with dyadic coordinates. Clustering operates on this type,
/// the projection of spatial input onto the horizontal plane.
#[derive(Clone, Copy, Debug, PartialEq, Eq, Structural)]
pub struct Point2 {
    pub x: Dyadic,
    pub y: Dyadic,
}

/// A spatial input point with dyadic coordinates.
#[derive(Clone, Copy, Debug, PartialEq, Eq, Structural)]
pub struct Point3 {
    pub x: Dyadic,
    pub y: Dyadic,
    pub z: Dyadic,
}

/// A planar point together with its weight. Weights refine the centroid
/// rule; unweighted data carries weight one.
#[derive(Clone, Copy, Debug, PartialEq, Eq, Structural)]
pub struct WeightedPoint2 {
    pub p: Point2,
    pub w: u32,
}

/// A planar point with exact fraction coordinates: the representative point
/// a cluster reduces to.
#[derive(Clone, Copy, Debug, PartialEq, Eq, Structural)]
pub struct RatioPoint2 {
    pub x: Ratio,
    pub y: Ratio,
}

impl RatioPoint2 {
    /// Both components are well-formed fractions.
    pub open spec fn wf(self) -> bool {
        self.x.wf() && self.y.wf()
    }
}

/// A spatial point with exact fraction coordinates: a cell corner or a
/// representative point. The vertical component of derived geometry is
/// always zero.
#[derive(Clone, Copy, Debug, PartialEq, Eq, Structural)]
pub struct RatioPoint3 {
    pub x: Ratio,
    pub y: Ratio,
    pub z: Ratio,
}

impl Point2 {
    /// Both coordinates are well-formed dyadic values.
    pub open spec fn wf(self) -> bool {
        self.x.wf() && self.y.wf()
    }
}

impl Point3 {
    /// All coordinates are well-formed dyadic values.
    pub open spec fn wf(self) -> bool {
        self.x.wf() && self.y.wf() && self.z.wf()
    }

    /// The projection onto the horizontal plane: the elevation component is
    /// dropped, and clustering proceeds on `(x, z)`.
    pub open spec fn spec_project(self) -> Point2 {
        Point2 { x: self.x, y: self.z }
    }

    /// Drops the elevation component.
    pub fn project(&self) -> (r: Point2)
        ensures
            r == self.spec_project(),
    {
        Point2 { x: self.x, y: self.z }
    }
}

impl Point2 {
    /// Re-embedding into space: the planar `y` axis returns to the spatial
    /// `z` axis, and the elevation is zero.
    pub open spec fn spec_embed(self) -> Point3 {
        Point3 { x: self.x, y: (Dyadic { num: 0i64, exp: 0u32 }), z: self.y }
    }

    /// Re-embeds the planar point into space with zero elevation.
    pub fn embed(&self) -> (r: Point3)
        ensures
            r == self.spec_embed(),
    {
        Point3 { x: self.x, y: Dyadic::zero(), z: self.y }
    }
}

impl WeightedPoint2 {
    /// A well-formed planar point with a strictly positive weight.
    pub open spec fn wf(self) -> bool {
        self.p.wf() && self.w >= 1
    }
}

impl RatioPoint3 {
    /// All components are well-formed fractions.
    pub open spec fn wf(self) -> bool {
        self.x.wf() && self.y.wf() && self.z.wf()
    }
}

} // verus!
