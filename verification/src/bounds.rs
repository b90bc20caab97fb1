//! Points and axis-aligned boxes, by the order of their coordinates.

use vstd::prelude::*;
use crate::span::{Dist, nearer, farther};

verus! {

/// One of the three coordinate axes.
#[derive(Clone, Copy, Debug, PartialEq, Eq, Structural)]
pub enum Axis {
    X,
    Y,
    Z,
}

/// A point, each coordinate held by its place in the order of coordinates.
#[derive(Clone, Copy, Debug, PartialEq, Eq, Hash, Structural)]
pub struct Point3 {
    pub x: Dist,
    pub y: Dist,
    pub z: Dist,
}

impl Point3 {
    /// The coordinate along `axis`.
    pub open spec fn coord(self, axis: Axis) -> Dist {
        match axis {
            Axis::X => self.x,
            Axis::Y => self.y,
            Axis::Z => self.z,
        }
    }

    /// The same point with its coordinate along `axis` replaced by `value`.
    pub open spec fn with_coord(self, axis: Axis, value: Dist) -> Point3 {
        match axis {
            Axis::X => Point3 { x: value, y: self.y, z: self.z },
            Axis::Y => Point3 { x: self.x, y: value, z: self.z },
            Axis::Z => Point3 { x: self.x, y: self.y, z: value },
        }
    }

    pub fn new(x: Dist, y: Dist, z: Dist) -> (p: Point3)
        ensures
            p == (Point3 { x, y, z }),
    {
        Point3 { x, y, z }
    }

    /// Reads the coordinate along `axis`.
    pub fn along(&self, axis: Axis) -> (value: Dist)
        ensures
            value == self.coord(axis),
    {
        match axis {
            Axis::X => self.x,
            Axis::Y => self.y,
            Axis::Z => self.z,
        }
    }

    /// Replaces the coordinate along `axis`.
    pub fn moved_to(&self, axis: Axis, value: Dist) -> (p: Point3)
        ensures
            p == self.with_coord(axis, value),
    {
        match axis {
            Axis::X => Point3 { x: value, y: self.y, z: self.z },
            Axis::Y => Point3 { x: self.x, y: value, z: self.z },
            Axis::Z => Point3 { x: self.x, y: self.y, z: value },
        }
    }
}

/// An axis-aligned box given by its two extreme corners.
#[derive(Clone, Copy, Debug, PartialEq, Eq, Hash, Structural)]
pub struct Box3 {
    pub min: Point3,
    pub max: Point3,
}

impl Box3 {
    /// A box whose least corner is nowhere beyond its greatest corner.
    pub open spec fn ordered(self) -> bool {
        &&& self.min.x <= self.max.x
        &&& self.min.y <= self.max.y
        &&& self.min.z <= self.max.z
    }

    /// Whether `p` lies in the box, faces included.
    pub open spec fn holds(self, p: Point3) -> bool {
        &&& self.min.x <= p.x <= self.max.x
        &&& self.min.y <= p.y <= self.max.y
        &&& self.min.z <= p.z <= self.max.z
    }

    /// Whether `other` lies in the box as a whole.
    pub open spec fn wraps(self, other: Box3) -> bool {
        &&& self.min.x <= other.min.x && other.max.x <= self.max.x
        &&& self.min.y <= other.min.y && other.max.y <= self.max.y
        &&& self.min.z <= other.min.z && other.max.z <= self.max.z
    }

    /// The smallest box around both boxes.
    pub open spec fn hull(self, other: Box3) -> Box3 {
        Box3 {
            min: Point3 {
                x: nearer(self.min.x, other.min.x),
                y: nearer(self.min.y, other.min.y),
                z: nearer(self.min.z, other.min.z),
            },
            max: Point3 {
                x: farther(self.max.x, other.max.x),
                y: farther(self.max.y, other.max.y),
                z: farther(self.max.z, other.max.z),
            },
        }
    }

    /// The part of the box below a cut across `axis`.
    pub open spec fn below(self, axis: Axis, cut: Dist) -> Box3 {
        Box3 { min: self.min, max: self.max.with_coord(axis, cut) }
    }

    /// The part of the box above a cut across `axis`.
    pub open spec fn above(self, axis: Axis, cut: Dist) -> Box3 {
        Box3 { min: self.min.with_coord(axis, cut), max: self.max }
    }

    pub fn new(min: Point3, max: Point3) -> (b: Box3)
        ensures
            b == (Box3 { min, max }),
    {
        Box3 { min, max }
    }

    /// Tests a point against the box. A point on a face is inside.
    pub fn contains(&self, p: &Point3) -> (inside: bool)
        ensures
            inside == self.holds(*p),
    {
        !(p.x < self.min.x || p.x > self.max.x || p.y < self.min.y || p.y > self.max.y || p.z
            < self.min.z || p.z > self.max.z)
    }

    /// Cuts the box across `axis` and gives the two parts, the lower first.
    pub fn halve(&self, axis: Axis, cut: Dist) -> (parts: (Box3, Box3))
        ensures
            parts.0 == self.below(axis, cut),
            parts.1 == self.above(axis, cut),
    {
        (
            Box3 { min: self.min, max: self.max.moved_to(axis, cut) },
            Box3 { min: self.min.moved_to(axis, cut), max: self.max },
        )
    }

    /// Grows the box until it wraps `other` too.
    pub fn join(&self, other: &Box3) -> (b: Box3)
        ensures
            b == self.hull(*other),
    {
        Box3 {
            min: Point3 {
                x: if other.min.x < self.min.x { other.min.x } else { self.min.x },
                y: if other.min.y < self.min.y { other.min.y } else { self.min.y },
                z: if other.min.z < self.min.z { other.min.z } else { self.min.z },
            },
            max: Point3 {
                x: if self.max.x < other.max.x { other.max.x } else { self.max.x },
                y: if self.max.y < other.max.y { other.max.y } else { self.max.y },
                z: if self.max.z < other.max.z { other.max.z } else { self.max.z },
            },
        }
    }
}

/// The two parts of a box cut between its faces lie in the box and share
/// the cut.
pub proof fn lemma_parts_lie_inside(b: Box3, axis: Axis, cut: Dist)
    requires
        b.ordered(),
        b.min.coord(axis) <= cut <= b.max.coord(axis),
    ensures
        b.wraps(b.below(axis, cut)),
        b.wraps(b.above(axis, cut)),
        b.below(axis, cut).max.coord(axis) == cut,
        b.above(axis, cut).min.coord(axis) == cut,
{
}

/// The hull of two boxes wraps both, and every box that wraps both wraps
/// the hull.
pub proof fn lemma_hull_is_least(a: Box3, b: Box3, c: Box3)
    ensures
        a.hull(b).wraps(a),
        a.hull(b).wraps(b),
        c.wraps(a) && c.wraps(b) ==> c.wraps(a.hull(b)),
{
}

} // verus!
