//! Distances along a ray and the span of a ray that lies inside a solid.

use vstd::prelude::*;

verus! {

/// A distance along a ray, or a coordinate. Only its order matters: `a < b`
/// means that the point at `a` comes before the point at `b`. Zero stands
/// for zero, so a negative distance lies behind the ray's origin.
pub type Dist = i32;

/// The smaller of two distances.
pub open spec fn nearer(a: Dist, b: Dist) -> Dist {
    if b < a { b } else { a }
}

/// The larger of two distances.
pub open spec fn farther(a: Dist, b: Dist) -> Dist {
    if a < b { b } else { a }
}

/// The stretch of a ray between the point where it enters a solid and the
/// point where it leaves it.
#[derive(Clone, Copy, Debug, PartialEq, Eq, Structural)]
pub struct Span {
    pub entry: Dist,
    pub exit: Dist,
}

impl Span {
    /// A span whose entry does not come after its exit.
    pub open spec fn ordered(self) -> bool {
        self.entry <= self.exit
    }

    /// Whether the point at distance `t` lies on the span, ends included.
    pub open spec fn covers(self, t: int) -> bool {
        self.entry <= t <= self.exit
    }

    /// Whether the point at distance `t` lies strictly between the ends.
    pub open spec fn encloses(self, t: int) -> bool {
        self.entry < t < self.exit
    }

    /// The span from `entry` to `exit`.
    pub fn new(entry: Dist, exit: Dist) -> (span: Span)
        ensures
            span.entry == entry,
            span.exit == exit,
    {
        Span { entry, exit }
    }

    /// The span of a surface without thickness, met at distance `t`.
    pub fn at(t: Dist) -> (span: Span)
        ensures
            span.entry == t,
            span.exit == t,
            span.ordered(),
    {
        Span { entry: t, exit: t }
    }

    /// The span between two crossings given in either order.
    pub fn between(t1: Dist, t2: Dist) -> (span: Span)
        ensures
            span.entry == nearer(t1, t2),
            span.exit == farther(t1, t2),
            span.ordered(),
    {
        if t2 < t1 {
            Span { entry: t2, exit: t1 }
        } else {
            Span { entry: t1, exit: t2 }
        }
    }
}

} // verus!
