//! What the simple shapes decide once the crossing of a ray has been solved
//! for: whether the ray hits, and the span it spends inside.
//!
//! A distance of zero stands for the ray's origin, and a negative distance
//! for a point behind it.

use vstd::prelude::*;
use crate::bounds::{Box3, Point3};
use crate::span::{Dist, Span, nearer, farther};

verus! {

/// The shape that no ray hits.
#[derive(Clone, Copy, Debug, PartialEq, Eq, Structural)]
pub struct NoneShape {}

impl NoneShape {
    pub fn new() -> (shape: NoneShape)
        ensures
            shape == (NoneShape {}),
    {
        NoneShape {  }
    }

    /// No ray hits this shape.
    pub fn intersects(&self) -> (hit: Option<Span>)
        ensures
            hit.is_none(),
    {
        None
    }
}

/// The sphere of diameter one about the origin.
#[derive(Clone, Copy, Debug, PartialEq, Eq, Structural)]
pub struct Sphere {}

impl Sphere {
    pub fn new() -> (shape: Sphere)
        ensures
            shape == (Sphere {}),
    {
        Sphere {  }
    }

    /// What a ray spends inside the sphere, from the crossing equation's
    /// discriminant and its two roots.
    pub open spec fn span_of(discriminant: Dist, root1: Dist, root2: Dist) -> Option<Span> {
        if discriminant < 0 {
            None
        } else {
            Some(Span { entry: nearer(root1, root2), exit: farther(root1, root2) })
        }
    }

    /// Decides the hit of a ray. With a negative discriminant the ray passes
    /// by; otherwise it enters at the smaller root and leaves at the larger.
    pub fn intersects(&self, discriminant: Dist, root1: Dist, root2: Dist) -> (hit: Option<Span>)
        ensures
            hit == Sphere::span_of(discriminant, root1, root2),
    {
        if discriminant < 0 {
            None
        } else {
            Some(Span::between(root1, root2))
        }
    }
}

/// Whether a ray hits a bounded plane. `slope` is the ray's direction
/// measured along the plane's normal, `t` the distance at which the ray
/// meets the unbounded plane, `point` the point where it does, and `bounds`
/// the box around the bounded part.
pub open spec fn plane_hit(slope: Dist, t: Dist, point: Point3, bounds: Box3) -> bool {
    &&& slope != 0
    &&& t >= 0
    &&& bounds.holds(point)
}

/// What a ray spends on a surface without thickness: it leaves where it
/// enters, at distance `t`, if it hits at all.
pub open spec fn touch(hit: bool, t: Dist) -> Option<Span> {
    if hit {
        Some(Span { entry: t, exit: t })
    } else {
        None
    }
}

/// Decides the hit of a ray on a bounded plane. A ray along the plane, a
/// plane behind the ray and a meeting point outside the bounds are misses.
pub fn plane_intersects(slope: Dist, t: Dist, point: &Point3, bounds: &Box3) -> (hit: Option<Span>)
    ensures
        hit == touch(plane_hit(slope, t, *point, *bounds), t),
{
    if slope == 0 {
        return None;
    }
    if t < 0 {
        return None;
    }
    if !bounds.contains(point) {
        return None;
    }
    Some(Span::at(t))
}

/// Whether a ray meets a triangle inside its edges. `u` and `v` are the
/// meeting point's two edge coordinates before they are divided by `det`,
/// and `sum` is `u` and `v` added.
pub open spec fn triangle_hit(u: Dist, v: Dist, sum: Dist, det: Dist) -> bool {
    &&& 0 <= u <= det
    &&& 0 <= v
    &&& sum <= det
}

/// Decides the hit of a ray on a triangle, met at distance `t`.
pub fn triangle_intersects(u: Dist, v: Dist, sum: Dist, det: Dist, t: Dist) -> (hit: Option<Span>)
    ensures
        hit == touch(triangle_hit(u, v, sum, det), t),
{
    if u < 0 || u > det {
        return None;
    }
    if v < 0 || sum > det {
        return None;
    }
    Some(Span::at(t))
}

/// Whether a triangle's normal has to be turned round to face the ray.
/// `along` is the normal measured along the ray's direction.
pub fn turns_normal(along: Dist) -> (flip: bool)
    ensures
        flip == (along > 0),
{
    along > 0
}

} // verus!
