//! Cuts through a triangle mesh: the box around a set of triangles, the two
//! halves that a cut deals them to, and the order in which the axes are
//! tried.
//!
//! Triangles are known by their index in a table of bounding boxes. A
//! triangle that straddles a cut belongs to both halves.

use vstd::prelude::*;
use crate::bounds::{Axis, Box3, Point3};
use crate::span::Dist;

verus! {

/// A node with fewer triangles than this is not divided.
pub const LEAF_LIMIT: usize = 256;

/// The numbers from zero up to `n`, in order: the members of a whole mesh
/// of `n` triangles.
pub open spec fn everyone(n: nat) -> Seq<usize> {
    Seq::new(n, |i: int| i as usize)
}

/// Whether every member names a row of the table.
pub open spec fn listed(bounds: Seq<Box3>, members: Seq<usize>) -> bool {
    forall|k: int| 0 <= k < members.len() ==> (#[trigger] members[k]) < bounds.len()
}

/// The smallest box around the boxes of all members.
pub open spec fn hull_of(bounds: Seq<Box3>, members: Seq<usize>) -> Box3
    recommends
        members.len() > 0,
    decreases members.len(),
{
    if members.len() <= 1 {
        bounds[members[0] as int]
    } else {
        hull_of(bounds, members.drop_last()).hull(bounds[members.last() as int])
    }
}

/// Computes the box around the members' boxes.
pub fn enclose(bounds: &Vec<Box3>, members: &Vec<usize>) -> (hull: Box3)
    requires
        members.len() > 0,
        listed(bounds@, members@),
    ensures
        hull == hull_of(bounds@, members@),
{
    let mut hull = bounds[members[0]];
    let mut k: usize = 1;
    proof {
        assert(members@.take(1).len() == 1);
        assert(members@.take(1)[0] == members@[0]);
    }
    while k < members.len()
        invariant
            1 <= k <= members.len(),
            listed(bounds@, members@),
            hull == hull_of(bounds@, members@.take(k as int)),
        decreases members.len() - k,
    {
        proof {
            let next = members@.take(k as int + 1);
            assert(next.drop_last() == members@.take(k as int));
            assert(next.last() == members@[k as int]);
        }
        hull = hull.join(&bounds[members[k]]);
        k += 1;
    }
    proof {
        assert(members@.take(k as int) == members@);
    }
    hull
}

/// The hull wraps the box of every member, and a box that wraps the box of
/// every member wraps the hull.
pub proof fn lemma_hull_of_is_least(bounds: Seq<Box3>, members: Seq<usize>, outer: Box3)
    requires
        members.len() > 0,
    ensures
        forall|k: int|
            0 <= k < members.len() ==> hull_of(bounds, members).wraps(
                #[trigger] bounds[members[k] as int],
            ),
        (forall|k: int|
            0 <= k < members.len() ==> outer.wraps(#[trigger] bounds[members[k] as int]))
            ==> outer.wraps(hull_of(bounds, members)),
    decreases members.len(),
{
    if members.len() > 1 {
        let front = members.drop_last();
        lemma_hull_of_is_least(bounds, front, outer);
        assert forall|k: int| 0 <= k < members.len() implies hull_of(bounds, members).wraps(
            #[trigger] bounds[members[k] as int],
        ) by {
            if k < front.len() {
                assert(front[k] == members[k]);
                assert(hull_of(bounds, front).wraps(bounds[front[k] as int]));
            }
        }
        if forall|k: int|
            0 <= k < members.len() ==> outer.wraps(#[trigger] bounds[members[k] as int]) {
            assert forall|k: int| 0 <= k < front.len() implies outer.wraps(
                #[trigger] bounds[front[k] as int],
            ) by {
                assert(front[k] == members[k]);
            }
            assert(outer.wraps(bounds[members[members.len() - 1] as int]));
        }
    }
}

/// Whether a box reaches into the half below a cut: it does unless it lies
/// wholly above the cut. A box that ends below the cut is in this half
/// whatever its other end says.
pub open spec fn reaches_below(b: Box3, axis: Axis, cut: Dist) -> bool {
    b.max.coord(axis) < cut || !(b.min.coord(axis) > cut)
}

/// Whether a box reaches into the half above a cut: it does unless it ends
/// below the cut.
pub open spec fn reaches_above(b: Box3, axis: Axis, cut: Dist) -> bool {
    !(b.max.coord(axis) < cut)
}

/// The test that picks the members of the half below a cut.
pub open spec fn below(bounds: Seq<Box3>, axis: Axis, cut: Dist) -> spec_fn(usize) -> bool {
    |m: usize| reaches_below(bounds[m as int], axis, cut)
}

/// The test that picks the members of the half above a cut.
pub open spec fn above(bounds: Seq<Box3>, axis: Axis, cut: Dist) -> spec_fn(usize) -> bool {
    |m: usize| reaches_above(bounds[m as int], axis, cut)
}

/// The members that belong to the half below a cut, in their order.
pub open spec fn lower_half(bounds: Seq<Box3>, members: Seq<usize>, axis: Axis, cut: Dist) -> Seq<
    usize,
> {
    members.filter(below(bounds, axis, cut))
}

/// The members that belong to the half above a cut, in their order.
pub open spec fn upper_half(bounds: Seq<Box3>, members: Seq<usize>, axis: Axis, cut: Dist) -> Seq<
    usize,
> {
    members.filter(above(bounds, axis, cut))
}

/// Deals the members out to the two halves of a cut.
pub fn distribute(bounds: &Vec<Box3>, members: &Vec<usize>, axis: Axis, cut: Dist) -> (halves: (
    Vec<usize>,
    Vec<usize>,
))
    requires
        listed(bounds@, members@),
    ensures
        halves.0@ == lower_half(bounds@, members@, axis, cut),
        halves.1@ == upper_half(bounds@, members@, axis, cut),
{
    let mut lower: Vec<usize> = Vec::new();
    let mut upper: Vec<usize> = Vec::new();
    let mut k: usize = 0;
    proof {
        reveal(Seq::filter);
        assert(members@.take(0).len() == 0);
    }
    while k < members.len()
        invariant
            k <= members.len(),
            listed(bounds@, members@),
            lower@ == lower_half(bounds@, members@.take(k as int), axis, cut),
            upper@ == upper_half(bounds@, members@.take(k as int), axis, cut),
        decreases members.len() - k,
    {
        proof {
            reveal(Seq::filter);
            let next = members@.take(k as int + 1);
            assert(next.drop_last() == members@.take(k as int));
            assert(next.last() == members@[k as int]);
        }
        let m = members[k];
        let b = &bounds[m];
        let hi = b.max.along(axis);
        let lo = b.min.along(axis);
        if hi < cut {
            lower.push(m);
        } else if lo > cut {
            upper.push(m);
        } else {
            lower.push(m);
            upper.push(m);
        }
        k += 1;
    }
    proof {
        assert(members@.take(k as int) == members@);
    }
    (lower, upper)
}

/// No triangle is lost by a cut: every member is in the lower half or in the
/// upper half, and one whose box holds the cut is in both.
pub proof fn lemma_halves_cover(
    bounds: Seq<Box3>,
    members: Seq<usize>,
    axis: Axis,
    cut: Dist,
    k: int,
)
    requires
        0 <= k < members.len(),
        listed(bounds, members),
    ensures
        lower_half(bounds, members, axis, cut).contains(members[k]) || upper_half(
            bounds,
            members,
            axis,
            cut,
        ).contains(members[k]),
        bounds[members[k] as int].min.coord(axis) <= cut <= bounds[members[k] as int].max.coord(
            axis,
        ) ==> lower_half(bounds, members, axis, cut).contains(members[k]) && upper_half(
            bounds,
            members,
            axis,
            cut,
        ).contains(members[k]),
{
    let b = bounds[members[k] as int];
    if reaches_below(b, axis, cut) {
        members.lemma_filter_contains(below(bounds, axis, cut), k);
    }
    if reaches_above(b, axis, cut) {
        members.lemma_filter_contains(above(bounds, axis, cut), k);
    }
}

/// A half holds no more members than there are.
pub proof fn lemma_halves_are_no_longer(
    bounds: Seq<Box3>,
    members: Seq<usize>,
    axis: Axis,
    cut: Dist,
)
    ensures
        lower_half(bounds, members, axis, cut).len() <= members.len(),
        upper_half(bounds, members, axis, cut).len() <= members.len(),
{
    members.lemma_filter_len(below(bounds, axis, cut));
    members.lemma_filter_len(above(bounds, axis, cut));
}

/// A half holds only members, each of them on its side of the cut.
pub proof fn lemma_halves_hold_members(
    bounds: Seq<Box3>,
    members: Seq<usize>,
    axis: Axis,
    cut: Dist,
)
    requires
        listed(bounds, members),
    ensures
        lower_half(bounds, members, axis, cut).len() <= members.len(),
        upper_half(bounds, members, axis, cut).len() <= members.len(),
        listed(bounds, lower_half(bounds, members, axis, cut)),
        listed(bounds, upper_half(bounds, members, axis, cut)),
        forall|k: int|
            0 <= k < lower_half(bounds, members, axis, cut).len() ==> reaches_below(
                bounds[(#[trigger] lower_half(bounds, members, axis, cut)[k]) as int],
                axis,
                cut,
            ),
        forall|k: int|
            0 <= k < upper_half(bounds, members, axis, cut).len() ==> reaches_above(
                bounds[(#[trigger] upper_half(bounds, members, axis, cut)[k]) as int],
                axis,
                cut,
            ),
{
    let lower = lower_half(bounds, members, axis, cut);
    let upper = upper_half(bounds, members, axis, cut);
    members.lemma_filter_len(below(bounds, axis, cut));
    members.lemma_filter_len(above(bounds, axis, cut));
    assert forall|k: int| 0 <= k < lower.len() implies (#[trigger] lower[k]) < bounds.len()
        && reaches_below(bounds[lower[k] as int], axis, cut) by {
        members.lemma_filter_pred(below(bounds, axis, cut), k);
        members.lemma_filter_contains_rev(below(bounds, axis, cut), lower[k]);
    }
    assert forall|k: int| 0 <= k < upper.len() implies (#[trigger] upper[k]) < bounds.len()
        && reaches_above(bounds[upper[k] as int], axis, cut) by {
        members.lemma_filter_pred(above(bounds, axis, cut), k);
        members.lemma_filter_contains_rev(above(bounds, axis, cut), upper[k]);
    }
}

/// The place of an axis in the order in which ties are settled.
pub open spec fn rank(axis: Axis) -> int {
    match axis {
        Axis::X => 0,
        Axis::Y => 1,
        Axis::Z => 2,
    }
}

/// Whether axis `a` is tried before axis `b` for a box of the given sizes:
/// the wider axis first, and of two equally wide the one of lower rank.
pub open spec fn preferred(sizes: Point3, a: Axis, b: Axis) -> bool {
    sizes.coord(a) > sizes.coord(b) || (sizes.coord(a) == sizes.coord(b) && rank(a) < rank(b))
}

/// The three axes in the order in which they are tried.
#[derive(Clone, Copy, Debug, PartialEq, Eq, Structural)]
pub struct AxisOrder {
    pub first: Axis,
    pub second: Axis,
    pub third: Axis,
}

impl AxisOrder {
    /// The axis at place `k`, counted from zero.
    pub open spec fn at(self, k: int) -> Axis {
        if k == 0 {
            self.first
        } else if k == 1 {
            self.second
        } else {
            self.third
        }
    }

    /// Reads the axis at place `k`.
    pub fn nth(&self, k: usize) -> (axis: Axis)
        ensures
            axis == self.at(k as int),
    {
        if k == 0 {
            self.first
        } else if k == 1 {
            self.second
        } else {
            self.third
        }
    }
}

/// Orders the axes for a box whose size along each axis is given.
pub fn preference(sizes: &Point3) -> (order: AxisOrder)
    ensures
        preferred(*sizes, order.first, order.second),
        preferred(*sizes, order.second, order.third),
{
    if sizes.x >= sizes.y && sizes.x >= sizes.z {
        if sizes.y >= sizes.z {
            AxisOrder { first: Axis::X, second: Axis::Y, third: Axis::Z }
        } else {
            AxisOrder { first: Axis::X, second: Axis::Z, third: Axis::Y }
        }
    } else if sizes.y >= sizes.z {
        if sizes.x >= sizes.z {
            AxisOrder { first: Axis::Y, second: Axis::X, third: Axis::Z }
        } else {
            AxisOrder { first: Axis::Y, second: Axis::Z, third: Axis::X }
        }
    } else {
        if sizes.x >= sizes.y {
            AxisOrder { first: Axis::Z, second: Axis::X, third: Axis::Y }
        } else {
            AxisOrder { first: Axis::Z, second: Axis::Y, third: Axis::X }
        }
    }
}

/// The order of preference names every axis once, and an axis comes before
/// another in it exactly when it is preferred.
pub proof fn lemma_preference_is_total(sizes: Point3, order: AxisOrder, axis: Axis)
    requires
        preferred(sizes, order.first, order.second),
        preferred(sizes, order.second, order.third),
    ensures
        axis == order.first || axis == order.second || axis == order.third,
        order.first != order.second && order.second != order.third && order.first != order.third,
        forall|j: int, k: int|
            0 <= j < 3 && 0 <= k < 3 ==> (j < k <==> preferred(
                sizes,
                #[trigger] order.at(j),
                #[trigger] order.at(k),
            )),
{
}

} // verus!
