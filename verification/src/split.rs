//! The partition tree of a mesh: how it is grown from the triangles' boxes
//! and how a ray walks it.
//!
//! The tree holds places in the order of coordinates, not coordinates, so
//! what needs arithmetic comes from the caller as a function: the size of a
//! range, the middle of a range, and the distance at which a ray meets a box
//! or a triangle. The contracts say what the tree is for whatever values
//! those functions gave.

use vstd::prelude::*;
use crate::bounds::{Axis, Box3, Point3};
use crate::partition::{
    above,
    below,
    LEAF_LIMIT,
    distribute,
    enclose,
    everyone,
    hull_of,
    lemma_halves_cover,
    lemma_halves_hold_members,
    lemma_preference_is_total,
    listed,
    lower_half,
    preference,
    preferred,
    upper_half,
};
use crate::span::Dist;
use crate::trace::{eligible, intersect, meets_first};

verus! {

/// A partition tree. A leaf holds triangles; an inner node holds two
/// subtrees and the box of each.
#[derive(Debug)]
pub enum Split {
    Leaf { triangles: Vec<usize> },
    Node { left: Box<Split>, left_box: Box3, right: Box<Split>, right_box: Box3 },
}

/// One of the two subtrees of a node.
#[derive(Clone, Copy, Debug, PartialEq, Eq, Structural)]
pub enum Side {
    Left,
    Right,
}

/// Which subtrees a ray has to enter, and in which order.
#[derive(Clone, Copy, Debug, PartialEq, Eq, Structural)]
pub enum Visit {
    /// The ray misses both boxes.
    Neither,
    /// The ray meets one box only.
    Only { side: Side },
    /// The ray meets both boxes; `first` is entered first, and the other
    /// only if nothing is hit there.
    Both { first: Side },
}

/// A triangle that a ray hits, and the distance at which it does.
#[derive(Clone, Copy, Debug, PartialEq, Eq, Structural)]
pub struct Found {
    pub triangle: usize,
    pub distance: Dist,
}

/// Whether `sizes` holds what `extent` gave for the three sides of `hull`.
pub open spec fn measured<E: Fn(Dist, Dist) -> Dist>(extent: E, hull: Box3, sizes: Point3) -> bool {
    &&& extent.ensures((hull.min.x, hull.max.x), sizes.x)
    &&& extent.ensures((hull.min.y, hull.max.y), sizes.y)
    &&& extent.ensures((hull.min.z, hull.max.z), sizes.z)
}

/// Whether a cut separates the members: neither half holds all of them.
pub open spec fn divides(bounds: Seq<Box3>, members: Seq<usize>, axis: Axis, cut: Dist) -> bool {
    &&& lower_half(bounds, members, axis, cut).len() != members.len()
    &&& upper_half(bounds, members, axis, cut).len() != members.len()
}

/// Whether `cut` is what `middle` gave for the side of the members' hull
/// along `axis`.
pub open spec fn halfway<M: Fn(Dist, Dist) -> Dist>(
    middle: M,
    bounds: Seq<Box3>,
    members: Seq<usize>,
    axis: Axis,
    cut: Dist,
) -> bool {
    middle.ensures(
        (hull_of(bounds, members).min.coord(axis), hull_of(bounds, members).max.coord(axis)),
        cut,
    )
}

/// Whether the cut through the middle of the hull along `axis` was found
/// not to separate the members.
pub open spec fn fails<M: Fn(Dist, Dist) -> Dist>(
    middle: M,
    bounds: Seq<Box3>,
    members: Seq<usize>,
    axis: Axis,
) -> bool {
    exists|cut: Dist| #[trigger]
        halfway(middle, bounds, members, axis, cut) && !divides(bounds, members, axis, cut)
}

/// Whether a node is rightly cut at `cut` across `axis`: the cut is the
/// middle of the hull, it separates the members, and every axis that is
/// preferred to `axis` failed.
pub open spec fn chosen<E: Fn(Dist, Dist) -> Dist, M: Fn(Dist, Dist) -> Dist>(
    extent: E,
    middle: M,
    bounds: Seq<Box3>,
    members: Seq<usize>,
    sizes: Point3,
    axis: Axis,
    cut: Dist,
) -> bool {
    &&& measured(extent, hull_of(bounds, members), sizes)
    &&& halfway(middle, bounds, members, axis, cut)
    &&& divides(bounds, members, axis, cut)
    &&& forall|other: Axis| #[trigger]
        preferred(sizes, other, axis) ==> fails(middle, bounds, members, other)
}

/// What a ray has to visit at a node, from the distances at which it meets
/// the two boxes. Of two boxes met at the same distance the right one comes
/// first.
pub open spec fn visit_of(left: Option<Dist>, right: Option<Dist>) -> Visit {
    match (left, right) {
        (None, None) => Visit::Neither,
        (Some(_), None) => Visit::Only { side: Side::Left },
        (None, Some(_)) => Visit::Only { side: Side::Right },
        (Some(l), Some(r)) => Visit::Both { first: if l < r { Side::Left } else { Side::Right } },
    }
}

/// Decides which subtrees a ray enters.
pub fn visit(left: Option<Dist>, right: Option<Dist>) -> (plan: Visit)
    ensures
        plan == visit_of(left, right),
{
    match (left, right) {
        (None, None) => Visit::Neither,
        (Some(_), None) => Visit::Only { side: Side::Left },
        (None, Some(_)) => Visit::Only { side: Side::Right },
        (Some(l), Some(r)) => if l < r {
            Visit::Both { first: Side::Left }
        } else {
            Visit::Both { first: Side::Right }
        },
    }
}

/// Whether `hits` holds what `hit` gave for each triangle in turn.
pub open spec fn scanned<T: Fn(usize) -> Option<Dist>>(
    hit: T,
    triangles: Seq<usize>,
    hits: Seq<Option<Dist>>,
) -> bool {
    &&& hits.len() == triangles.len()
    &&& forall|k: int| 0 <= k < triangles.len() ==> hit.ensures((triangles[k],), #[trigger] hits[k])
}

/// Whether `found` is the nearest of the hits: the triangle that is hit at
/// the least distance, and of several at that distance the one that stands
/// first; nothing if no triangle is hit.
pub open spec fn nearest(
    triangles: Seq<usize>,
    hits: Seq<Option<Dist>>,
    found: Option<Found>,
) -> bool {
    match found {
        Some(f) => exists|i: int| #[trigger]
            meets_first(hits, i, None, None) && f.triangle == triangles[i] && f.distance
                == hits[i].unwrap(),
        None => forall|j: int| !#[trigger] eligible(hits, j, None, None),
    }
}

impl Split {
    /// Whether triangle `t` is held in some leaf of the tree.
    pub open spec fn holds(self, t: usize) -> bool
        decreases self,
    {
        match self {
            Split::Leaf { triangles } => triangles@.contains(t),
            Split::Node { left, left_box, right, right_box } => left.holds(t) || right.holds(t),
        }
    }

    /// Whether every box of the tree is safe: a ray that misses a box hits
    /// no triangle that is held beneath it.
    pub open spec fn safe(
        self,
        box_hit: spec_fn(Box3) -> Option<Dist>,
        triangle_hit: spec_fn(usize) -> Option<Dist>,
    ) -> bool
        decreases self,
    {
        match self {
            Split::Leaf { triangles } => true,
            Split::Node { left, left_box, right, right_box } => {
                &&& left.safe(box_hit, triangle_hit)
                &&& right.safe(box_hit, triangle_hit)
                &&& box_hit(left_box).is_none() ==> forall|t: usize| #[trigger]
                    left.holds(t) ==> triangle_hit(t).is_none()
                &&& box_hit(right_box).is_none() ==> forall|t: usize| #[trigger]
                    right.holds(t) ==> triangle_hit(t).is_none()
            },
        }
    }

    /// Whether the tree is the partition of `members`.
    ///
    /// A leaf holds the members as they are; there are fewer of them than
    /// the limit, or no cut through the middle of their hull separates them.
    /// A node is cut through the middle of the members' hull across the most
    /// preferred axis whose cut separates them; its boxes are the two parts
    /// of the hull, and its subtrees are the partitions of the two halves.
    pub open spec fn grown<E: Fn(Dist, Dist) -> Dist, M: Fn(Dist, Dist) -> Dist>(
        self,
        bounds: Seq<Box3>,
        members: Seq<usize>,
        extent: E,
        middle: M,
    ) -> bool
        decreases self,
    {
        match self {
            Split::Leaf { triangles } => {
                &&& triangles@ == members
                &&& members.len() >= LEAF_LIMIT ==> forall|axis: Axis| #[trigger]
                    fails(middle, bounds, members, axis)
            },
            Split::Node { left, left_box, right, right_box } => {
                &&& members.len() >= LEAF_LIMIT
                &&& exists|sizes: Point3, axis: Axis, cut: Dist|
                    {
                        &&& #[trigger] chosen(extent, middle, bounds, members, sizes, axis, cut)
                        &&& left_box == hull_of(bounds, members).below(axis, cut)
                        &&& right_box == hull_of(bounds, members).above(axis, cut)
                        &&& left.grown(
                            bounds,
                            lower_half(bounds, members, axis, cut),
                            extent,
                            middle,
                        )
                        &&& right.grown(
                            bounds,
                            upper_half(bounds, members, axis, cut),
                            extent,
                            middle,
                        )
                    }
            },
        }
    }

    /// Whether `found` is what a walk of the tree can end with, given what
    /// `hit_box` and `hit_triangle` say of the ray.
    ///
    /// In a leaf it is the nearest of the triangles hit. At a node the ray
    /// enters the subtrees whose boxes it meets, the nearer box first, and
    /// takes what it finds in the first; it enters the second only where the
    /// first gave nothing.
    pub open spec fn walked<B: Fn(Box3) -> Option<Dist>, T: Fn(usize) -> Option<Dist>>(
        self,
        hit_box: B,
        hit_triangle: T,
        found: Option<Found>,
    ) -> bool
        decreases self,
    {
        match self {
            Split::Leaf { triangles } => exists|hits: Seq<Option<Dist>>| #[trigger]
                scanned(hit_triangle, triangles@, hits) && nearest(triangles@, hits, found),
            Split::Node { left, left_box, right, right_box } => exists|
                l: Option<Dist>,
                r: Option<Dist>,
            |
                {
                    &&& hit_box.ensures((left_box,), l)
                    &&& hit_box.ensures((right_box,), r)
                    &&& match #[trigger] visit_of(l, r) {
                        Visit::Neither => found.is_none(),
                        Visit::Only { side: Side::Left } => left.walked(
                            hit_box,
                            hit_triangle,
                            found,
                        ),
                        Visit::Only { side: Side::Right } => right.walked(
                            hit_box,
                            hit_triangle,
                            found,
                        ),
                        Visit::Both { first: Side::Left } => {
                            ||| found.is_some() && left.walked(hit_box, hit_triangle, found)
                            ||| left.walked(hit_box, hit_triangle, None) && right.walked(
                                hit_box,
                                hit_triangle,
                                found,
                            )
                        },
                        Visit::Both { first: Side::Right } => {
                            ||| found.is_some() && right.walked(hit_box, hit_triangle, found)
                            ||| right.walked(hit_box, hit_triangle, None) && left.walked(
                                hit_box,
                                hit_triangle,
                                found,
                            )
                        },
                    }
                },
        }
    }

    /// Grows the partition of a mesh from `bounds`, the table of its
    /// triangles' boxes. `extent` gives the size of a range of coordinates
    /// and `middle` the coordinate halfway between its ends.
    pub fn new<E: Fn(Dist, Dist) -> Dist, M: Fn(Dist, Dist) -> Dist>(
        bounds: &Vec<Box3>,
        extent: &E,
        middle: &M,
    ) -> (tree: Split)
        requires
            forall|lo: Dist, hi: Dist| extent.requires((lo, hi)),
            forall|lo: Dist, hi: Dist| middle.requires((lo, hi)),
        ensures
            tree.grown(bounds@, everyone(bounds@.len()), *extent, *middle),
    {
        let mut members: Vec<usize> = Vec::new();
        let mut t: usize = 0;
        while t < bounds.len()
            invariant
                t <= bounds.len(),
                members@ == everyone(t as nat),
            decreases bounds.len() - t,
        {
            members.push(t);
            t += 1;
            proof {
                assert(members@ =~= everyone(t as nat));
            }
        }
        Split::new_int(bounds, members, extent, middle)
    }

    /// Grows the partition of `members`, which name rows of `bounds`.
    pub fn new_int<E: Fn(Dist, Dist) -> Dist, M: Fn(Dist, Dist) -> Dist>(
        bounds: &Vec<Box3>,
        members: Vec<usize>,
        extent: &E,
        middle: &M,
    ) -> (tree: Split)
        requires
            listed(bounds@, members@),
            forall|lo: Dist, hi: Dist| extent.requires((lo, hi)),
            forall|lo: Dist, hi: Dist| middle.requires((lo, hi)),
        ensures
            tree.grown(bounds@, members@, *extent, *middle),
        decreases members@.len(),
    {
        if members.len() < LEAF_LIMIT {
            return Split::Leaf { triangles: members };
        }
        let count = members.len();
        let hull = enclose(bounds, &members);
        let sizes = Point3 {
            x: extent(hull.min.x, hull.max.x),
            y: extent(hull.min.y, hull.max.y),
            z: extent(hull.min.z, hull.max.z),
        };
        let order = preference(&sizes);
        let mut k: usize = 0;
        while k < 3
            invariant
                k <= 3,
                count == members@.len(),
                count >= LEAF_LIMIT,
                listed(bounds@, members@),
                hull == hull_of(bounds@, members@),
                measured(*extent, hull, sizes),
                preferred(sizes, order.first, order.second),
                preferred(sizes, order.second, order.third),
                forall|lo: Dist, hi: Dist| extent.requires((lo, hi)),
                forall|lo: Dist, hi: Dist| middle.requires((lo, hi)),
                forall|j: int| 0 <= j < k ==> fails(*middle, bounds@, members@, #[trigger] order.at(j)),
            decreases 3 - k,
        {
            let axis = order.nth(k);
            let cut = middle(hull.min.along(axis), hull.max.along(axis));
            let (lower, upper) = distribute(bounds, &members, axis, cut);
            proof {
                lemma_halves_hold_members(bounds@, members@, axis, cut);
                assert(halfway(*middle, bounds@, members@, axis, cut));
            }
            if lower.len() != count && upper.len() != count {
                let (left_box, right_box) = hull.halve(axis, cut);
                let left = Split::new_int(bounds, lower, extent, middle);
                let right = Split::new_int(bounds, upper, extent, middle);
                proof {
                    assert forall|other: Axis| #[trigger]
                        preferred(sizes, other, axis) implies fails(
                        *middle,
                        bounds@,
                        members@,
                        other,
                    ) by {
                        lemma_preference_is_total(sizes, order, other);
                        if other == order.at(0) {
                            assert(preferred(sizes, order.at(0), order.at(k as int)));
                        } else if other == order.at(1) {
                            assert(preferred(sizes, order.at(1), order.at(k as int)));
                        } else {
                            assert(preferred(sizes, order.at(2), order.at(k as int)));
                        }
                    }
                    assert(chosen(*extent, *middle, bounds@, members@, sizes, axis, cut));
                }
                return Split::Node {
                    left: Box::new(left),
                    left_box,
                    right: Box::new(right),
                    right_box,
                };
            }
            k += 1;
        }
        proof {
            assert forall|axis: Axis| #[trigger] fails(*middle, bounds@, members@, axis) by {
                lemma_preference_is_total(sizes, order, axis);
                assert(axis == order.at(0) || axis == order.at(1) || axis == order.at(2));
            }
        }
        Split::Leaf { triangles: members }
    }

    /// Finds the nearest of the triangles that a ray hits. `hit_triangle`
    /// gives the distance at which the ray hits a triangle, if it does.
    pub fn triangles_intersects<T: Fn(usize) -> Option<Dist>>(
        triangles: &Vec<usize>,
        hit_triangle: &T,
    ) -> (found: Option<Found>)
        requires
            forall|t: usize| hit_triangle.requires((t,)),
        ensures
            exists|hits: Seq<Option<Dist>>| #[trigger]
                scanned(*hit_triangle, triangles@, hits) && nearest(triangles@, hits, found),
    {
        let mut hits: Vec<Option<Dist>> = Vec::new();
        let mut k: usize = 0;
        while k < triangles.len()
            invariant
                k <= triangles.len(),
                hits@.len() == k,
                forall|t: usize| hit_triangle.requires((t,)),
                forall|j: int|
                    0 <= j < k ==> hit_triangle.ensures((triangles@[j],), #[trigger] hits@[j]),
            decreases triangles.len() - k,
        {
            let hit = hit_triangle(triangles[k]);
            hits.push(hit);
            k += 1;
        }
        let found = match intersect(&hits, None, None) {
            Some(i) => match hits[i] {
                Some(distance) => Some(Found { triangle: triangles[i], distance }),
                None => None,
            },
            None => None,
        };
        proof {
            assert(scanned(*hit_triangle, triangles@, hits@));
            assert(nearest(triangles@, hits@, found));
        }
        found
    }

    /// Walks the tree along a ray. `hit_box` gives the distance at which the
    /// ray meets a box and `hit_triangle` the distance at which it hits a
    /// triangle, if they do.
    pub fn intersects<B: Fn(Box3) -> Option<Dist>, T: Fn(usize) -> Option<Dist>>(
        &self,
        hit_box: &B,
        hit_triangle: &T,
    ) -> (found: Option<Found>)
        requires
            forall|b: Box3| hit_box.requires((b,)),
            forall|t: usize| hit_triangle.requires((t,)),
        ensures
            self.walked(*hit_box, *hit_triangle, found),
        decreases self,
    {
        match self {
            Split::Leaf { triangles } => Split::triangles_intersects(triangles, hit_triangle),
            Split::Node { left, left_box, right, right_box } => {
                let l = hit_box(*left_box);
                let r = hit_box(*right_box);
                let found = match visit(l, r) {
                    Visit::Neither => None,
                    Visit::Only { side: Side::Left } => left.intersects(hit_box, hit_triangle),
                    Visit::Only { side: Side::Right } => right.intersects(hit_box, hit_triangle),
                    Visit::Both { first: Side::Left } => {
                        match left.intersects(hit_box, hit_triangle) {
                            Some(f) => Some(f),
                            None => right.intersects(hit_box, hit_triangle),
                        }
                    },
                    Visit::Both { first: Side::Right } => {
                        match right.intersects(hit_box, hit_triangle) {
                            Some(f) => Some(f),
                            None => left.intersects(hit_box, hit_triangle),
                        }
                    },
                };
                found
            },
        }
    }

    /// Tests a ray against a mesh: against its box first, and against the
    /// tree only where the box is met. `outer` is the distance at which the
    /// ray meets the mesh's box, if it does.
    pub fn probe<B: Fn(Box3) -> Option<Dist>, T: Fn(usize) -> Option<Dist>>(
        &self,
        outer: Option<Dist>,
        hit_box: &B,
        hit_triangle: &T,
    ) -> (found: Option<Found>)
        requires
            forall|b: Box3| hit_box.requires((b,)),
            forall|t: usize| hit_triangle.requires((t,)),
        ensures
            outer.is_none() ==> found.is_none(),
            outer.is_some() ==> self.walked(*hit_box, *hit_triangle, found),
    {
        match outer {
            None => None,
            Some(_) => self.intersects(hit_box, hit_triangle),
        }
    }
}

/// A mesh with fewer triangles than the limit is kept in one leaf, as it is.
pub proof fn lemma_small_mesh_is_one_leaf<E: Fn(Dist, Dist) -> Dist, M: Fn(Dist, Dist) -> Dist>(
    tree: Split,
    bounds: Seq<Box3>,
    members: Seq<usize>,
    extent: E,
    middle: M,
)
    requires
        tree.grown(bounds, members, extent, middle),
        members.len() < LEAF_LIMIT,
    ensures
        tree is Leaf,
        tree->triangles@ == members,
{
}

/// A node's subtrees each hold fewer triangles than the node was grown
/// from, so the partition of a mesh is finite however its cuts fall.
pub proof fn lemma_node_divides<E: Fn(Dist, Dist) -> Dist, M: Fn(Dist, Dist) -> Dist>(
    tree: Split,
    bounds: Seq<Box3>,
    members: Seq<usize>,
    extent: E,
    middle: M,
)
    requires
        tree.grown(bounds, members, extent, middle),
        tree is Node,
    ensures
        members.len() >= LEAF_LIMIT,
        (exists|axis: Axis, cut: Dist|
            {
                &&& #[trigger] divides(bounds, members, axis, cut)
                &&& tree->left.grown(bounds, lower_half(bounds, members, axis, cut), extent, middle)
                &&& tree->right.grown(
                    bounds,
                    upper_half(bounds, members, axis, cut),
                    extent,
                    middle,
                )
                &&& lower_half(bounds, members, axis, cut).len() < members.len()
                &&& upper_half(bounds, members, axis, cut).len() < members.len()
            }),
{
    match tree {
        Split::Leaf { triangles } => {},
        Split::Node { left, left_box, right, right_box } => {
            let (sizes, axis, cut) = choose|sizes: Point3, axis: Axis, cut: Dist|
                {
                    &&& #[trigger] chosen(extent, middle, bounds, members, sizes, axis, cut)
                    &&& left_box == hull_of(bounds, members).below(axis, cut)
                    &&& right_box == hull_of(bounds, members).above(axis, cut)
                    &&& left.grown(bounds, lower_half(bounds, members, axis, cut), extent, middle)
                    &&& right.grown(bounds, upper_half(bounds, members, axis, cut), extent, middle)
                };
            crate::partition::lemma_halves_are_no_longer(bounds, members, axis, cut);
            assert(divides(bounds, members, axis, cut));
        },
    }
}

/// A partition loses no triangle: every member is held in some leaf.
pub proof fn lemma_grown_holds_members<E: Fn(Dist, Dist) -> Dist, M: Fn(Dist, Dist) -> Dist>(
    tree: Split,
    bounds: Seq<Box3>,
    members: Seq<usize>,
    extent: E,
    middle: M,
    k: int,
)
    requires
        tree.grown(bounds, members, extent, middle),
        listed(bounds, members),
        0 <= k < members.len(),
    ensures
        tree.holds(members[k]),
    decreases tree,
{
    match tree {
        Split::Leaf { triangles } => {
            assert(triangles@[k] == members[k]);
        },
        Split::Node { left, left_box, right, right_box } => {
            let (sizes, axis, cut) = choose|sizes: Point3, axis: Axis, cut: Dist|
                {
                    &&& #[trigger] chosen(extent, middle, bounds, members, sizes, axis, cut)
                    &&& left_box == hull_of(bounds, members).below(axis, cut)
                    &&& right_box == hull_of(bounds, members).above(axis, cut)
                    &&& left.grown(bounds, lower_half(bounds, members, axis, cut), extent, middle)
                    &&& right.grown(bounds, upper_half(bounds, members, axis, cut), extent, middle)
                };
            let lower = lower_half(bounds, members, axis, cut);
            let upper = upper_half(bounds, members, axis, cut);
            lemma_halves_cover(bounds, members, axis, cut, k);
            lemma_halves_hold_members(bounds, members, axis, cut);
            if lower.contains(members[k]) {
                let j = choose|j: int| 0 <= j < lower.len() && lower[j] == members[k];
                lemma_grown_holds_members(*left, bounds, lower, extent, middle, j);
            } else {
                let j = choose|j: int| 0 <= j < upper.len() && upper[j] == members[k];
                lemma_grown_holds_members(*right, bounds, upper, extent, middle, j);
            }
        },
    }
}

/// A partition holds nothing but members.
pub proof fn lemma_grown_holds_only_members<
    E: Fn(Dist, Dist) -> Dist,
    M: Fn(Dist, Dist) -> Dist,
>(tree: Split, bounds: Seq<Box3>, members: Seq<usize>, extent: E, middle: M, t: usize)
    requires
        tree.grown(bounds, members, extent, middle),
        tree.holds(t),
    ensures
        members.contains(t),
    decreases tree,
{
    match tree {
        Split::Leaf { triangles } => {},
        Split::Node { left, left_box, right, right_box } => {
            let (sizes, axis, cut) = choose|sizes: Point3, axis: Axis, cut: Dist|
                {
                    &&& #[trigger] chosen(extent, middle, bounds, members, sizes, axis, cut)
                    &&& left_box == hull_of(bounds, members).below(axis, cut)
                    &&& right_box == hull_of(bounds, members).above(axis, cut)
                    &&& left.grown(bounds, lower_half(bounds, members, axis, cut), extent, middle)
                    &&& right.grown(bounds, upper_half(bounds, members, axis, cut), extent, middle)
                };
            let lower = lower_half(bounds, members, axis, cut);
            let upper = upper_half(bounds, members, axis, cut);
            if left.holds(t) {
                lemma_grown_holds_only_members(*left, bounds, lower, extent, middle, t);
                members.lemma_filter_contains_rev(below(bounds, axis, cut), t);
            } else {
                lemma_grown_holds_only_members(*right, bounds, upper, extent, middle, t);
                members.lemma_filter_contains_rev(above(bounds, axis, cut), t);
            }
        },
    }
}

/// What a walk finds is a hit: the triangle is held in the tree, and
/// `hit_triangle` gave the distance for it.
pub proof fn lemma_walk_finds_a_hit<B: Fn(Box3) -> Option<Dist>, T: Fn(usize) -> Option<Dist>>(
    tree: Split,
    hit_box: B,
    hit_triangle: T,
    found: Found,
)
    requires
        tree.walked(hit_box, hit_triangle, Some(found)),
    ensures
        tree.holds(found.triangle),
        hit_triangle.ensures((found.triangle,), Some(found.distance)),
    decreases tree,
{
    match tree {
        Split::Leaf { triangles } => {
            let hits = choose|hits: Seq<Option<Dist>>| #[trigger]
                scanned(hit_triangle, triangles@, hits) && nearest(
                    triangles@,
                    hits,
                    Some(found),
                );
            let i = choose|i: int| #[trigger]
                meets_first(hits, i, None, None) && found.triangle == triangles@[i]
                    && found.distance == hits[i].unwrap();
            assert(hit_triangle.ensures((triangles@[i],), hits[i]));
        },
        Split::Node { left, left_box, right, right_box } => {
            if left.walked(hit_box, hit_triangle, Some(found)) {
                lemma_walk_finds_a_hit(*left, hit_box, hit_triangle, found);
            } else {
                lemma_walk_finds_a_hit(*right, hit_box, hit_triangle, found);
            }
        },
    }
}

/// A walk that finds nothing has skipped nothing, as long as the boxes are
/// safe. Here `box_hit` and `triangle_hit` say what the two functions give,
/// and a box is safe if a ray that misses it hits no triangle beneath it.
/// Then no triangle of the tree is hit.
pub proof fn lemma_walk_skips_no_hit<B: Fn(Box3) -> Option<Dist>, T: Fn(usize) -> Option<Dist>>(
    tree: Split,
    hit_box: B,
    hit_triangle: T,
    box_hit: spec_fn(Box3) -> Option<Dist>,
    triangle_hit: spec_fn(usize) -> Option<Dist>,
    t: usize,
)
    requires
        forall|b: Box3, d: Option<Dist>| hit_box.ensures((b,), d) ==> d == box_hit(b),
        forall|t: usize, d: Option<Dist>| hit_triangle.ensures((t,), d) ==> d == triangle_hit(t),
        tree.safe(box_hit, triangle_hit),
        tree.walked(hit_box, hit_triangle, None),
        tree.holds(t),
    ensures
        triangle_hit(t).is_none(),
    decreases tree,
{
    match tree {
        Split::Leaf { triangles } => {
            let hits = choose|hits: Seq<Option<Dist>>| #[trigger]
                scanned(hit_triangle, triangles@, hits) && nearest(triangles@, hits, None);
            let k = choose|k: int| 0 <= k < triangles@.len() && triangles@[k] == t;
            assert(triangles@[k] == t);
            assert(hit_triangle.ensures((t,), hits[k]));
            assert(hits[k] == triangle_hit(t));
            assert(!eligible(hits, k, None, None));
        },
        Split::Node { left, left_box, right, right_box } => {
            let found: Option<Found> = None;
            let (l, r) = choose|l: Option<Dist>, r: Option<Dist>|
                {
                    &&& hit_box.ensures((left_box,), l)
                    &&& hit_box.ensures((right_box,), r)
                    &&& match #[trigger] visit_of(l, r) {
                        Visit::Neither => found.is_none(),
                        Visit::Only { side: Side::Left } => left.walked(
                            hit_box,
                            hit_triangle,
                            found,
                        ),
                        Visit::Only { side: Side::Right } => right.walked(
                            hit_box,
                            hit_triangle,
                            found,
                        ),
                        Visit::Both { first: Side::Left } => {
                            ||| found.is_some() && left.walked(hit_box, hit_triangle, found)
                            ||| left.walked(hit_box, hit_triangle, None) && right.walked(
                                hit_box,
                                hit_triangle,
                                found,
                            )
                        },
                        Visit::Both { first: Side::Right } => {
                            ||| found.is_some() && right.walked(hit_box, hit_triangle, found)
                            ||| right.walked(hit_box, hit_triangle, None) && left.walked(
                                hit_box,
                                hit_triangle,
                                found,
                            )
                        },
                    }
                };
            assert(l == box_hit(left_box) && r == box_hit(right_box));
            if left.holds(t) && (l.is_some() || !right.holds(t)) {
                if l.is_some() {
                    lemma_walk_skips_no_hit(*left, hit_box, hit_triangle, box_hit, triangle_hit, t);
                }
            } else {
                assert(right.holds(t));
                if r.is_some() {
                    lemma_walk_skips_no_hit(*right, hit_box, hit_triangle, box_hit, triangle_hit, t);
                }
            }
        },
    }
}

/// A walk of a mesh's partition that finds nothing means that the ray hits
/// no triangle of the mesh, as long as the boxes are safe; and what a walk
/// finds is a triangle of the mesh, hit at the distance found.
pub proof fn lemma_walk_answers_for_the_mesh<
    E: Fn(Dist, Dist) -> Dist,
    M: Fn(Dist, Dist) -> Dist,
    B: Fn(Box3) -> Option<Dist>,
    T: Fn(usize) -> Option<Dist>,
>(
    tree: Split,
    bounds: Seq<Box3>,
    members: Seq<usize>,
    extent: E,
    middle: M,
    hit_box: B,
    hit_triangle: T,
    box_hit: spec_fn(Box3) -> Option<Dist>,
    triangle_hit: spec_fn(usize) -> Option<Dist>,
    found: Option<Found>,
)
    requires
        tree.grown(bounds, members, extent, middle),
        listed(bounds, members),
        forall|b: Box3, d: Option<Dist>| hit_box.ensures((b,), d) ==> d == box_hit(b),
        forall|t: usize, d: Option<Dist>| hit_triangle.ensures((t,), d) ==> d == triangle_hit(t),
        tree.safe(box_hit, triangle_hit),
        tree.walked(hit_box, hit_triangle, found),
    ensures
        found.is_none() ==> forall|k: int|
            0 <= k < members.len() ==> triangle_hit(#[trigger] members[k]).is_none(),
        found.is_some() ==> members.contains(found.unwrap().triangle) && triangle_hit(
            found.unwrap().triangle,
        ) == Some(found.unwrap().distance),
{
    if found.is_none() {
        assert forall|k: int| 0 <= k < members.len() implies triangle_hit(
            #[trigger] members[k],
        ).is_none() by {
            lemma_grown_holds_members(tree, bounds, members, extent, middle, k);
            lemma_walk_skips_no_hit(
                tree,
                hit_box,
                hit_triangle,
                box_hit,
                triangle_hit,
                members[k],
            );
        }
    } else {
        let f = found.unwrap();
        lemma_walk_finds_a_hit(tree, hit_box, hit_triangle, f);
        lemma_grown_holds_only_members(tree, bounds, members, extent, middle, f.triangle);
    }
}

} // verus!
