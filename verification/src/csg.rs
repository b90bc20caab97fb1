//! Boolean combination of two convex solids along one ray.
//!
//! Each operand is crossed by the ray in at most one span. The combinators
//! take the two spans and give the span of the combined solid that the ray
//! sees first, together with the operand whose surface bounds it there.

use vstd::prelude::*;
use crate::span::{Dist, Span, nearer, farther};

verus! {

/// One of the two solids that a combinator joins.
#[derive(Clone, Copy, Debug, PartialEq, Eq, Structural)]
pub enum Operand {
    First,
    Second,
}

/// What a ray sees of a combined solid: the span, and the operand whose
/// surface the ray meets at the span's entry.
#[derive(Clone, Copy, Debug, PartialEq, Eq, Structural)]
pub struct Visible {
    pub span: Span,
    pub surface: Operand,
}

/// Two spans that share no point: the one that is entered first is left
/// before the other is entered.
pub open spec fn apart(a: Span, b: Span) -> bool {
    if a.entry < b.entry {
        a.exit < b.entry
    } else {
        b.exit < a.entry
    }
}

/// The common part of two solids along a ray. There is none unless both are
/// hit and their spans touch; then it runs from the later entry to the
/// earlier exit, and the operand that is entered later supplies the surface.
pub open spec fn common(a: Option<Span>, b: Option<Span>) -> Option<Visible> {
    match (a, b) {
        (Some(a), Some(b)) => if apart(a, b) {
            None
        } else {
            Some(
                Visible {
                    span: Span { entry: farther(a.entry, b.entry), exit: nearer(a.exit, b.exit) },
                    surface: if a.entry < b.entry { Operand::Second } else { Operand::First },
                },
            )
        },
        _ => None,
    }
}

/// What is left of the first solid once the second is carved out of it, as
/// far as the ray sees it first.
///
/// Where the second solid is missed, or lies wholly before the first, the
/// first solid's span stands. Where the first solid is entered before the
/// second, the span ends where the first solid ends or the second begins.
/// Otherwise the ray enters inside the carved hole and the span begins where
/// the second solid is left, on the second solid's surface.
pub open spec fn remainder(a: Option<Span>, b: Option<Span>) -> Option<Visible> {
    match a {
        None => None,
        Some(a) => match b {
            None => Some(Visible { span: a, surface: Operand::First }),
            Some(b) => if a.entry < b.entry {
                Some(
                    Visible {
                        span: Span { entry: a.entry, exit: nearer(a.exit, b.entry) },
                        surface: Operand::First,
                    },
                )
            } else if b.exit < a.entry {
                Some(Visible { span: a, surface: Operand::First })
            } else {
                Some(
                    Visible {
                        span: Span { entry: b.exit, exit: a.exit },
                        surface: Operand::Second,
                    },
                )
            },
        },
    }
}

fn min_dist(a: Dist, b: Dist) -> (m: Dist)
    ensures
        m == nearer(a, b),
{
    if b < a { b } else { a }
}

/// Combines the spans of the two operands of an intersection.
pub fn intersection(a: Option<Span>, b: Option<Span>) -> (seen: Option<Visible>)
    ensures
        seen == common(a, b),
{
    match (a, b) {
        (Some(a), Some(b)) => {
            let exit = min_dist(a.exit, b.exit);
            if a.entry < b.entry {
                if a.exit < b.entry {
                    None
                } else {
                    Some(Visible { span: Span { entry: b.entry, exit }, surface: Operand::Second })
                }
            } else {
                if b.exit < a.entry {
                    None
                } else {
                    Some(Visible { span: Span { entry: a.entry, exit }, surface: Operand::First })
                }
            }
        },
        _ => None,
    }
}

/// Combines the spans of the two operands of a difference, the first minus
/// the second.
pub fn difference(a: Option<Span>, b: Option<Span>) -> (seen: Option<Visible>)
    ensures
        seen == remainder(a, b),
{
    match a {
        None => None,
        Some(a) => match b {
            None => Some(Visible { span: a, surface: Operand::First }),
            Some(b) => {
                if a.entry < b.entry {
                    let exit = min_dist(a.exit, b.entry);
                    Some(Visible { span: Span { entry: a.entry, exit }, surface: Operand::First })
                } else if b.exit < a.entry {
                    Some(Visible { span: a, surface: Operand::First })
                } else {
                    Some(
                        Visible {
                            span: Span { entry: b.exit, exit: a.exit },
                            surface: Operand::Second,
                        },
                    )
                }
            },
        },
    }
}

/// An intersection is hit only where both operands are hit.
pub proof fn lemma_common_needs_both(a: Option<Span>, b: Option<Span>)
    requires
        a.is_none() || b.is_none(),
    ensures
        common(a, b).is_none(),
{
}

/// Two solids that a ray crosses in spans without a common point have no
/// intersection along that ray.
pub proof fn lemma_common_of_separate_is_empty(a: Span, b: Span)
    requires
        a.ordered(),
        b.ordered(),
        a.exit < b.entry || b.exit < a.entry,
    ensures
        common(Some(a), Some(b)).is_none(),
{
}

/// The span of an intersection holds exactly the points that lie on both
/// operands' spans.
pub proof fn lemma_common_is_overlap(a: Span, b: Span, t: int)
    requires
        a.ordered(),
        b.ordered(),
    ensures
        (match common(Some(a), Some(b)) {
            Some(seen) => seen.span.covers(t) <==> a.covers(t) && b.covers(t),
            None => !(a.covers(t) && b.covers(t)),
        }),
{
}

/// The span of an intersection, where there is one, is ordered.
pub proof fn lemma_common_is_ordered(a: Span, b: Span)
    requires
        a.ordered(),
        b.ordered(),
    ensures
        common(Some(a), Some(b)).is_some() ==> common(Some(a), Some(b)).unwrap().span.ordered(),
{
}

/// Swapping the operands of an intersection leaves its span as it is.
pub proof fn lemma_common_span_is_symmetric(a: Span, b: Span)
    requires
        a.ordered(),
        b.ordered(),
    ensures
        common(Some(a), Some(b)).is_some() <==> common(Some(b), Some(a)).is_some(),
        common(Some(a), Some(b)).is_some() ==> common(Some(a), Some(b)).unwrap().span == common(
            Some(b),
            Some(a),
        ).unwrap().span,
{
}

/// A difference is hit exactly when its first operand is hit.
pub proof fn lemma_remainder_hit_iff_first_hit(a: Option<Span>, b: Option<Span>)
    ensures
        remainder(a, b).is_some() <==> a.is_some(),
{
}

/// Every point of a difference's span lies on the first operand's span and
/// not strictly inside the second's.
pub proof fn lemma_remainder_avoids_second(a: Span, b: Span, t: int)
    requires
        a.ordered(),
        b.ordered(),
        remainder(Some(a), Some(b)).unwrap().span.covers(t),
    ensures
        a.covers(t),
        !b.encloses(t),
{
}

/// What the ray crosses of the first operand before a difference's span
/// begins is hidden in the second operand.
pub proof fn lemma_remainder_begins_at_first_visible(a: Span, b: Span, t: int)
    requires
        a.ordered(),
        b.ordered(),
        a.covers(t),
        t < remainder(Some(a), Some(b)).unwrap().span.entry,
    ensures
        b.entry <= t < b.exit,
{
}

} // verus!
