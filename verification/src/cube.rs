//! The box shape: six bounded faces, of which a ray meets at most two.

use vstd::prelude::*;
use crate::span::{Dist, Span};

verus! {

/// The face through which a ray enters a box, and the span inside the box.
#[derive(Clone, Copy, Debug, PartialEq, Eq, Structural)]
pub struct FaceHit {
    pub face: usize,
    pub span: Span,
}

/// The first face at or after `from` that the ray hits, or the number of
/// faces if there is none.
pub open spec fn next_hit(hits: Seq<Option<Dist>>, from: int) -> int
    decreases hits.len() - from,
{
    if from < 0 || from >= hits.len() {
        hits.len() as int
    } else if hits[from].is_some() {
        from
    } else {
        next_hit(hits, from + 1)
    }
}

/// What a ray sees of a box, from the distances at which it hits the faces.
///
/// Only the first two faces hit count. With one, the ray enters and leaves
/// there. With two, it enters through the nearer and leaves through the
/// other; of two equally near, it enters through the one met first.
pub open spec fn seen(hits: Seq<Option<Dist>>) -> Option<FaceHit> {
    let i = next_hit(hits, 0);
    let j = next_hit(hits, i + 1);
    if i >= hits.len() {
        None
    } else if j >= hits.len() {
        Some(
            FaceHit { face: i as usize, span: Span { entry: hits[i].unwrap(), exit: hits[i].unwrap() } },
        )
    } else if hits[j].unwrap() < hits[i].unwrap() {
        Some(
            FaceHit { face: j as usize, span: Span { entry: hits[j].unwrap(), exit: hits[i].unwrap() } },
        )
    } else {
        Some(
            FaceHit { face: i as usize, span: Span { entry: hits[i].unwrap(), exit: hits[j].unwrap() } },
        )
    }
}

/// `next_hit` names the first face hit from `from` on.
pub proof fn lemma_next_hit(hits: Seq<Option<Dist>>, from: int)
    requires
        0 <= from,
    ensures
        from <= next_hit(hits, from) || hits.len() <= from,
        next_hit(hits, from) <= hits.len(),
        next_hit(hits, from) < hits.len() ==> hits[next_hit(hits, from)].is_some(),
        forall|k: int| from <= k < next_hit(hits, from) ==> (#[trigger] hits[k]).is_none(),
    decreases hits.len() - from,
{
    if from < hits.len() && hits[from].is_none() {
        lemma_next_hit(hits, from + 1);
    }
}

/// Scans the faces of a box in order until two are hit.
pub fn intersects(hits: &Vec<Option<Dist>>) -> (hit: Option<FaceHit>)
    ensures
        hit == seen(hits@),
{
    let mut first: Option<(usize, Dist)> = None;
    let mut k: usize = 0;
    while k < hits.len()
        invariant
            k <= hits.len(),
            match first {
                None => next_hit(hits@, 0) == next_hit(hits@, k as int),
                Some((i, d)) => i < k && i == next_hit(hits@, 0) && hits@[i as int] == Some(d)
                    && next_hit(hits@, i + 1) == next_hit(hits@, k as int),
            },
        decreases hits.len() - k,
    {
        match hits[k] {
            None => {},
            Some(d) => {
                match first {
                    None => {
                        first = Some((k, d));
                    },
                    Some((i, e)) => {
                        if d < e {
                            return Some(FaceHit { face: k, span: Span { entry: d, exit: e } });
                        } else {
                            return Some(FaceHit { face: i, span: Span { entry: e, exit: d } });
                        }
                    },
                }
            },
        }
        k += 1;
    }
    match first {
        None => None,
        Some((i, d)) => Some(FaceHit { face: i, span: Span { entry: d, exit: d } }),
    }
}

/// The span that a ray spends in a box is ordered.
pub proof fn lemma_seen_is_ordered(hits: Seq<Option<Dist>>)
    ensures
        seen(hits).is_some() ==> seen(hits).unwrap().span.ordered(),
{
}

} // verus!
