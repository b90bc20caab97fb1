//! The recursive tracer: which object a ray meets first, which lights reach
//! the point where it does, and how reflections are followed until the depth
//! is used up.
//!
//! The tracer is generic in what a ray and a colour are. It decides and
//! recurses; the arithmetic of the scene comes from the caller as functions.

use vstd::prelude::*;
use crate::span::Dist;

verus! {

/// Whether a distance lies in the range that a ray is searched on. A bound
/// that is absent does not limit the range; a bound that is present belongs
/// to it.
pub open spec fn within(d: Dist, t_min: Option<Dist>, t_max: Option<Dist>) -> bool {
    &&& t_min.is_some() ==> t_min.unwrap() <= d
    &&& t_max.is_some() ==> d <= t_max.unwrap()
}

/// Whether object `i` is hit at a distance in the range.
pub open spec fn eligible(
    hits: Seq<Option<Dist>>,
    i: int,
    t_min: Option<Dist>,
    t_max: Option<Dist>,
) -> bool {
    &&& 0 <= i < hits.len()
    &&& hits[i].is_some()
    &&& within(hits[i].unwrap(), t_min, t_max)
}

/// Whether object `i` is the one that the ray meets first in the range: no
/// eligible object is nearer, and none that stands before it in the scene is
/// as near.
pub open spec fn meets_first(
    hits: Seq<Option<Dist>>,
    i: int,
    t_min: Option<Dist>,
    t_max: Option<Dist>,
) -> bool {
    &&& eligible(hits, i, t_min, t_max)
    &&& forall|j: int| #[trigger]
        eligible(hits, j, t_min, t_max) ==> hits[i].unwrap() <= hits[j].unwrap()
    &&& forall|j: int| #[trigger]
        eligible(hits, j, t_min, t_max) && j < i ==> hits[i].unwrap() < hits[j].unwrap()
}

/// Whether `best` answers rightly which object the ray meets first in the
/// range: the object that does, or nothing where no object is eligible.
pub open spec fn answers(
    hits: Seq<Option<Dist>>,
    best: Option<usize>,
    t_min: Option<Dist>,
    t_max: Option<Dist>,
) -> bool {
    match best {
        Some(i) => meets_first(hits, i as int, t_min, t_max),
        None => forall|j: int| !#[trigger] eligible(hits, j, t_min, t_max),
    }
}

/// Finds the object that a ray meets first. `hits` gives, for each object of
/// the scene in order, the distance at which the ray enters it, if it does.
pub fn intersect(hits: &Vec<Option<Dist>>, t_min: Option<Dist>, t_max: Option<Dist>) -> (best:
    Option<usize>)
    ensures
        answers(hits@, best, t_min, t_max),
{
    let mut best: Option<usize> = None;
    let mut k: usize = 0;
    while k < hits.len()
        invariant
            k <= hits.len(),
            match best {
                Some(i) => i < k && meets_first(hits@.take(k as int), i as int, t_min, t_max),
                None => forall|j: int| !#[trigger] eligible(hits@.take(k as int), j, t_min, t_max),
            },
        decreases hits.len() - k,
    {
        let ghost before = hits@.take(k as int);
        let ghost after = hits@.take(k as int + 1);
        proof {
            assert forall|j: int| 0 <= j < k implies #[trigger] after[j] == before[j] by {}
            assert forall|j: int| j < k implies (#[trigger] eligible(after, j, t_min, t_max)
                <==> eligible(before, j, t_min, t_max)) by {}
        }
        match hits[k] {
            None => {},
            Some(d) => {
                let above = match t_min {
                    None => true,
                    Some(lo) => d >= lo,
                };
                let below = match t_max {
                    None => true,
                    Some(hi) => d <= hi,
                };
                let closer = match best {
                    None => true,
                    Some(i) => match hits[i] {
                        Some(b) => d < b,
                        None => false,
                    },
                };
                if above && below && closer {
                    best = Some(k);
                }
            },
        }
        k += 1;
        proof {
            assert(hits@.take(k as int) == after);
            match best {
                Some(i) => {
                    assert(eligible(after, i as int, t_min, t_max));
                },
                None => {},
            }
        }
    }
    proof {
        assert(hits@.take(k as int) == hits@);
    }
    best
}

/// At most one object is the one met first, so the order of the scene
/// decides nothing but which of several equally near objects is taken.
pub proof fn lemma_meets_first_is_unique(
    hits: Seq<Option<Dist>>,
    i: int,
    j: int,
    t_min: Option<Dist>,
    t_max: Option<Dist>,
)
    requires
        meets_first(hits, i, t_min, t_max),
        meets_first(hits, j, t_min, t_max),
    ensures
        i == j,
{
}

/// Whether something stands between a point and a light: an object hit at or
/// beyond `bias` and before `reach`, the distance of the light itself.
pub open spec fn blocked(hits: Seq<Option<Dist>>, bias: Dist, reach: Dist) -> bool {
    exists|j: int|
        0 <= j < hits.len() && (#[trigger] hits[j]).is_some() && bias <= hits[j].unwrap() < reach
}

/// Tests a shadow ray. `hits` gives the distance at which the ray from the
/// lit point toward the light enters each object of the scene.
pub fn occluded(hits: &Vec<Option<Dist>>, bias: Dist, reach: Dist) -> (shadow: bool)
    ensures
        shadow == blocked(hits@, bias, reach),
{
    match intersect(hits, Some(bias), Some(reach)) {
        Some(i) => {
            match hits[i] {
                Some(d) => {
                    proof {
                        if !(d < reach) && blocked(hits@, bias, reach) {
                            let j = choose|j: int|
                                0 <= j < hits@.len() && (#[trigger] hits@[j]).is_some() && bias
                                    <= hits@[j].unwrap() < reach;
                            assert(eligible(hits@, j, Some(bias), Some(reach)));
                        }
                    }
                    d < reach
                },
                None => false,
            }
        },
        None => {
            proof {
                if blocked(hits@, bias, reach) {
                    let j = choose|j: int|
                        0 <= j < hits@.len() && (#[trigger] hits@[j]).is_some() && bias
                            <= hits@[j].unwrap() < reach;
                    assert(eligible(hits@, j, Some(bias), Some(reach)));
                }
            }
            false
        },
    }
}

/// The kinds of light. A point light has a place in the scene and can be
/// hidden from a surface; ambient light has none and reaches everything.
#[derive(Clone, Copy, Debug, PartialEq, Eq, Structural)]
pub enum LightKind {
    Point,
    Ambient,
}

impl LightKind {
    /// Whether a shadow ray is cast toward a light of this kind.
    pub fn casts_shadow(&self) -> (yes: bool)
        ensures
            yes == (*self == LightKind::Point),
    {
        match self {
            LightKind::Point => true,
            LightKind::Ambient => false,
        }
    }
}

/// Whether a surface shows a highlight: its specular exponent is not zero.
pub fn has_highlight(specular: u32) -> (yes: bool)
    ensures
        yes == (specular > 0),
{
    specular > 0
}

/// Whether `reached` says rightly that light `l` reaches the point where
/// `ray` meets object `object`. Ambient light reaches every point. A point
/// light reaches it unless the ray that `toward` gives from the point to the
/// light is blocked.
pub open spec fn reaches<R, K: Fn(R) -> Vec<Option<Dist>>, W: Fn(R, usize, usize) -> R>(
    cast: K,
    toward: W,
    ray: R,
    object: usize,
    l: usize,
    kind: LightKind,
    bias: Dist,
    reach: Dist,
    reached: bool,
) -> bool {
    match kind {
        LightKind::Ambient => reached,
        LightKind::Point => exists|shadow_ray: R, hits: Vec<Option<Dist>>|
            {
                &&& #[trigger] toward.ensures((ray, object, l), shadow_ray)
                &&& #[trigger] cast.ensures((shadow_ray,), hits)
                &&& reached == !blocked(hits@, bias, reach)
            },
    }
}

/// Whether `lit` says of every light in turn whether it reaches the point
/// where `ray` meets object `object`.
pub open spec fn lighting<R, K: Fn(R) -> Vec<Option<Dist>>, W: Fn(R, usize, usize) -> R>(
    cast: K,
    toward: W,
    ray: R,
    object: usize,
    lights: Seq<LightKind>,
    bias: Dist,
    reach: Dist,
    lit: Seq<bool>,
) -> bool {
    &&& lit.len() == lights.len()
    &&& forall|l: int|
        0 <= l < lights.len() ==> reaches(
            cast,
            toward,
            ray,
            object,
            l as usize,
            lights[l],
            bias,
            reach,
            #[trigger] lit[l],
        )
}

/// Whether a ray meets nothing in the range.
pub open spec fn misses<R, K: Fn(R) -> Vec<Option<Dist>>>(
    cast: K,
    ray: R,
    t_min: Option<Dist>,
    t_max: Option<Dist>,
) -> bool {
    exists|hits: Vec<Option<Dist>>| #[trigger]
        cast.ensures((ray,), hits) && forall|j: int| !#[trigger] eligible(hits@, j, t_min, t_max)
}

/// Whether a ray meets object `object` first in the range and `colour` is
/// the colour of the surface there, shaded by the lights that reach it.
pub open spec fn surface<
    R,
    C,
    K: Fn(R) -> Vec<Option<Dist>>,
    W: Fn(R, usize, usize) -> R,
    S: Fn(R, usize, Vec<bool>) -> C,
>(
    cast: K,
    toward: W,
    shade: S,
    ray: R,
    t_min: Option<Dist>,
    t_max: Option<Dist>,
    lights: Seq<LightKind>,
    bias: Dist,
    reach: Dist,
    object: usize,
    colour: C,
) -> bool {
    exists|hits: Vec<Option<Dist>>, lit: Vec<bool>|
        {
            &&& #[trigger] cast.ensures((ray,), hits)
            &&& meets_first(hits@, object as int, t_min, t_max)
            &&& lighting(cast, toward, ray, object, lights, bias, reach, lit@)
            &&& #[trigger] shade.ensures((ray, object, lit), colour)
        }
}

/// Whether `result` is the colour that a ray of depth `depth` brings back.
///
/// A ray of depth zero brings nothing, and so does a ray that meets nothing
/// in the range. Otherwise the ray brings the shaded colour of the surface
/// it meets first. Where `mirror` says that the object reflects, that colour
/// is blended by `blend` with what the ray that `bounce` gives brings back,
/// traced from `bias` on without a far bound and with one less of depth.
pub open spec fn traced<
    R,
    C,
    K: Fn(R) -> Vec<Option<Dist>>,
    W: Fn(R, usize, usize) -> R,
    S: Fn(R, usize, Vec<bool>) -> C,
    M: Fn(usize) -> bool,
    B: Fn(R, usize) -> R,
    L: Fn(C, usize, Option<C>) -> C,
>(
    cast: K,
    toward: W,
    shade: S,
    mirror: M,
    bounce: B,
    blend: L,
    ray: R,
    t_min: Option<Dist>,
    t_max: Option<Dist>,
    depth: u16,
    lights: Seq<LightKind>,
    bias: Dist,
    reach: Dist,
    result: Option<C>,
) -> bool
    decreases depth,
{
    if depth == 0 {
        result.is_none()
    } else {
        ||| result.is_none() && misses(cast, ray, t_min, t_max)
        ||| exists|object: usize, colour: C, reflective: bool|
            {
                &&& #[trigger] surface(
                    cast,
                    toward,
                    shade,
                    ray,
                    t_min,
                    t_max,
                    lights,
                    bias,
                    reach,
                    object,
                    colour,
                )
                &&& #[trigger] mirror.ensures((object,), reflective)
                &&& if reflective {
                    exists|next: R, reflected: Option<C>, out: C|
                        {
                            &&& #[trigger] bounce.ensures((ray, object), next)
                            &&& traced(
                                cast,
                                toward,
                                shade,
                                mirror,
                                bounce,
                                blend,
                                next,
                                Some(bias),
                                None,
                                (depth - 1) as u16,
                                lights,
                                bias,
                                reach,
                                reflected,
                            )
                            &&& #[trigger] blend.ensures((colour, object, reflected), out)
                            &&& result == Some(out)
                        }
                } else {
                    result == Some(colour)
                }
            }
    }
}

/// Tests which lights reach the point where `ray` meets object `object`.
fn light_up<R: Copy, K: Fn(R) -> Vec<Option<Dist>>, W: Fn(R, usize, usize) -> R>(
    cast: &K,
    toward: &W,
    ray: R,
    object: usize,
    lights: &Vec<LightKind>,
    bias: Dist,
    reach: Dist,
) -> (lit: Vec<bool>)
    requires
        forall|r: R| cast.requires((r,)),
        forall|r: R, i: usize, l: usize| toward.requires((r, i, l)),
    ensures
        lighting(*cast, *toward, ray, object, lights@, bias, reach, lit@),
{
    let mut lit: Vec<bool> = Vec::new();
    let mut l: usize = 0;
    while l < lights.len()
        invariant
            l <= lights.len(),
            lit@.len() == l,
            forall|r: R| cast.requires((r,)),
            forall|r: R, i: usize, l: usize| toward.requires((r, i, l)),
            forall|m: int|
                0 <= m < l ==> reaches(
                    *cast,
                    *toward,
                    ray,
                    object,
                    m as usize,
                    lights@[m],
                    bias,
                    reach,
                    #[trigger] lit@[m],
                ),
        decreases lights.len() - l,
    {
        let reached = if lights[l].casts_shadow() {
            let shadow_ray = toward(ray, object, l);
            let hits = cast(shadow_ray);
            !occluded(&hits, bias, reach)
        } else {
            true
        };
        lit.push(reached);
        l += 1;
    }
    lit
}

/// Traces a ray through the scene and brings back its colour, if it has one.
///
/// The scene's arithmetic comes as functions. `cast` gives, for each object
/// in order, the distance at which a ray enters it. `toward` gives the ray
/// from the point where a ray meets an object to a light, scaled so that the
/// light stands at distance `reach`. `shade` gives the colour of the surface
/// from the lights that reach it. `mirror` says whether an object reflects,
/// `bounce` gives the reflected ray, and `blend` joins the surface's colour
/// with what the reflected ray brought back.
pub fn ray_trace<
    R: Copy,
    C,
    K: Fn(R) -> Vec<Option<Dist>>,
    W: Fn(R, usize, usize) -> R,
    S: Fn(R, usize, Vec<bool>) -> C,
    M: Fn(usize) -> bool,
    B: Fn(R, usize) -> R,
    L: Fn(C, usize, Option<C>) -> C,
>(
    cast: &K,
    toward: &W,
    shade: &S,
    mirror: &M,
    bounce: &B,
    blend: &L,
    ray: R,
    t_min: Option<Dist>,
    t_max: Option<Dist>,
    depth: u16,
    lights: &Vec<LightKind>,
    bias: Dist,
    reach: Dist,
) -> (result: Option<C>)
    requires
        forall|r: R| cast.requires((r,)),
        forall|r: R, i: usize, l: usize| toward.requires((r, i, l)),
        forall|r: R, i: usize, lit: Vec<bool>| shade.requires((r, i, lit)),
        forall|i: usize| mirror.requires((i,)),
        forall|r: R, i: usize| bounce.requires((r, i)),
        forall|c: C, i: usize, reflected: Option<C>| blend.requires((c, i, reflected)),
    ensures
        traced(
            *cast,
            *toward,
            *shade,
            *mirror,
            *bounce,
            *blend,
            ray,
            t_min,
            t_max,
            depth,
            lights@,
            bias,
            reach,
            result,
        ),
    decreases depth,
{
    if depth == 0 {
        return None;
    }
    let hits = cast(ray);
    match intersect(&hits, t_min, t_max) {
        None => {
            proof {
                assert(misses(*cast, ray, t_min, t_max));
            }
            None
        },
        Some(object) => {
            let lit = light_up(cast, toward, ray, object, lights, bias, reach);
            let colour = shade(ray, object, lit);
            proof {
                assert(surface(
                    *cast,
                    *toward,
                    *shade,
                    ray,
                    t_min,
                    t_max,
                    lights@,
                    bias,
                    reach,
                    object,
                    colour,
                ));
            }
            let ghost shaded = colour;
            let reflective = mirror(object);
            if reflective {
                let next = bounce(ray, object);
                let reflected = ray_trace(
                    cast,
                    toward,
                    shade,
                    mirror,
                    bounce,
                    blend,
                    next,
                    Some(bias),
                    None,
                    depth - 1,
                    lights,
                    bias,
                    reach,
                );
                let ghost brought = reflected;
                let out = blend(colour, object, reflected);
                proof {
                    assert(bounce.ensures((ray, object), next));
                    assert(blend.ensures((shaded, object, brought), out));
                    assert(mirror.ensures((object,), reflective));
                }
                Some(out)
            } else {
                proof {
                    assert(mirror.ensures((object,), reflective));
                }
                Some(colour)
            }
        },
    }
}

/// A ray of depth zero brings no colour, whatever the scene.
pub proof fn lemma_depth_zero_is_dark<
    R,
    C,
    K: Fn(R) -> Vec<Option<Dist>>,
    W: Fn(R, usize, usize) -> R,
    S: Fn(R, usize, Vec<bool>) -> C,
    M: Fn(usize) -> bool,
    B: Fn(R, usize) -> R,
    L: Fn(C, usize, Option<C>) -> C,
>(
    cast: K,
    toward: W,
    shade: S,
    mirror: M,
    bounce: B,
    blend: L,
    ray: R,
    t_min: Option<Dist>,
    t_max: Option<Dist>,
    lights: Seq<LightKind>,
    bias: Dist,
    reach: Dist,
    result: Option<C>,
)
    requires
        traced(
            cast,
            toward,
            shade,
            mirror,
            bounce,
            blend,
            ray,
            t_min,
            t_max,
            0,
            lights,
            bias,
            reach,
            result,
        ),
    ensures
        result.is_none(),
{
}

/// With depth one a reflection adds nothing: where the ray meets a
/// reflecting object, the surface's colour is blended with no colour at all.
pub proof fn lemma_single_depth_has_no_reflection<
    R,
    C,
    K: Fn(R) -> Vec<Option<Dist>>,
    W: Fn(R, usize, usize) -> R,
    S: Fn(R, usize, Vec<bool>) -> C,
    M: Fn(usize) -> bool,
    B: Fn(R, usize) -> R,
    L: Fn(C, usize, Option<C>) -> C,
>(
    cast: K,
    toward: W,
    shade: S,
    mirror: M,
    bounce: B,
    blend: L,
    ray: R,
    t_min: Option<Dist>,
    t_max: Option<Dist>,
    lights: Seq<LightKind>,
    bias: Dist,
    reach: Dist,
    result: Option<C>,
)
    requires
        traced(
            cast,
            toward,
            shade,
            mirror,
            bounce,
            blend,
            ray,
            t_min,
            t_max,
            1,
            lights,
            bias,
            reach,
            result,
        ),
        result.is_some(),
    ensures
        (exists|object: usize, colour: C, reflective: bool|
            {
                &&& #[trigger] surface(
                    cast,
                    toward,
                    shade,
                    ray,
                    t_min,
                    t_max,
                    lights,
                    bias,
                    reach,
                    object,
                    colour,
                )
                &&& #[trigger] mirror.ensures((object,), reflective)
                &&& if reflective {
                    blend.ensures((colour, object, None::<C>), result.unwrap())
                } else {
                    result == Some(colour)
                }
            }),
{
    reveal_with_fuel(traced, 2);
    let (object, colour, reflective) = choose|object: usize, colour: C, reflective: bool|
        {
            &&& #[trigger] surface(
                cast,
                toward,
                shade,
                ray,
                t_min,
                t_max,
                lights,
                bias,
                reach,
                object,
                colour,
            )
            &&& #[trigger] mirror.ensures((object,), reflective)
            &&& if reflective {
                exists|next: R, reflected: Option<C>, out: C|
                    {
                        &&& #[trigger] bounce.ensures((ray, object), next)
                        &&& traced(
                            cast,
                            toward,
                            shade,
                            mirror,
                            bounce,
                            blend,
                            next,
                            Some(bias),
                            None,
                            0,
                            lights,
                            bias,
                            reach,
                            reflected,
                        )
                        &&& #[trigger] blend.ensures((colour, object, reflected), out)
                        &&& result == Some(out)
                    }
            } else {
                result == Some(colour)
            }
        };
    if reflective {
        let (next, reflected, out) = choose|next: R, reflected: Option<C>, out: C|
            {
                &&& #[trigger] bounce.ensures((ray, object), next)
                &&& traced(
                    cast,
                    toward,
                    shade,
                    mirror,
                    bounce,
                    blend,
                    next,
                    Some(bias),
                    None,
                    0,
                    lights,
                    bias,
                    reach,
                    reflected,
                )
                &&& #[trigger] blend.ensures((colour, object, reflected), out)
                &&& result == Some(out)
            };
        assert(reflected.is_none());
    }
}

/// Without objects every ray is dark: a ray for which `cast` can only give
/// an empty list of hits brings no colour, whatever its depth.
pub proof fn lemma_empty_scene_is_dark<
    R,
    C,
    K: Fn(R) -> Vec<Option<Dist>>,
    W: Fn(R, usize, usize) -> R,
    S: Fn(R, usize, Vec<bool>) -> C,
    M: Fn(usize) -> bool,
    B: Fn(R, usize) -> R,
    L: Fn(C, usize, Option<C>) -> C,
>(
    cast: K,
    toward: W,
    shade: S,
    mirror: M,
    bounce: B,
    blend: L,
    ray: R,
    t_min: Option<Dist>,
    t_max: Option<Dist>,
    depth: u16,
    lights: Seq<LightKind>,
    bias: Dist,
    reach: Dist,
    result: Option<C>,
)
    requires
        forall|hits: Vec<Option<Dist>>| cast.ensures((ray,), hits) ==> hits@.len() == 0,
        traced(
            cast,
            toward,
            shade,
            mirror,
            bounce,
            blend,
            ray,
            t_min,
            t_max,
            depth,
            lights,
            bias,
            reach,
            result,
        ),
    ensures
        result.is_none(),
{
}

} // verus!
