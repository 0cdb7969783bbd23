//! Why one pass over a scene finds the nearest hit.
//!
//! [`Scene::hit`](crate::tracer::Scene::hit) asks every object once, each
//! with the ray cut off at the hit found so far. For objects that answer as
//! a surface does, that single pass ends with the hit nearest to the ray's
//! origin among all the hits of the whole ray. The sky and the sphere answer
//! as a surface does.
use vstd::prelude::*;
use crate::hit::chosen_root;
use crate::material::Background;
use crate::scalar::Scalar;
use crate::tracer::{hits, scanned, shortened, Hit, HitResult, Ray};

verus! {

/// The object answers `ray`, whole or cut off, as a surface does:
/// it answers the whole ray in one way only;
/// a hit lies inside the interval of the ray that was asked;
/// where the ray cut off is hit, the whole ray is hit there and nowhere
/// else;
/// and where the ray cut off hits nothing, the whole ray hits nothing up to
/// the cut.
pub open spec fn well_behaved<H: Hit>(obj: &H, ray: Ray) -> bool {
    &&& forall|r1: Option<HitResult>, r2: Option<HitResult>|
        #[trigger] hits(obj, ray, r1) && #[trigger] hits(obj, ray, r2) ==> r1 == r2
    &&& forall|h: HitResult| #[trigger] hits(obj, ray, Some(h)) ==> ray.accepts(h.at)
    &&& forall|cut: Scalar, h: HitResult|
        cut.at_most(ray.max) && #[trigger] hits(obj, ray.narrowed(cut), Some(h))
            ==> ray.narrowed(cut).accepts(h.at)
    &&& forall|cut: Scalar, h: HitResult, r: Option<HitResult>|
        cut.at_most(ray.max) && #[trigger] hits(obj, ray.narrowed(cut), Some(h)) && #[trigger] hits(
            obj,
            ray,
            r,
        ) ==> r == Some(h)
    &&& forall|cut: Scalar, h: HitResult|
        cut.at_most(ray.max) && #[trigger] hits(obj, ray.narrowed(cut), None) && #[trigger] hits(
            obj,
            ray,
            Some(h),
        ) ==> !h.at.at_most(cut)
}

/// `found` is the nearest hit of `ray` among the first `n` objects: it lies
/// inside the ray's interval, it is the only answer that the object it names
/// gives to the whole ray, and no hit of any of those objects lies nearer.
/// Without a hit, none of them is hit at all.
pub open spec fn nearest<H: Hit>(
    objects: Seq<H>,
    ray: Ray,
    n: int,
    found: Option<(HitResult, int)>,
) -> bool {
    match found {
        Some((best, i)) => {
            &&& 0 <= i < n
            &&& ray.accepts(best.at)
            &&& forall|r: Option<HitResult>| #[trigger] hits(&objects[i], ray, r) ==> r == Some(best)
            &&& forall|j: int, h: HitResult|
                0 <= j < n && #[trigger] hits(&objects[j], ray, Some(h)) ==> best.at.at_most(h.at)
        },
        None => forall|j: int, h: HitResult|
            0 <= j < n ==> !#[trigger] hits(&objects[j], ray, Some(h)),
    }
}

/// A scan of well-behaved objects ends with the nearest hit of the ray.
/// Where two objects are hit equally near, the one added later is named.
pub proof fn lemma_scan_finds_nearest<H: Hit>(
    objects: Seq<H>,
    ray: Ray,
    n: int,
    found: Option<(HitResult, int)>,
)
    requires
        0 <= n <= objects.len(),
        forall|i: int| 0 <= i < n ==> well_behaved(#[trigger] &objects[i], ray),
        scanned(objects, ray, n, found),
    ensures
        nearest(objects, ray, n, found),
    decreases n,
{
    if n > 0 {
        let (before, r) = choose|before: Option<(HitResult, int)>, r: Option<HitResult>|
            {
                &&& scanned(objects, ray, n - 1, before)
                &&& #[trigger] hits(&objects[n - 1], shortened(ray, before), r)
                &&& found == match r {
                    Some(h) => Some((h, n - 1)),
                    None => before,
                }
            };
        lemma_scan_finds_nearest(objects, ray, n - 1, before);
        let last = &objects[n - 1];
        let asked = shortened(ray, before);
        assert(well_behaved(last, ray));
        match before {
            None => {
                assert(asked == ray);
                match r {
                    Some(h) => {
                        assert forall|j: int, other: HitResult|
                            0 <= j < n && #[trigger] hits(
                                &objects[j],
                                ray,
                                Some(other),
                            ) implies h.at.at_most(other.at) by {
                            if j == n - 1 {
                                assert(Some(other) == r);
                            }
                        }
                    },
                    None => {
                        assert forall|j: int, other: HitResult| 0 <= j < n implies !#[trigger] hits(
                            &objects[j],
                            ray,
                            Some(other),
                        ) by {
                            if j == n - 1 && hits(&objects[j], ray, Some(other)) {
                                assert(Some(other) == r);
                            }
                        }
                    },
                }
            },
            Some((best, i)) => {
                assert(asked == ray.narrowed(best.at));
                assert(best.at.at_most(ray.max));
                match r {
                    Some(h) => {
                        assert(asked.accepts(h.at));
                        assert forall|j: int, other: HitResult|
                            0 <= j < n && #[trigger] hits(
                                &objects[j],
                                ray,
                                Some(other),
                            ) implies h.at.at_most(other.at) by {
                            if j == n - 1 {
                                assert(Some(other) == Some(h));
                            } else {
                                assert(best.at.at_most(other.at));
                            }
                        }
                    },
                    None => {
                        assert forall|j: int, other: HitResult|
                            0 <= j < n && #[trigger] hits(
                                &objects[j],
                                ray,
                                Some(other),
                            ) implies best.at.at_most(other.at) by {
                            if j == n - 1 {
                                assert(ray.accepts(other.at));
                                assert(!other.at.at_most(best.at));
                            }
                        }
                    },
                }
            },
        }
    }
}

/// An object that answers every ray as the sky does is well-behaved, for a
/// ray whose lower limit is a number.
pub proof fn lemma_sky_is_well_behaved<H: Hit>(obj: &H, ray: Ray)
    requires
        !ray.min.nan(),
        forall|asked: Ray, r: Option<HitResult>| #[trigger]
            hits(obj, asked, r) ==> r == Background::hit_model(asked),
    ensures
        well_behaved(obj, ray),
{
    assert forall|cut: Scalar, h: HitResult, r: Option<HitResult>|
        cut.at_most(ray.max) && #[trigger] hits(obj, ray.narrowed(cut), Some(h)) && #[trigger] hits(
            obj,
            ray,
            r,
        ) implies r == Some(h) by {
        assert(ray.narrowed(cut) == ray);
    }
}

/// An object that answers as a sphere does is well-behaved: one whose hits
/// lie at the solution chosen for the ray that was asked, where the
/// solutions do not depend on the ray's interval and the far one is not
/// below the near one. `surface` gives the hit at a solution.
pub proof fn lemma_sphere_is_well_behaved<H: Hit>(
    obj: &H,
    ray: Ray,
    discriminant: Scalar,
    near: Scalar,
    far: Scalar,
    surface: spec_fn(Scalar) -> HitResult,
)
    requires
        !far.below(near),
        forall|t: Scalar| #[trigger] surface(t).at == t,
        forall|cut: Scalar, r: Option<HitResult>| #[trigger]
            hits(obj, ray.narrowed(cut), r) ==> r == match chosen_root(
                ray.narrowed(cut),
                discriminant,
                near,
                far,
            ) {
                Some(t) => Some(surface(t)),
                None => None,
            },
    ensures
        well_behaved(obj, ray),
{
    assert(ray.narrowed(ray.max) == ray);
    assert forall|cut: Scalar, h: HitResult, r: Option<HitResult>|
        cut.at_most(ray.max) && #[trigger] hits(obj, ray.narrowed(cut), Some(h)) && #[trigger] hits(
            obj,
            ray,
            r,
        ) implies r == Some(h) by {
        let t = chosen_root(ray.narrowed(cut), discriminant, near, far).unwrap();
        assert(h == surface(t));
        assert(chosen_root(ray, discriminant, near, far) == Some(t));
    }
}

} // verus!
