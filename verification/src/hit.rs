//! Which solution of a sphere's quadratic a ray accepts.
//!
//! A ray `o + t * d` meets the sphere of centre `c` and radius `r` where
//! `a * t^2 + 2 * h * t + k = 0`, with `a = d . d`, `h = (o - c) . d` and
//! `k = (o - c) . (o - c) - r^2`. Its discriminant is `h^2 - a * k` and its
//! solutions are `(-h - sqrt(disc)) / a`, the near one, and
//! `(-h + sqrt(disc)) / a`, the far one.
use vstd::prelude::*;
use crate::scalar::Scalar;
use crate::tracer::Ray;

verus! {

/// The parameter at which `ray` meets the sphere, if it does: none when the
/// discriminant is below zero; else the near solution if the ray's interval
/// holds it; else the far solution if the interval holds that one.
pub open spec fn chosen_root(ray: Ray, discriminant: Scalar, near: Scalar, far: Scalar) -> Option<
    Scalar,
> {
    if discriminant.below(Scalar { bits: 0 }) {
        None
    } else if ray.accepts(near) {
        Some(near)
    } else if ray.accepts(far) {
        Some(far)
    } else {
        None
    }
}

/// Picks the solution at which `ray` meets the sphere.
pub fn choose_root(ray: &Ray, discriminant: Scalar, near: Scalar, far: Scalar) -> (t: Option<
    Scalar,
>)
    ensures
        t == chosen_root(*ray, discriminant, near, far),
{
    if discriminant.lt(Scalar::zero()) {
        None
    } else if ray.contains(near) {
        Some(near)
    } else if ray.contains(far) {
        Some(far)
    } else {
        None
    }
}

/// The solution that a ray accepts is the smallest one inside its interval:
/// it is one of the two, the interval holds it, and neither solution inside
/// the interval lies below it. No solution is accepted only if the
/// discriminant is negative or the interval holds neither.
pub proof fn lemma_chosen_root_is_least(ray: Ray, discriminant: Scalar, near: Scalar, far: Scalar)
    requires
        !far.below(near),
    ensures
        match chosen_root(ray, discriminant, near, far) {
            Some(t) => {
                &&& t == near || t == far
                &&& ray.accepts(t)
                &&& ray.accepts(near) ==> t.at_most(near)
                &&& ray.accepts(far) ==> t.at_most(far)
            },
            None => discriminant.below(Scalar { bits: 0 }) || (!ray.accepts(near) && !ray.accepts(
                far,
            )),
        },
{
}

} // verus!
