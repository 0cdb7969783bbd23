//! What each kind of surface decides when a ray hits it.
//!
//! A material's answer to a hit is an attenuation and, unless the path ends
//! there, the ray that carries the path on. The functions here make every
//! choice that goes into that answer. The numbers they choose between (dot
//! products, mirrored and bent directions, random samples) are computed by
//! the caller; a number that costs a random draw is asked for through a
//! closure, so that it is drawn only when the choice needs it.
use vstd::prelude::*;
use crate::image::Color;
use crate::linalg::Vec3;
use crate::scalar::{Scalar, INFINITY_BITS, ONE_BITS};
use crate::tracer::{HitResult, Ray};

verus! {

/// The bit pattern of `0.0001`: a scatter whose sum is shorter than this
/// counts as lost to cancellation.
pub const SCATTER_TOLERANCE_BITS: u32 = 0x38d1_b717;

/// The bit pattern of `0.01`: the fuzziness below which a mirror's
/// reflection is perturbed.
pub const FUZZ_LIMIT_BITS: u32 = 0x3c23_d70a;

/// The sky: what a ray meets when nothing else is in its way.
#[derive(Clone, Copy, Debug, PartialEq, Eq, Structural)]
pub struct Background {
    pub color: Color,
}

impl Background {
    /// The sky is hit only by a ray whose interval has no upper limit, one
    /// that ends at positive infinity, and then at that limit, at a point
    /// and with a normal that say nothing.
    pub open spec fn hit_model(ray: Ray) -> Option<HitResult> {
        if ray.max.bits == INFINITY_BITS {
            Some(
                HitResult {
                    intersect: Vec3 {
                        x: Scalar { bits: 0 },
                        y: Scalar { bits: 0 },
                        z: Scalar { bits: 0 },
                    },
                    normal: Vec3 {
                        x: Scalar { bits: 0 },
                        y: Scalar { bits: 0 },
                        z: Scalar { bits: 0 },
                    },
                    at: ray.max,
                },
            )
        } else {
            None
        }
    }

    pub fn hit(&self, ray: &Ray) -> (r: Option<HitResult>)
        ensures
            r == Background::hit_model(*ray),
    {
        if ray.max.to_bits() == INFINITY_BITS {
            Some(HitResult { intersect: Vec3::origin(), normal: Vec3::origin(), at: ray.max })
        } else {
            None
        }
    }

    /// The sky ends every path: it gives the shade of the sky in the ray's
    /// direction and no further ray.
    pub fn bounce(&self, shade: Color) -> (out: (Color, Option<Ray>))
        ensures
            out == (shade, None::<Ray>),
    {
        (shade, None)
    }
}

/// A random scatter off a surface.
#[derive(Clone, Copy, Debug, PartialEq, Eq, Structural)]
pub struct Scatter {
    /// The length of the sum of the normal and a random unit vector.
    pub length: Scalar,
    /// That sum, scaled to unit length.
    pub unit: Vec3,
}

impl Scatter {
    /// The direction of the scatter: `unit`, or the normal itself where the
    /// sum has all but cancelled, its length being below `0.0001`.
    pub open spec fn direction(self, normal: Vec3) -> Vec3 {
        if self.length.below(Scalar { bits: SCATTER_TOLERANCE_BITS }) {
            normal
        } else {
            self.unit
        }
    }

    #[verifier::when_used_as_spec(direction)]
    pub fn choose_direction(self, normal: Vec3) -> (d: Vec3)
        ensures
            d == self.direction(normal),
    {
        if self.length.lt(Scalar { bits: SCATTER_TOLERANCE_BITS }) {
            normal
        } else {
            self.unit
        }
    }
}

/// A matte surface.
#[derive(Clone, Copy, Debug, PartialEq, Eq, Structural)]
pub struct DiffuseMaterial {
    pub color: Color,
}

impl DiffuseMaterial {
    /// The answer of a matte surface to a hit. `facing` is the dot product
    /// of the hit's normal and the ray's direction.
    ///
    /// A hit from behind ends the path in black, and `scatter` is not asked.
    /// A hit from the front gives the surface's color, as it is, and a fresh
    /// ray from the point of the hit along the scatter's direction.
    pub fn bounce<F: FnOnce() -> Scatter>(&self, hit: &HitResult, facing: Scalar, scatter: F) -> (out:
        (Color, Option<Ray>))
        requires
            HitResult::outside(facing) ==> call_requires(scatter, ()),
        ensures
            !HitResult::outside(facing) ==> out.0.is_black() && out.1.is_none(),
            HitResult::outside(facing) ==> out.0 == self.color && exists|s: Scatter| #[trigger]
                call_ensures(scatter, (), s) && out.1 == Some(
                    Ray::fresh(hit.intersect, s.direction(hit.normal)),
                ),
    {
        if !hit.is_outside(facing) {
            return (Color::black(), None);
        }
        let s = scatter();
        (self.color, Some(Ray::new(hit.intersect, s.choose_direction(hit.normal))))
    }
}

/// A mirrored direction with a random perturbation.
#[derive(Clone, Copy, Debug, PartialEq, Eq, Structural)]
pub struct Perturbation {
    /// The mirrored direction plus the fuzziness times a random unit vector.
    pub fuzzy: Vec3,
    /// The dot product of `fuzzy` and the normal.
    pub fuzzy_facing: Scalar,
    /// The scatter with the same random unit vector, should `fuzzy` point
    /// into the surface.
    pub scatter: Scatter,
}

impl Perturbation {
    /// The perturbed direction, or a scatter where that direction does not
    /// point away from the surface.
    pub open spec fn direction(self, normal: Vec3) -> Vec3 {
        if self.fuzzy_facing.at_most(Scalar { bits: 0 }) {
            self.scatter.direction(normal)
        } else {
            self.fuzzy
        }
    }

    #[verifier::when_used_as_spec(direction)]
    pub fn choose_direction(self, normal: Vec3) -> (d: Vec3)
        ensures
            d == self.direction(normal),
    {
        if self.fuzzy_facing.le(Scalar::zero()) {
            self.scatter.choose_direction(normal)
        } else {
            self.fuzzy
        }
    }
}

/// A mirror.
#[derive(Clone, Copy, Debug, PartialEq, Eq, Structural)]
pub struct ReflectiveMaterial {
    pub color: Color,
    pub fuzziness: Scalar,
}

impl ReflectiveMaterial {
    /// Whether this mirror's reflection is perturbed: its fuzziness is below
    /// `0.01`. A mirror with more fuzziness than that reflects exactly.
    pub open spec fn perturbs(&self) -> bool {
        self.fuzziness.below(Scalar { bits: FUZZ_LIMIT_BITS })
    }

    #[verifier::when_used_as_spec(perturbs)]
    pub fn is_perturbed(&self) -> (b: bool)
        ensures
            b == self.perturbs(),
    {
        self.fuzziness.lt(Scalar { bits: FUZZ_LIMIT_BITS })
    }

    /// The answer of a mirror to a hit. `facing` is the dot product of the
    /// hit's normal and the ray's direction, `mirrored` the ray's unit
    /// direction mirrored at the normal.
    ///
    /// A hit from behind ends the path in black. A hit from the front gives
    /// the mirror's color and a fresh ray from the point of the hit: along
    /// `mirrored` for a mirror that does not perturb, and `perturb` is not
    /// asked; else along the direction of the perturbation.
    pub fn bounce<F: FnOnce() -> Perturbation>(
        &self,
        hit: &HitResult,
        facing: Scalar,
        mirrored: Vec3,
        perturb: F,
    ) -> (out: (Color, Option<Ray>))
        requires
            HitResult::outside(facing) && self.perturbs() ==> call_requires(perturb, ()),
        ensures
            !HitResult::outside(facing) ==> out.0.is_black() && out.1.is_none(),
            HitResult::outside(facing) ==> out.0 == self.color,
            HitResult::outside(facing) && !self.perturbs() ==> out.1 == Some(
                Ray::fresh(hit.intersect, mirrored),
            ),
            HitResult::outside(facing) && self.perturbs() ==> exists|p: Perturbation| #[trigger]
                call_ensures(perturb, (), p) && out.1 == Some(
                    Ray::fresh(hit.intersect, p.direction(hit.normal)),
                ),
    {
        if !hit.is_outside(facing) {
            return (Color::black(), None);
        }
        let bounced = if self.is_perturbed() {
            let p = perturb();
            p.choose_direction(hit.normal)
        } else {
            mirrored
        };
        (self.color, Some(Ray::new(hit.intersect, bounced)))
    }
}

/// The side from which a ray meets the boundary of a transparent body.
#[derive(Clone, Copy, Debug, PartialEq, Eq, Structural)]
pub struct Interface {
    /// The cosine of the angle between the ray, reversed, and `normal`.
    pub cos_theta: Scalar,
    /// The index of refraction on the ray's side over that on the far side.
    pub ior_ratio: Scalar,
    /// The normal, turned against the ray.
    pub normal: Vec3,
}

/// Glass and the like: a surface that bends light or mirrors it, and takes
/// nothing from it.
#[derive(Clone, Copy, Debug, PartialEq, Eq, Structural)]
pub struct DielectricMaterial {
    pub ior: Scalar,
}

impl DielectricMaterial {
    /// The interface as the ray sees it. `incidence` is the dot product of
    /// the ray's unit direction and the normal, `inverse_ior` is `1 / ior`.
    ///
    /// A ray against the normal enters the body: the ratio is `1 / ior` and
    /// the normal stands. Any other ray leaves it: the ratio is `ior` and
    /// the normal is reversed.
    pub open spec fn interface(&self, normal: Vec3, incidence: Scalar, inverse_ior: Scalar)
        -> Interface {
        if incidence.below(Scalar { bits: 0 }) {
            Interface { cos_theta: incidence.negated(), ior_ratio: inverse_ior, normal }
        } else {
            Interface { cos_theta: incidence, ior_ratio: self.ior, normal: normal.reversed() }
        }
    }

    #[verifier::when_used_as_spec(interface)]
    pub fn orient(&self, normal: Vec3, incidence: Scalar, inverse_ior: Scalar) -> (side: Interface)
        ensures
            side == self.interface(normal, incidence, inverse_ior),
    {
        if incidence.lt(Scalar::zero()) {
            Interface { cos_theta: incidence.neg(), ior_ratio: inverse_ior, normal }
        } else {
            Interface { cos_theta: incidence, ior_ratio: self.ior, normal: normal.neg() }
        }
    }

    /// No bent ray exists: the ratio times the sine of the angle of
    /// incidence, `grazing`, is above one.
    pub open spec fn total_reflection(grazing: Scalar) -> bool {
        Scalar { bits: ONE_BITS }.below(grazing)
    }

    /// The direction in which the light goes on: mirrored or bent.
    ///
    /// `grazing` is the ratio of the interface times the sine of the angle
    /// of incidence, `reflectance` the share of light that the surface
    /// mirrors at this angle. Under total reflection the light is mirrored
    /// and `draw` is not asked. Else a number is drawn: below the
    /// reflectance the light is mirrored, from there on it is bent.
    pub fn refract<F: FnOnce() -> Scalar>(
        grazing: Scalar,
        reflectance: Scalar,
        mirrored: Vec3,
        bent: Vec3,
        draw: F,
    ) -> (d: Vec3)
        requires
            !DielectricMaterial::total_reflection(grazing) ==> call_requires(draw, ()),
        ensures
            DielectricMaterial::total_reflection(grazing) ==> d == mirrored,
            !DielectricMaterial::total_reflection(grazing) ==> exists|u: Scalar| #[trigger]
                call_ensures(draw, (), u) && d == if u.below(reflectance) {
                    mirrored
                } else {
                    bent
                },
    {
        if grazing.gt(Scalar::one()) {
            return mirrored;
        }
        let u = draw();
        if u.lt(reflectance) {
            mirrored
        } else {
            bent
        }
    }

    /// The answer of a transparent surface to a hit: all of the light, and
    /// a fresh ray from the point of the hit along `direction`.
    pub fn bounce(&self, hit: &HitResult, direction: Vec3) -> (out: (Color, Option<Ray>))
        ensures
            out.0.r.bits == ONE_BITS,
            out.0.g.bits == ONE_BITS,
            out.0.b.bits == ONE_BITS,
            out.1 == Some(Ray::fresh(hit.intersect, direction)),
    {
        (Color::white(), Some(Ray::new(hit.intersect, direction)))
    }
}

} // verus!
