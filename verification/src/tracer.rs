//! Rays, hits, scenes and the path of a ray through a scene.
use vstd::prelude::*;
use crate::image::Color;
use crate::linalg::Vec3;
use crate::scalar::{Scalar, INFINITY_BITS};

verus! {

/// The bit pattern of `0.001`: how far along a fresh ray the first accepted
/// hit may lie, so that a scattered ray does not hit the surface it left.
pub const RAY_EPSILON_BITS: u32 = 0x3a83_126f;

/// Where a ray met a surface.
#[derive(Clone, Copy, Debug, PartialEq, Eq, Structural)]
pub struct HitResult {
    pub intersect: Vec3,
    /// The normal as the surface gave it, not turned towards the ray.
    pub normal: Vec3,
    /// The ray parameter of the intersection.
    pub at: Scalar,
}

/// A half-line `origin + t * direction`, with the interval of parameters `t`
/// in which hits count.
#[derive(Clone, Copy, Debug, PartialEq, Eq, Structural)]
pub struct Ray {
    pub origin: Vec3,
    pub direction: Vec3,
    pub min: Scalar,
    pub max: Scalar,
}

impl Ray {
    /// `t` lies in the ray's interval, both ends included.
    pub open spec fn accepts(&self, t: Scalar) -> bool {
        self.min.at_most(t) && t.at_most(self.max)
    }

    /// The same ray with its interval cut off at `max`.
    pub open spec fn narrowed(self, max: Scalar) -> Ray {
        Ray { max, ..self }
    }

    /// The ray from `origin` along `direction` that accepts hits from `0.001`
    /// on, without an upper limit.
    pub open spec fn fresh(origin: Vec3, direction: Vec3) -> Ray {
        Ray {
            origin,
            direction,
            min: Scalar { bits: RAY_EPSILON_BITS },
            max: Scalar { bits: INFINITY_BITS },
        }
    }

    #[verifier::when_used_as_spec(fresh)]
    pub fn new(origin: Vec3, direction: Vec3) -> (ray: Ray)
        ensures
            ray == Ray::fresh(origin, direction),
    {
        Ray {
            origin,
            direction,
            min: Scalar { bits: RAY_EPSILON_BITS },
            max: Scalar { bits: INFINITY_BITS },
        }
    }

    /// Whether a hit at parameter `t` counts.
    #[verifier::when_used_as_spec(accepts)]
    pub fn contains(&self, t: Scalar) -> (b: bool)
        ensures
            b == self.accepts(t),
    {
        self.min.le(t) && t.le(self.max)
    }
}

impl HitResult {
    /// The ray met the front of the surface: normal and ray direction point
    /// against each other. `facing` is their dot product.
    pub open spec fn outside(facing: Scalar) -> bool {
        facing.below(Scalar { bits: 0 })
    }

    /// Whether the ray came from outside, given the dot product `facing` of
    /// the hit's normal and the ray's direction.
    pub fn is_outside(&self, facing: Scalar) -> (b: bool)
        ensures
            b == HitResult::outside(facing),
    {
        facing.lt(Scalar::zero())
    }

    /// The normal turned against the ray, given the dot product `facing` of
    /// the hit's normal and the ray's direction.
    pub fn surface_normal(&self, facing: Scalar) -> (n: Vec3)
        ensures
            n == if HitResult::outside(facing) {
                self.normal
            } else {
                self.normal.reversed()
            },
    {
        if self.is_outside(facing) {
            self.normal
        } else {
            self.normal.neg()
        }
    }
}

/// A shading model: what a surface does with a ray that hit it.
///
/// `D` is the stream of random numbers. A material owns none: it draws from
/// the stream it is handed and hands the stream back, so that what a
/// material does is fixed by the ray, the hit and the stream.
pub trait Material<D> {
    /// The attenuation at this hit, the ray that carries the path on, and
    /// the stream after the material has drawn from it. Without a ray the
    /// path ends here, and the color is what it brings back.
    fn bounce(&self, ray: &Ray, hit: &HitResult, draws: D) -> (Color, Option<Ray>, D);
}

/// Anything a ray can hit.
pub trait Hit {
    /// The kind of material that the object carries.
    type Surface: ?Sized;

    /// Where `ray` meets the object, within the ray's interval.
    fn hit(&self, ray: &Ray) -> Option<HitResult>;

    fn material(&self) -> &Self::Surface;
}

impl<T: Hit + ?Sized> Hit for Box<T> {
    type Surface = T::Surface;

    fn hit(&self, ray: &Ray) -> (r: Option<HitResult>)
        ensures
            hits(&**self, *ray, r),
    {
        (**self).hit(ray)
    }

    fn material(&self) -> (m: &T::Surface)
        ensures
            call_ensures(T::material, (&**self,), m),
    {
        (**self).material()
    }
}

/// `r` is an answer that `obj` can give when asked where `ray` hits it.
pub open spec fn hits<H: Hit + ?Sized>(obj: &H, ray: Ray, r: Option<HitResult>) -> bool {
    call_ensures(H::hit, (obj, &ray), r)
}

/// `out` is an outcome that the material of `obj` can have for this ray,
/// this hit and this stream of random numbers.
pub open spec fn shades<D, H: Hit + ?Sized>(
    obj: &H,
    ray: Ray,
    hit: HitResult,
    draws: D,
    out: (Color, Option<Ray>, D),
) -> bool where H::Surface: Material<D> {
    exists|m: &H::Surface| #[trigger]
        call_ensures(H::material, (obj,), m) && call_ensures(
            <H::Surface as Material<D>>::bounce,
            (m, &ray, &hit, draws),
            out,
        )
}

/// The ray with which the next object is asked, after `found`: cut off at
/// the hit found so far.
pub open spec fn shortened(ray: Ray, found: Option<(HitResult, int)>) -> Ray {
    match found {
        Some((h, _)) => ray.narrowed(h.at),
        None => ray,
    }
}

/// `found` is what a scan of the first `n` objects can end with: the last
/// hit that an object gave, and the index of that object. Each object is
/// asked with the ray cut off at the hit found before it, so an object that
/// respects the ray's interval is heard only if it is at least as near.
pub open spec fn scanned<H: Hit>(
    objects: Seq<H>,
    ray: Ray,
    n: int,
    found: Option<(HitResult, int)>,
) -> bool
    decreases n,
{
    if n <= 0 {
        found.is_none()
    } else {
        exists|before: Option<(HitResult, int)>, r: Option<HitResult>|
            {
                &&& scanned(objects, ray, n - 1, before)
                &&& #[trigger] hits(&objects[n - 1], shortened(ray, before), r)
                &&& found == match r {
                    Some(h) => Some((h, n - 1)),
                    None => before,
                }
            }
    }
}

/// The objects of a scene, in the order in which they were added.
pub struct Scene<H: Hit> {
    objects: Vec<H>,
}

impl<H: Hit> Scene<H> {
    pub closed spec fn view(&self) -> Seq<H> {
        self.objects@
    }

    /// `found` is what a scan of the whole scene can end with.
    pub open spec fn finds(&self, ray: Ray, found: Option<(HitResult, int)>) -> bool {
        &&& scanned(self@, ray, self@.len() as int, found)
        &&& found matches Some((_, i)) ==> 0 <= i < self@.len()
    }

    /// A scene without objects.
    pub fn new() -> (scene: Scene<H>)
        ensures
            scene@.len() == 0,
    {
        Scene { objects: Vec::new() }
    }

    /// Appends an object.
    pub fn add(&mut self, obj: H)
        ensures
            final(self)@ == old(self)@.push(obj),
    {
        self.objects.push(obj);
    }

    /// How many objects the scene holds.
    pub fn len(&self) -> (n: usize)
        ensures
            n == self@.len(),
    {
        self.objects.len()
    }

    /// The hit that a scan of all objects ends with, and the object hit.
    pub fn hit(&self, ray: &Ray) -> (r: Option<(HitResult, &H)>)
        ensures
            match r {
                Some((h, obj)) => exists|i: int|
                    (#[trigger] self.finds(*ray, Some((h, i)))) && *obj == self@[i],
                None => self.finds(*ray, None),
            },
    {
        let mut temp_ray = *ray;
        let mut hit_res: Option<(HitResult, &H)> = None;
        let ghost mut found: Option<(HitResult, int)> = None;
        let mut i: usize = 0;
        while i < self.objects.len()
            invariant
                i <= self.objects@.len(),
                scanned(self@, *ray, i as int, found),
                temp_ray == shortened(*ray, found),
                match found {
                    Some((h, k)) => hit_res.is_some() && hit_res.unwrap().0 == h && 0 <= k < i
                        && *hit_res.unwrap().1 == self@[k],
                    None => hit_res.is_none(),
                },
            decreases self.objects@.len() - i,
        {
            let obj: &H = &self.objects[i];
            let res = obj.hit(&temp_ray);
            proof {
                let before = found;
                found = match res {
                    Some(h) => Some((h, i as int)),
                    None => before,
                };
                assert(hits(&self@[i + 1 - 1], shortened(*ray, before), res));
                assert(scanned(self@, *ray, i + 1, found));
            }
            match res {
                None => {},
                Some(r) => {
                    hit_res = Some((r, obj));
                    temp_ray.max = r.at;
                },
            }
            i += 1;
        }
        proof {
            if let Some((h, k)) = found {
                assert(self.finds(*ray, Some((h, k))) && *hit_res.unwrap().1 == self@[k]);
            }
        }
        hit_res
    }
}

/// The bit patterns of the color that marks a path whose bounces ran out:
/// the channels `245 / 255`, `66 / 255` and `129 / 255`.
pub const EXHAUSTED_RED_BITS: u32 = 0x3f75_f5f6;

pub const EXHAUSTED_GREEN_BITS: u32 = 0x3e84_8485;

pub const EXHAUSTED_BLUE_BITS: u32 = 0x3f01_8182;

/// How the path of a ray through a scene ended.
#[derive(Clone, Copy, Debug, PartialEq, Eq, Structural)]
pub enum PathEnd {
    /// The bounces ran out before the path ended.
    Exhausted,
    /// The ray hit nothing.
    Escaped,
    /// A material ended the path and gave this color.
    Absorbed(Color),
}

impl PathEnd {
    /// What the end of the path brings back: a pink that no surface has for
    /// a path that ran out of bounces, black for a ray that hit nothing, and
    /// the material's own color where a material ended the path.
    pub open spec fn radiance(self) -> Color {
        match self {
            PathEnd::Exhausted => Color {
                r: Scalar { bits: EXHAUSTED_RED_BITS },
                g: Scalar { bits: EXHAUSTED_GREEN_BITS },
                b: Scalar { bits: EXHAUSTED_BLUE_BITS },
            },
            PathEnd::Escaped => Color {
                r: Scalar { bits: 0 },
                g: Scalar { bits: 0 },
                b: Scalar { bits: 0 },
            },
            PathEnd::Absorbed(c) => c,
        }
    }

    #[verifier::when_used_as_spec(radiance)]
    pub fn color(self) -> (c: Color)
        ensures
            c == self.radiance(),
    {
        match self {
            PathEnd::Exhausted => Color {
                r: Scalar { bits: EXHAUSTED_RED_BITS },
                g: Scalar { bits: EXHAUSTED_GREEN_BITS },
                b: Scalar { bits: EXHAUSTED_BLUE_BITS },
            },
            PathEnd::Escaped => Color::black(),
            PathEnd::Absorbed(c) => c,
        }
    }
}

/// The path of one ray: the attenuation of every bounce that sent the path
/// on, first bounce first, and how the path ended. The light that the path
/// carries is the end's color multiplied by every attenuation, the last
/// bounce's first.
#[derive(Debug)]
pub struct LightPath {
    pub attenuations: Vec<Color>,
    pub end: PathEnd,
}

/// `attenuations` and `end` describe a path that `ray` can take through
/// `scene` with `depth` bounces left, from the stream `draws` of random
/// numbers, and `left` is the stream after it.
///
/// With no bounce left the path is exhausted on the spot, whatever stands in
/// the way. Else the scene is asked for the hit. Without one the ray
/// escapes. With one, the object's material is handed the stream and gives
/// an attenuation and perhaps a ray: without a ray the path ends with that
/// color, with one it goes on from there with one bounce less and the
/// stream that the material handed back.
pub open spec fn traced<D, H: Hit>(
    scene: &Scene<H>,
    ray: Ray,
    depth: nat,
    draws: D,
    attenuations: Seq<Color>,
    end: PathEnd,
    left: D,
) -> bool where H::Surface: Material<D>
    decreases depth, 1nat,
{
    if depth == 0 {
        attenuations.len() == 0 && end == PathEnd::Exhausted && left == draws
    } else {
        exists|found: Option<(HitResult, int)>, out: (Color, Option<Ray>, D)|
            #[trigger] stepped(scene, ray, draws, found, out) && ended(
                scene,
                depth,
                draws,
                attenuations,
                end,
                left,
                found,
                out,
            )
    }
}

/// How a path with `depth` bounces left, `depth` above zero, goes on after
/// the step `found`, `out`.
pub open spec fn ended<D, H: Hit>(
    scene: &Scene<H>,
    depth: nat,
    draws: D,
    attenuations: Seq<Color>,
    end: PathEnd,
    left: D,
    found: Option<(HitResult, int)>,
    out: (Color, Option<Ray>, D),
) -> bool where H::Surface: Material<D>
    decreases depth, 0nat,
{
    match found {
        None => attenuations.len() == 0 && end == PathEnd::Escaped && left == draws,
        Some(_) => match out.1 {
            None => attenuations.len() == 0 && end == PathEnd::Absorbed(out.0) && left == out.2,
            Some(next) => {
                &&& depth > 0
                &&& attenuations.len() > 0
                &&& attenuations[0] == out.0
                &&& traced(scene, next, (depth - 1) as nat, out.2, attenuations.skip(1), end, left)
            },
        },
    }
}

/// One step of a path: `found` is what the scene can answer for `ray`, and
/// where that is a hit, `out` is an outcome that the material of the object
/// hit can have when it is handed the stream `draws`.
pub open spec fn stepped<D, H: Hit>(
    scene: &Scene<H>,
    ray: Ray,
    draws: D,
    found: Option<(HitResult, int)>,
    out: (Color, Option<Ray>, D),
) -> bool where H::Surface: Material<D> {
    &&& scene.finds(ray, found)
    &&& found matches Some((hit, i)) ==> shades(&scene@[i], ray, hit, draws, out)
}

/// `sum` is what `n` steps can make of `start`: each step is handed what the
/// one before it gave.
pub open spec fn gathered<F: Fn(Color) -> Color>(step: F, start: Color, n: nat, sum: Color) -> bool
    decreases n,
{
    if n == 0 {
        sum == start
    } else {
        exists|before: Color|
            gathered(step, start, (n - 1) as nat, before) && #[trigger] call_ensures(
                step,
                (before,),
                sum,
            )
    }
}

/// How many paths are averaged into a pixel, and how many bounces a path
/// may take.
pub struct Renderer {
    samples: usize,
    bounces: usize,
}

impl Renderer {
    pub closed spec fn sample_count(&self) -> usize {
        self.samples
    }

    pub closed spec fn bounce_limit(&self) -> usize {
        self.bounces
    }

    pub fn new(samples: usize, bounces: usize) -> (renderer: Renderer)
        ensures
            renderer.sample_count() == samples,
            renderer.bounce_limit() == bounces,
    {
        Renderer { samples, bounces }
    }

    #[verifier::when_used_as_spec(sample_count)]
    pub fn samples(&self) -> (n: usize)
        ensures
            n == self.sample_count(),
    {
        self.samples
    }

    #[verifier::when_used_as_spec(bounce_limit)]
    pub fn bounces(&self) -> (n: usize)
        ensures
            n == self.bounce_limit(),
    {
        self.bounces
    }

    /// Gathers the samples of one pixel: `step` takes the sum so far and
    /// gives it back with one more sample added, and is asked once for every
    /// sample that the renderer was set up with.
    pub fn gather<F: Fn(Color) -> Color>(&self, start: Color, step: F) -> (sum: Color)
        requires
            forall|c: Color| call_requires(step, (c,)),
        ensures
            gathered(step, start, self.sample_count() as nat, sum),
    {
        let mut sum = start;
        let mut taken: usize = 0;
        while taken < self.samples
            invariant
                taken <= self.samples,
                forall|c: Color| call_requires(step, (c,)),
                gathered(step, start, taken as nat, sum),
            decreases self.samples - taken,
        {
            let ghost before = sum;
            sum = step(sum);
            taken += 1;
            assert(gathered(step, start, (taken - 1) as nat, before));
        }
        sum
    }

    /// Follows `ray` through `scene` for at most `bounces` bounces, handing
    /// the stream `draws` of random numbers from material to material, and
    /// gives the path and the stream after it.
    pub fn colorize_ray<D, H: Hit>(
        &self,
        scene: &Scene<H>,
        ray: &Ray,
        bounces: usize,
        draws: D,
    ) -> (r: (LightPath, D)) where H::Surface: Material<D>
        ensures
            traced(scene, *ray, bounces as nat, draws, r.0.attenuations@, r.0.end, r.1),
            r.0.attenuations@.len() <= bounces,
    {
        let mut attenuations: Vec<Color> = Vec::new();
        let mut current = *ray;
        let mut stream = draws;
        let mut left = bounces;
        loop
            invariant
                left <= bounces,
                attenuations@.len() == bounces - left,
                forall|rest: Seq<Color>, end: PathEnd, after: D| #[trigger]
                    traced(scene, current, left as nat, stream, rest, end, after) ==> traced(
                        scene,
                        *ray,
                        bounces as nat,
                        draws,
                        attenuations@ + rest,
                        end,
                        after,
                    ),
            decreases left,
        {
            if left == 0 {
                assert(traced(scene, current, 0, stream, Seq::empty(), PathEnd::Exhausted, stream));
                assert(attenuations@ + Seq::<Color>::empty() =~= attenuations@);
                return (LightPath { attenuations, end: PathEnd::Exhausted }, stream);
            }
            match scene.hit(&current) {
                None => {
                    assert(stepped(
                        scene,
                        current,
                        stream,
                        None,
                        (PathEnd::Escaped.radiance(), None, stream),
                    ));
                    assert(traced(
                        scene,
                        current,
                        left as nat,
                        stream,
                        Seq::empty(),
                        PathEnd::Escaped,
                        stream,
                    ));
                    assert(attenuations@ + Seq::<Color>::empty() =~= attenuations@);
                    return (LightPath { attenuations, end: PathEnd::Escaped }, stream);
                },
                Some((hit, obj)) => {
                    let material = obj.material();
                    let ghost handed = stream;
                    let out = material.bounce(&current, &hit, stream);
                    let ghost i = choose|i: int|
                        (#[trigger] scene.finds(current, Some((hit, i)))) && *obj == scene@[i];
                    let ghost seen = (out.0, out.1, out.2);
                    assert(call_ensures(H::material, (&scene@[i],), material));
                    assert(shades(&scene@[i], current, hit, handed, seen));
                    assert(stepped(scene, current, handed, Some((hit, i)), seen));
                    let (color, onward, after) = out;
                    match onward {
                        None => {
                            assert(traced(
                                scene,
                                current,
                                left as nat,
                                handed,
                                Seq::empty(),
                                PathEnd::Absorbed(color),
                                after,
                            ));
                            assert(attenuations@ + Seq::<Color>::empty() =~= attenuations@);
                            return (LightPath { attenuations, end: PathEnd::Absorbed(color) }, after);
                        },
                        Some(next) => {
                            let ghost before = attenuations@;
                            let ghost depth = left as nat;
                            attenuations.push(color);
                            left = left - 1;
                            assert forall|rest: Seq<Color>, end: PathEnd, last: D| #[trigger]
                                traced(scene, next, left as nat, after, rest, end, last) implies traced(
                                scene,
                                *ray,
                                bounces as nat,
                                draws,
                                attenuations@ + rest,
                                end,
                                last,
                            ) by {
                                let longer = seq![color] + rest;
                                assert(longer.skip(1) =~= rest);
                                assert((depth - 1) as nat == left as nat);
                                assert(traced(scene, current, depth, handed, longer, end, last));
                                assert(before + longer =~= attenuations@ + rest);
                            }
                            current = next;
                            stream = after;
                        },
                    }
                },
            }
        }
    }
}

/// Every object of the scene answers a ray in one way only.
pub open spec fn single_answers<H: Hit>(scene: &Scene<H>) -> bool {
    forall|i: int, ray: Ray, r1: Option<HitResult>, r2: Option<HitResult>|
        0 <= i < scene@.len() && #[trigger] hits(&scene@[i], ray, r1) && #[trigger] hits(
            &scene@[i],
            ray,
            r2,
        ) ==> r1 == r2
}

/// Nothing in the scene is left to chance but the numbers in the stream:
/// every object answers a ray in one way only, and every material has one
/// outcome only for a ray, a hit and a stream of random numbers. A material
/// that draws its numbers from the stream it is handed, and from nowhere
/// else, is of this kind.
pub open spec fn deterministic<D, H: Hit>(scene: &Scene<H>) -> bool where H::Surface: Material<D> {
    &&& single_answers(scene)
    &&& forall|
        i: int,
        ray: Ray,
        hit: HitResult,
        draws: D,
        o1: (Color, Option<Ray>, D),
        o2: (Color, Option<Ray>, D),
    |
        0 <= i < scene@.len() && #[trigger] shades(&scene@[i], ray, hit, draws, o1)
            && #[trigger] shades(&scene@[i], ray, hit, draws, o2) ==> o1 == o2
}

/// Where every object answers in one way only, a scan has one result.
pub proof fn lemma_scanned_is_unique<H: Hit>(
    scene: &Scene<H>,
    ray: Ray,
    n: int,
    f1: Option<(HitResult, int)>,
    f2: Option<(HitResult, int)>,
)
    requires
        single_answers(scene),
        n <= scene@.len(),
        scanned(scene@, ray, n, f1),
        scanned(scene@, ray, n, f2),
    ensures
        f1 == f2,
    decreases n,
{
    if n > 0 {
        let (b1, r1) = choose|b: Option<(HitResult, int)>, r: Option<HitResult>|
            {
                &&& scanned(scene@, ray, n - 1, b)
                &&& #[trigger] hits(&scene@[n - 1], shortened(ray, b), r)
                &&& f1 == match r {
                    Some(h) => Some((h, n - 1)),
                    None => b,
                }
            };
        let (b2, r2) = choose|b: Option<(HitResult, int)>, r: Option<HitResult>|
            {
                &&& scanned(scene@, ray, n - 1, b)
                &&& #[trigger] hits(&scene@[n - 1], shortened(ray, b), r)
                &&& f2 == match r {
                    Some(h) => Some((h, n - 1)),
                    None => b,
                }
            };
        lemma_scanned_is_unique(scene, ray, n - 1, b1, b2);
    }
}

/// Tracing is repeatable: the path of a ray is fixed by the scene, the ray,
/// the number of bounces and the stream of random numbers. Two traces that
/// start from the same stream, from the same seed or the same script, have
/// the same attenuations and the same end, and leave the same stream
/// behind.
pub proof fn lemma_traced_is_unique<D, H: Hit>(
    scene: &Scene<H>,
    ray: Ray,
    depth: nat,
    draws: D,
    a1: Seq<Color>,
    e1: PathEnd,
    l1: D,
    a2: Seq<Color>,
    e2: PathEnd,
    l2: D,
) where H::Surface: Material<D>
    requires
        deterministic::<D, H>(scene),
        traced(scene, ray, depth, draws, a1, e1, l1),
        traced(scene, ray, depth, draws, a2, e2, l2),
    ensures
        a1 == a2,
        e1 == e2,
        l1 == l2,
    decreases depth,
{
    if depth == 0 {
        assert(a1 =~= a2);
    } else {
        let (f1, o1) = choose|found: Option<(HitResult, int)>, out: (Color, Option<Ray>, D)|
            #[trigger] stepped(scene, ray, draws, found, out) && ended(
                scene,
                depth,
                draws,
                a1,
                e1,
                l1,
                found,
                out,
            );
        let (f2, o2) = choose|found: Option<(HitResult, int)>, out: (Color, Option<Ray>, D)|
            #[trigger] stepped(scene, ray, draws, found, out) && ended(
                scene,
                depth,
                draws,
                a2,
                e2,
                l2,
                found,
                out,
            );
        lemma_scanned_is_unique(scene, ray, scene@.len() as int, f1, f2);
        match f1 {
            None => {
                assert(a1 =~= a2);
            },
            Some((hit, i)) => {
                assert(o1 == o2);
                match o1.1 {
                    None => {
                        assert(a1 =~= a2);
                    },
                    Some(next) => {
                        lemma_traced_is_unique(
                            scene,
                            next,
                            (depth - 1) as nat,
                            o1.2,
                            a1.skip(1),
                            e1,
                            l1,
                            a2.skip(1),
                            e2,
                            l2,
                        );
                        assert(a1 =~= seq![a1[0]] + a1.skip(1));
                        assert(a2 =~= seq![a2[0]] + a2.skip(1));
                    },
                }
            },
        }
    }
}

/// A path ends exhausted exactly when every bounce it was given sent it on.
/// With a single bounce, a path that scatters at its first hit brings back
/// the color of exhaustion times that one attenuation, and not black; with
/// none, it is exhausted before the scene is asked.
pub proof fn lemma_exhausted_when_bounces_spent<D, H: Hit>(
    scene: &Scene<H>,
    ray: Ray,
    depth: nat,
    draws: D,
    attenuations: Seq<Color>,
    end: PathEnd,
    left: D,
) where H::Surface: Material<D>
    requires
        traced(scene, ray, depth, draws, attenuations, end, left),
    ensures
        attenuations.len() <= depth,
        end == PathEnd::Exhausted <==> attenuations.len() == depth,
    decreases depth,
{
    if depth > 0 {
        let (found, out) = choose|found: Option<(HitResult, int)>, out: (Color, Option<Ray>, D)|
            #[trigger] stepped(scene, ray, draws, found, out) && ended(
                scene,
                depth,
                draws,
                attenuations,
                end,
                left,
                found,
                out,
            );
        if found.is_some() && out.1.is_some() {
            lemma_exhausted_when_bounces_spent(
                scene,
                out.1.unwrap(),
                (depth - 1) as nat,
                out.2,
                attenuations.skip(1),
                end,
                left,
            );
        }
    }
}

} // verus!
