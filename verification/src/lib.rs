//! The decisions of a path tracer, verified.
//!
//! A path tracer follows rays from a camera through a scene of surfaces and
//! gathers the light that comes back along them. This library holds every
//! decision of such a renderer: which object a ray hits, which solution of
//! a sphere's quadratic counts, whether a surface was hit from the front,
//! whether glass mirrors or bends, when a path ends and with what, and how
//! the finished colors become pixels and a bitmap file.
//!
//! The numbers are single-precision floating-point numbers, carried by their
//! bit patterns ([`scalar::Scalar`]). The library compares, negates and
//! quantizes them exactly; it does no arithmetic on them. Sums, products and
//! roots come from the caller: as arguments, as closures where a number is
//! needed only on some branches, and through the traits [`tracer::Hit`] and
//! [`tracer::Material`]. The random numbers come from one stream that the
//! caller hands in and that is handed from material to material, so that a
//! path is fixed by the scene, the ray and the stream.
pub mod hit;
pub mod image;
pub mod linalg;
pub mod material;
pub mod nearest;
pub mod scalar;
pub mod tracer;
