//! The deciding and the coloring half of a ray tracer.
//!
//! A ray tracer does two kinds of work. One is geometry: rays, normals, dot
//! products, roots, all in double precision. The other is what to make of the
//! geometry: which root of a sphere a ray sees, whether a point of a plane
//! lies on the floor and on which tile, which of the shapes in the way is the
//! nearest, which lights count at a surface and what they add to its color,
//! what is left of a light behind a transparent shape, whether a surface
//! sends out a reflected or a transmitted ray and how deep such rays go, and
//! how the colors they bring back add up. This library is the second kind.
//! Every function in it is proved against a statement of what it returns,
//! but for the two in [`pixel`], which call into the `image` crate and are
//! taken on trust.
//!
//! The caller does the geometry and hands over its results as
//! [`scalar::Scalar`]s; shapes are named by their place in the caller's
//! scene. Nothing here computes in floating point: numbers are compared, cut
//! to integers and multiplied into color channels by integer arithmetic on
//! their bits, with the results that double precision gives.

pub mod color;
pub mod floor;
pub mod light;
pub mod material;
pub mod pixel;
pub mod scalar;
pub mod sphere;
pub mod tracer;
