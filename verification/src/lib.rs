//! A small Monte-Carlo path tracer whose numeric core is verified.
//!
//! Every quantity is a fixed-point number: an `i64` count of 1/65536 steps.
//! The geometry (ray-sphere intersection, nearest-hit scan), the material
//! scattering model, the depth-of-field camera and the recursive integrator
//! are implemented and specified exactly over that grid; the only unverified
//! code is the wrapper that draws uniform random integers.

pub mod fixed;
pub mod vec3;
pub mod ray;
pub mod hittable;
pub mod material;
pub mod sphere;
pub mod hittable_list;
pub mod camera;
pub mod color_utils;
pub mod integrator;
mod rng;
