//! A sphere path tracer over fixed-point arithmetic.
//!
//! Every geometric and color quantity is a signed 64-bit integer counting
//! millionths of a unit, so the whole rendering pipeline — vectors, rays,
//! sphere intersection, material scattering, the camera and the recursive
//! radiance integrator — is exact integer arithmetic with verified contracts.

pub mod camera;
pub mod color;
pub mod fixed;
pub mod hittable;
pub mod material;
pub mod math;
pub mod ray;
pub mod render;
pub mod rng;
pub mod sphere;
pub mod vec3;

pub use fixed::SCALE;
