//! A small ray tracer verified end to end: rays, spheres, nearest-hit
//! resolution over a scene, Lambertian scattering and a depth-bounded
//! recursive integrator.
//!
//! All geometry is carried in fixed-point arithmetic: an `i64` component
//! holds its real value times [`fixed::SCALE`]. Every executable function
//! is proved equal to a specification-level model of the same computation,
//! so the contracts state exactly which colour or hit record comes back.

pub mod fixed;
pub mod vec3;
pub mod ray;
pub mod hittable;
pub mod materials;
pub mod shapes;
pub mod helpers;
