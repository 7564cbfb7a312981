//! A small Monte Carlo path tracer whose arithmetic is carried out in
//! signed 16.16 fixed-point form, so that every geometric and radiometric
//! computation can be stated and proved exactly over the integers.

pub mod aabb;
pub mod camera;
pub mod fx;
pub mod hit;
pub mod integrator;
pub mod mat;
pub mod ray;
pub mod render;
pub mod rng;
pub mod sphere;
pub mod vec3;

pub use fx::SCALE;
