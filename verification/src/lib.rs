//! An offline stochastic path tracer over fixed-point arithmetic.
//!
//! The rendering kernel — surfaces, bounding-volume hierarchy, materials,
//! sampling densities and the recursive integrator — is verified; every
//! scalar is a fixed-point integer (see `fx`). Scene assembly, the camera,
//! image output and the worker pool live outside the library.

pub mod fx;
pub mod vec3;
pub mod ray;
pub mod onb;
pub mod rng;
pub mod aabb;
pub mod hittable;
pub mod sphere;
pub mod moving_sphere;
pub mod arrect;
pub mod perlin;
pub mod texture;
pub mod pdf;
pub mod material;
pub mod hittable_list;
pub mod constant_medium;
pub mod bvh;
pub mod scene;
