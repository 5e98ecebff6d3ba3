//! A small path tracer in fixed-point arithmetic.
//!
//! A scene is a list of spheres, each with a material; the only light is the
//! sky. The camera casts rays through the pixels of the image, follows each
//! ray from surface to surface until it escapes into the sky, is absorbed or
//! has no bounce left, and averages what the rays of a pixel bring back.
//!
//! Every number is a [`fixed::Fixed`]: a 64-bit integer that counts steps of
//! `2^-32`, with saturating arithmetic. The functions are total, but for
//! `Vec3::random_range`, which asks for a range that is not empty, and their
//! contracts state the results exactly. Where a function draws random
//! numbers, its contract says which results it can return, and a function
//! beside it takes the drawn numbers as arguments and returns the result
//! they determine.
//!
//! - [`fixed`]: the numbers.
//! - [`vec3`], [`ray`], [`interval`]: vectors, rays and ranges.
//! - [`aabb`]: axis-aligned boxes.
//! - [`hittable`], [`sphere`]: what a ray can hit, and the scene.
//! - [`material`]: how surfaces scatter light.
//! - [`camera`]: the view, the rays through the pixels, and the image.

pub mod aabb;
pub mod camera;
pub mod fixed;
pub mod hittable;
pub mod interval;
pub mod material;
pub mod ray;
mod rng;
pub mod sphere;
pub mod vec3;
