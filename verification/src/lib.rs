//! The control kernel of an offline path tracer.
//!
//! Everything here is integer and boolean logic: which root of an intersection
//! is taken, which of several hits is the closest, when a light path ends, what
//! a material does with a ray, how a number becomes a row count or a byte, what
//! number random bits make. Real numbers are held as ordered integer codes (see
//! [`scalar`]), so that the kernel can compare them, turn their sign, cut them
//! to whole numbers, take their square root and hand them on. Sums, products
//! and quotients belong to the program that embeds the kernel, which plugs
//! them in by implementing [`hittable::Hittable`] for its shapes and
//! [`material::Material`] for its materials.

pub mod scalar;
pub mod root;
pub mod commons;
pub mod interval;
pub mod vec3;
pub mod ray;
pub mod color;
pub mod hittable;
pub mod hittable_list;
pub mod sphere;
pub mod material;
pub mod camera;
