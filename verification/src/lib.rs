//! A verified renderer for a one-sphere scene.
//!
//! One ray is cast per pixel from a fixed camera plane (orthographic, along
//! -z); the ray/sphere intersection is decided by the quadratic discriminant,
//! and a hit distance is shaded to a grayscale-with-red-bias pixel.
//!
//! All geometry is exact fixed-point arithmetic: a coordinate stores tenths of
//! a scene unit in an `i64`, so every comparison in the intersection test and
//! every shaded channel value is computed — and specified — exactly, with no
//! rounding beyond the integer square root and the final truncating divisions,
//! both of which the contracts pin down.

pub mod math;
pub mod vec3;
pub mod geom;
pub mod shade;
pub mod render;
