//! A Monte Carlo path tracer whose geometric core works in exact fixed-point
//! arithmetic: coordinates are 64-bit integers counting 1/65536-ths of a scene
//! unit, so every comparison and every bounding-volume decision the renderer
//! makes is exact and is verified.

pub mod fixed;
pub mod vec3;
pub mod aabb;
pub mod hit;
pub mod sphere;
pub mod rect;
pub mod object;
pub mod bvh;
pub mod bvh_build;
pub mod error;
pub mod rng;
pub mod perlin;
pub mod texture;
pub mod material;
pub mod scene;
pub mod camera;
pub mod render;
pub mod scenes;
