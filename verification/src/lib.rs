//! A sphere ray tracer whose arithmetic is fixed-point: every coordinate,
//! color channel and parameter is an `i64` holding the value scaled by
//! `fx::FX_ONE`. All rendering logic is verified; randomness comes from
//! small trusted wrappers over the `rand` crate.

pub mod camera;
pub mod color;
pub mod fx;
pub mod hittable;
pub mod image;
pub mod material;
pub mod ray;
pub mod rng;
pub mod utils;
pub mod vec3;
pub mod world;
