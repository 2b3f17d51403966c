//! A small Monte-Carlo path tracer for scenes of spheres, built on
//! fixed-point arithmetic so that every geometric and shading routine
//! carries a machine-checked contract.
//!
//! Scalars are signed 64-bit fixed-point numbers with 16 fractional
//! bits (see [`fx`]); vectors, rays, cameras, geometry, materials and
//! the recursive color integrator are layered on top of them.

pub mod camera;
pub mod fx;
pub mod scene;
pub mod render;
pub mod geometry;
pub mod material;
pub mod rng;
pub mod sample;
pub mod vec3;
