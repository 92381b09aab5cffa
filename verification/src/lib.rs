//! Integer core of a physically-inspired offline renderer.
//!
//! The renderer's floating-point geometry (vectors, rays, intersection
//! tests, materials) lives outside this library; here stand the parts
//! of the engine whose behaviour is exact integer arithmetic: the BVH
//! build over per-axis sort keys — its ordering, median split and leaf
//! layout — the Perlin permutation tables and lattice hashing,
//! image-texture texel addressing, and the id-indexed table that pairs
//! each primitive with its material.

pub mod bvh;
pub mod image;
pub mod perlin;
pub mod seqs;
pub mod utility;
pub mod world;
