//! Procedural terrain-mesh generation.
//!
//! The library synthesizes a heightfield surface over a regular square
//! lattice: randomized directional deposition perturbs the height channel,
//! the heights are rescaled into a fixed range and relaxed by local
//! averaging, the lattice is triangulated, and a unit shading normal is
//! derived per vertex.  The output is a mesh of tightly packed index and
//! vertex-attribute arrays ready for upload to a rendering pipeline.
//!
//! All coordinates are fixed-point numbers: an `i64` holding the real value
//! scaled by `2^16` (see [`fixed`]).  Randomness is drawn from an explicit
//! [`rng::RandomSource`] handed to the entry point, so that a seeded,
//! deterministic source can be substituted.

pub mod deposit;
pub mod fixed;
pub mod grid;
pub mod mesh;
pub mod normalize;
pub mod normals;
pub mod relax;
pub mod rng;
pub mod triangulate;
pub mod vec3;
