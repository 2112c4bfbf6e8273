//! Approximates a target image by stacking translucent single-color layers,
//! each chosen by a genetic search and applied only where it helps.
pub mod candidate;
pub mod canvas;
pub mod color;
pub mod evolve;
pub mod pipeline;
pub mod random;
