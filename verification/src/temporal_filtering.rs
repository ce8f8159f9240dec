//! Filters the source of a frame along its motion, before it is encoded.

pub mod blocks;
pub mod choices;
pub mod kernels;
pub mod laws;
pub mod measures;
pub mod noise;
pub mod scales;
pub mod strength;
pub mod subpel;
pub mod weights;
