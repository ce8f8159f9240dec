//! The temporal filter as a whole: the planes it works on, what it is set up
//! with, the motion of each block, and the sums that make up a frame.

pub mod accumulate;
pub mod block;
pub mod blending;
pub mod controls;
pub mod frame;
pub mod geometry;
pub mod ladder;
pub mod picture;
pub mod planes;
pub mod predict;
pub mod setup;
pub mod tiles;
pub mod window;
