//! A falling-sand simulation engine: a 2D grid of optional grains that fall
//! under gravity and topple sideways, painted and erased by a caller-driven
//! shell. The grid operations and the per-tick simulation step are verified;
//! randomness enters only through an injected direction source.

pub mod block;
pub mod cell;
pub mod game;
pub mod grid;
pub mod rng;
pub mod sand;
