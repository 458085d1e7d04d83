//! A falling-sand cellular automaton: a fixed-size grid of material cells
//! that evolves one full scan at a time under per-material rules
//! (gravity, liquid flow, granular piling, combustion, corrosion).

pub mod board;
pub mod physics;
pub mod rng;
pub mod tile;
