pub mod board;
pub mod graph;
pub mod hex;
pub mod player;
pub mod rng;
pub mod solver;
