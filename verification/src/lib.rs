//! The playing core of a chess program: move generation, move application
//! with check safety, mate detection, position evaluation and game-tree
//! search.

pub mod cache;
pub mod cpu;
pub mod engine;
pub mod evalfunc;
pub mod evaluation;
pub mod gather;
pub mod listing;
pub mod moves;
pub mod notation;
pub mod opening;
pub mod safety;
pub mod types;
