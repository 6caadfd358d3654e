//! Aggregation of kill records into per-killer and per-weapon statistics,
//! with the rankings of the most lethal killers and weapons.

pub mod fields;
pub mod laws;
pub mod merge;
pub mod name_map;
pub mod order;
pub mod output;
pub mod player;
pub mod tally;
pub mod top;
pub mod utils;
pub mod valid;
pub mod weapon;
