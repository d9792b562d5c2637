//! A small agricultural cellular automaton: a rectangular field of tiles
//! cycles through four seasons per year. Seeds germinate into plants in
//! spring, random frost and drought events cull plants, surviving plants
//! scatter seeds to their eight neighbours in autumn, and winter clears the
//! field and advances the year.

pub mod cli;
pub mod field;
mod rng;
pub mod render;
pub mod seasons;
pub mod tile;
