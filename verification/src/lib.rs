//! Hand and deck engine for an elemental card-combat minigame.

pub mod commands;
pub mod display;
pub mod effect;
pub mod error;
pub mod matching;
pub mod order;
pub mod parse;
pub mod state;
pub mod store;
pub mod text;
pub mod types;
