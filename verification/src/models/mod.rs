//! The records that a save is read into.

pub mod gamestate;
pub mod header;

pub use gamestate::{GameState, Metadata, Save};
pub use header::{HeaderBorrowed, HeaderOwned};
