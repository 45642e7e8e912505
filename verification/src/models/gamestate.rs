//! A save as a record: its metadata and its gamestate.

use crate::date::ImperatorDate;
use vstd::prelude::*;

verus! {

/// A save: what its two sections hold.
#[derive(Debug)]
pub struct Save {
    pub meta: Metadata,
    pub gamestate: GameState,
}

/// What the metadata of a save holds.
#[derive(Debug)]
pub struct Metadata {
    pub version: String,
    pub date: ImperatorDate,
    pub ironman: bool,
    pub meta_player_name: Option<String>,
    pub enabled_dlcs: Vec<String>,
    pub play_time: i32,
    pub iron: bool,
}

/// What the gamestate of a save holds.
#[derive(Debug)]
pub struct GameState {
    pub speed: i32,
}

} // verus!
