//! The metadata of a save, as a save that stands alone holds it.

use crate::date::ImperatorDate;
use std::borrow::Cow;
use vstd::prelude::*;

verus! {

/// The metadata of a save, its texts owned.
#[derive(Debug)]
pub struct HeaderOwned {
    pub save_game_version: i32,
    pub version: String,
    pub date: ImperatorDate,
    pub ironman: bool,
    pub meta_player_name: Option<String>,
    pub enabled_dlcs: Vec<String>,
    pub play_time: i32,
    pub iron: bool,
}

/// The metadata of a save, its texts borrowed from the save where they can be.
#[derive(Debug)]
pub struct HeaderBorrowed<'a> {
    pub save_game_version: i32,
    pub version: Cow<'a, str>,
    pub date: ImperatorDate,
    pub ironman: bool,
    pub meta_player_name: Option<Cow<'a, str>>,
    pub enabled_dlcs: Vec<Cow<'a, str>>,
    pub play_time: i32,
    pub iron: bool,
}

} // verus!
