//! The four forms in which a save comes.

use crate::header::{value_of_kind, SaveHeaderKind};
use vstd::prelude::*;

verus! {

/// Describes the format of the save before decoding
#[derive(Debug, Clone, Copy, Eq, PartialEq, Structural)]
pub enum Encoding {
    /// Save is encoded with the debug plaintext format:
    ///
    ///  - a save id line
    ///  - uncompressed text gamestate
    Text,
    /// Non-native plaintext imperator format
    ///
    ///  - a save id line
    ///  - zip with compressed plaintext gamestate
    TextZip,
    /// A standard ironman or normal save
    ///
    ///  - a save id line
    ///  - zip with compressed binary gamestate
    BinaryZip,
    /// Non-native binary imperator format
    ///
    ///  - a save id line
    ///  - uncompressed binary gamestate
    Binary,
}

/// The form that a kind of header announces: kinds 0 and 1 are plain, 2 to 5
/// hold a zip; even kinds are text, odd ones binary. Other kinds announce none.
pub open spec fn encoding_of(kind: u16) -> Option<Encoding> {
    if kind == 0 {
        Some(Encoding::Text)
    } else if kind == 1 {
        Some(Encoding::Binary)
    } else if kind == 2 || kind == 4 {
        Some(Encoding::TextZip)
    } else if kind == 3 || kind == 5 {
        Some(Encoding::BinaryZip)
    } else {
        None
    }
}

impl Encoding {
    /// The form of the save that a header of the given kind stands before.
    pub fn of_header(kind: SaveHeaderKind) -> (r: Option<Encoding>)
        ensures
            r == encoding_of(value_of_kind(kind)),
    {
        let value: u16 = kind.value();
        if value == 0 {
            Some(Encoding::Text)
        } else if value == 1 {
            Some(Encoding::Binary)
        } else if value == 2 || value == 4 {
            Some(Encoding::TextZip)
        } else if value == 3 || value == 5 {
            Some(Encoding::BinaryZip)
        } else {
            None
        }
    }
}

} // verus!
