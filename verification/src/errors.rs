//! What can go wrong while a save is read or melted.

use vstd::prelude::*;

verus! {

/// `jomini::Error`, which the text writer fails with. The library hands it on
/// and does not look into it.
#[verifier::external_type_specification]
#[verifier::external_body]
pub struct ExJominiError(jomini::Error);

/// Specific type of error.
#[derive(Debug)]
pub enum ImperatorErrorKind {
    /// The binary data ends in the middle of a token.
    Truncated,
    /// A colour token is not followed by three or four numbers in braces.
    InvalidToken,
    /// The text writer refused what it was given; it says why.
    Writer(jomini::Error),
    /// A token has no name, and the caller asked for that to be an error.
    UnknownToken { token_id: u16 },
    /// The first line of the save is not a header.
    InvalidHeader,
}

/// An error of this library. It is one pointer wide.
#[derive(Debug)]
pub struct ImperatorError(Box<ImperatorErrorKind>);

impl View for ImperatorError {
    type V = ImperatorErrorKind;

    closed spec fn view(&self) -> ImperatorErrorKind {
        *self.0
    }
}

impl ImperatorError {
    /// An error of the given kind.
    pub fn new(kind: ImperatorErrorKind) -> (r: ImperatorError)
        ensures
            r@ == kind,
    {
        ImperatorError(Box::new(kind))
    }

    /// Return the specific type of error.
    pub fn kind(&self) -> (r: &ImperatorErrorKind)
        ensures
            *r == self@,
    {
        &*self.0
    }

    /// Give up the error for its specific type.
    pub fn into_kind(self) -> (r: ImperatorErrorKind)
        ensures
            r == self@,
    {
        *self.0
    }
}

} // verus!
