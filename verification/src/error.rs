//! What an operation on a document reports when it cannot be carried out.

use vstd::prelude::*;

verus! {

/// The ways in which an operation can be refused. A refused operation leaves
/// the text, the caret and the history as they were.
#[derive(Debug, Clone, Copy, PartialEq, Eq, Structural)]
pub enum Error {
    /// A character index, a range or a caret lies outside the text.
    OutOfBounds,
    /// The grammar handed to the parser was generated for another version of
    /// the parsing library.
    IncompatibleLanguage,
    /// The bytes handed over as a text are not valid UTF-8.
    InvalidUtf8,
}

impl Error {
    /// A sentence for a status line.
    pub fn message(&self) -> (text: String)
        ensures
            text@ == match *self {
                Error::OutOfBounds => "position outside the text"@,
                Error::IncompatibleLanguage => "grammar not compatible with the parser"@,
                Error::InvalidUtf8 => "text is not valid UTF-8"@,
            },
    {
        match self {
            Error::OutOfBounds => "position outside the text".to_string(),
            Error::IncompatibleLanguage => "grammar not compatible with the parser".to_string(),
            Error::InvalidUtf8 => "text is not valid UTF-8".to_string(),
        }
    }
}

} // verus!
