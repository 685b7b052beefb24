//! What a failed parse reports.

use vstd::prelude::*;

verus! {

/// The ways in which a text can fail to be an element.
#[derive(Clone, Copy, Debug, PartialEq, Eq)]
pub enum ParseErrorKind {
    /// The grammar asks for something else at this position.
    UnexpectedCharacter,
    /// A quoted string is opened and the text ends before it is closed.
    UnterminatedQuotedString,
    /// An element's body ends without the closing `>`.
    UnterminatedElement,
    /// A tag is expected and no character of a name stands there.
    EmptyIdentifier,
}

/// A failure, with the position of the offending character, counted in
/// characters from the start of the text.
#[derive(Clone, Copy, Debug, PartialEq, Eq)]
pub struct ParseError {
    pub kind: ParseErrorKind,
    pub position: usize,
}

/// The model of a failure: its position is a mathematical integer.
pub struct ErrorView {
    pub kind: ParseErrorKind,
    pub position: int,
}

impl View for ParseError {
    type V = ErrorView;

    open spec fn view(&self) -> ErrorView {
        ErrorView { kind: self.kind, position: self.position as int }
    }
}

/// Whether `r` is the failure of the given kind at the given position.
pub open spec fn fails_with<T>(
    r: Result<T, ParseError>,
    kind: ParseErrorKind,
    position: int,
) -> bool {
    r matches Err(e) && e.kind == kind && e.position == position
}

} // verus!
