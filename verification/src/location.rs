//! Positions as a reader of the text counts them.

use vstd::prelude::*;

use crate::tree::Span;

verus! {

/// A position in the analyzed text: one-based line and column, and the
/// length of the token in bytes.
#[derive(Clone, Copy, Debug, PartialEq, Eq, Structural)]
pub struct Location {
    pub line: usize,
    pub column: usize,
    pub length: usize,
}

impl Location {
    /// The location of a span: its row and column counted from one, and the
    /// number of bytes it covers.
    pub open spec fn at(span: Span) -> Location {
        Location {
            line: (span.row + 1) as usize,
            column: (span.column + 1) as usize,
            length: (span.end_byte - span.start_byte) as usize,
        }
    }

    /// Computes the location of a valid span.
    pub fn of(span: Span) -> (location: Location)
        requires
            span.valid(),
        ensures
            location == Location::at(span),
            location.line == span.row + 1,
            location.column == span.column + 1,
            location.length == span.end_byte - span.start_byte,
    {
        Location {
            line: span.row + 1,
            column: span.column + 1,
            length: span.end_byte - span.start_byte,
        }
    }
}

} // verus!
