//! The ways in which reading a source text can fail.

use vstd::prelude::*;

verus! {

/// Why no syntax tree could be built. Every failure ends the whole parse.
#[derive(Clone, Copy, Debug, PartialEq, Eq, Structural)]
pub enum ParseError {
    /// A run of digits denotes a number above `i64::MAX`.
    NumberOverflow,
    /// An expression or a closing bracket was expected where the tokens end.
    UnexpectedEnd,
    /// An expression begins with a closing bracket, or a form that is complete
    /// is followed by something other than its closing bracket.
    UnexpectedToken,
    /// An opening bracket is not followed by a symbol.
    InvalidForm,
    /// The lexer met a character that opens no kind of run.
    InvalidCharacter,
}

/// The result `rest` with `head` put in front of what it holds.
pub open spec fn prepend<T>(head: Seq<T>, rest: Result<Seq<T>, ParseError>) -> Result<
    Seq<T>,
    ParseError,
> {
    match rest {
        Ok(tail) => Ok(head + tail),
        Err(e) => Err(e),
    }
}

} // verus!
