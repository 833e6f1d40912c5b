//! The two error kinds of the library: `Parse` for malformed input at a
//! specific position, and `Bug` for an internal invariant violation of the
//! state machine itself.

use crate::cursor::Position;
use crate::strings::{spec_u64_string, u64_to_string};
use vstd::prelude::*;
use vstd::string::StringExecFns;

verus! {

/// A line/column pair naming where in the input a failure was noticed.
#[derive(Debug, Clone, Copy, PartialEq, Eq, Structural)]
pub struct ParseLocation {
    pub line: u64,
    pub column: u64,
}

/// The error type of the parser.
///
/// `Parse` means the user's input is malformed XML at the carried position;
/// the caller can always recover by discarding the input. `Bug` means an
/// internal invariant of the parser was violated and indicates a defect in
/// the state machine, not in the input.
#[derive(Debug, Clone)]
pub enum Error {
    Parse { position: Position },
    Bug { message: String },
}

impl Error {
    /// True exactly for the `Parse` kind.
    pub fn is_parse(&self) -> (r: bool)
        ensures
            r == (self is Parse),
    {
        match self {
            Error::Parse { .. } => true,
            Error::Bug { .. } => false,
        }
    }

    /// True exactly for the `Bug` kind.
    pub fn is_bug(&self) -> (r: bool)
        ensures
            r == (self is Bug),
    {
        match self {
            Error::Parse { .. } => false,
            Error::Bug { .. } => true,
        }
    }

    /// The error rendered as text: `"{line}:{column} <message>"` for a
    /// parse error at a position, the carried message alone for an internal
    /// error.
    pub fn render(&self) -> (r: String)
        ensures
            match self {
                Error::Parse { position } => r@ == spec_u64_string(position.line as int) + ":"@
                    + spec_u64_string(position.column as int) + " malformed input"@,
                Error::Bug { message } => r@ == message@,
            },
    {
        match self {
            Error::Parse { position } => {
                let mut out = u64_to_string(position.line);
                out.append(":");
                let col = u64_to_string(position.column);
                out.append(col.as_str());
                out.append(" malformed input");
                out
            },
            Error::Bug { message } => message.clone(),
        }
    }

    /// The line/column of a `Parse` error; a `Bug` carries no position.
    pub fn location(&self) -> (r: Option<ParseLocation>)
        ensures
            match r {
                Some(loc) => self matches Error::Parse { position } && loc.line == position.line
                    && loc.column == position.column,
                None => self is Bug,
            },
    {
        match self {
            Error::Parse { position } => Some(
                ParseLocation { line: position.line, column: position.column },
            ),
            Error::Bug { .. } => None,
        }
    }
}

} // verus!
