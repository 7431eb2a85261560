//! What can go wrong.

use vstd::prelude::*;

verus! {

/// A token at a place where the grammar expects a colour is not a colour.
///
/// `line` and `column` count from 1 and give the first byte of the token in
/// the configuration; both are 0 where the token did not come from a
/// configuration.
#[derive(Debug, PartialEq, Eq)]
pub struct InvalidColorToken {
    pub line: usize,
    pub column: usize,
    pub token: Vec<u8>,
}

/// The mathematical content of an `InvalidColorToken`.
pub struct Fault {
    pub line: nat,
    pub column: nat,
    pub token: Seq<u8>,
}

impl View for InvalidColorToken {
    type V = Fault;

    open spec fn view(&self) -> Fault {
        Fault { line: self.line as nat, column: self.column as nat, token: self.token@ }
    }
}

/// A place in a theme document, in the YAML parser's counting: `index` and
/// `column` from 0, `line` from 1.
#[derive(Clone, Copy, Debug, PartialEq, Eq)]
pub struct Position {
    pub index: usize,
    pub line: usize,
    pub column: usize,
}

impl Position {
    /// The start of a document.
    pub open spec fn spec_start() -> Position {
        Position { index: 0, line: 1, column: 0 }
    }

    #[verifier::when_used_as_spec(spec_start)]
    pub fn start() -> (p: Position)
        ensures
            p == Position::spec_start(),
    {
        Position { index: 0, line: 1, column: 0 }
    }
}

/// Why a theme document gives no theme.
#[derive(Debug, PartialEq, Eq)]
pub enum StyleError {
    /// The document is malformed at the given place.
    Decode(Position),
    /// A slot of the document holds a text that is no colour token.
    InvalidColorToken(InvalidColorToken),
}

/// The mathematical content of a `StyleError`.
pub enum StyleFault {
    Decode(Position),
    InvalidColorToken(Fault),
}

impl View for StyleError {
    type V = StyleFault;

    open spec fn view(&self) -> StyleFault {
        match self {
            StyleError::Decode(p) => StyleFault::Decode(*p),
            StyleError::InvalidColorToken(e) => StyleFault::InvalidColorToken(e@),
        }
    }
}

} // verus!
