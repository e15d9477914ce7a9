use vstd::prelude::*;

use crate::token::{Tok, Token};

verus! {

/// A failure of the scanner, with the position (in characters) where it arose.
#[derive(Clone, Copy, Debug, PartialEq, Eq, Structural)]
pub enum LexError {
    /// A character that starts no token.
    UnexpectedChar { ch: char, pos: usize },
    /// A `:` that is not followed by `=`.
    IncompleteAssign { pos: usize },
    /// A digit run whose value does not fit in a 32-bit signed integer.
    IntegerOverflow { pos: usize },
}

/// Every way in which scanning, parsing or evaluating can fail.
#[derive(Debug)]
pub enum Error {
    /// The source text holds no valid token at some position.
    Lex(LexError),
    /// The grammar asked for a token of the kind `expected`; `found` is what
    /// came instead (`None`: the end of the input).
    Syntax { expected: Token, found: Option<Token> },
    /// No expression can start with `found` (`None`: the end of the input).
    UnexpectedToken { found: Option<Token> },
    /// A complete expression or program is followed by more input.
    TrailingInput { found: Token },
    /// A variable was read before any value was assigned to it.
    UndefinedVariable { name: String },
    /// The right operand of `/` evaluated to zero.
    DivisionByZero,
    /// An arithmetic result does not fit in a 32-bit signed integer.
    Overflow,
}

/// The mathematical model of an error.
pub enum Fault {
    Lex(LexError),
    Syntax { expected: Tok, found: Option<Tok> },
    UnexpectedToken { found: Option<Tok> },
    TrailingInput { found: Tok },
    UndefinedVariable { name: Seq<char> },
    DivisionByZero,
    Overflow,
}

/// The model of an optional token.
pub open spec fn opt_tok(t: Option<Token>) -> Option<Tok> {
    match t {
        Some(t) => Some(t@),
        None => None,
    }
}

impl View for Error {
    type V = Fault;

    open spec fn view(&self) -> Fault {
        match self {
            Error::Lex(e) => Fault::Lex(*e),
            Error::Syntax { expected, found } => Fault::Syntax {
                expected: expected@,
                found: opt_tok(*found),
            },
            Error::UnexpectedToken { found } => Fault::UnexpectedToken { found: opt_tok(*found) },
            Error::TrailingInput { found } => Fault::TrailingInput { found: found@ },
            Error::UndefinedVariable { name } => Fault::UndefinedVariable { name: name@ },
            Error::DivisionByZero => Fault::DivisionByZero,
            Error::Overflow => Fault::Overflow,
        }
    }
}

} // verus!
