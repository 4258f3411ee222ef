use vstd::prelude::*;
use crate::token::Tok;

verus! {

/// Why an integer literal was rejected.
#[derive(Clone, Copy, PartialEq, Eq, Structural, Debug)]
pub enum IntFault {
    /// No digits were left after separators were removed.
    Empty,
    /// A character was not a digit of the literal's base.
    BadDigit,
    /// The digits exceed the unsigned range of the target width.
    Overflow,
}

/// What kind of failure aborted the parse.
#[derive(Clone, Debug)]
pub enum ErrorKind {
    /// A token (or end of input) other than the expected one was met.
    Unexpected { expected: String, token: Option<Tok> },
    /// A negative integer literal whose magnitude exceeds the signed range.
    TooSmallInt { ty: String, digits: u64 },
    /// An integer literal that does not parse in the unsigned target range.
    InvalidInt { ty: String, fault: IntFault },
    /// A decimal float literal that does not decode.
    InvalidFloat { ty: String },
    /// A hexadecimal float literal that does not decode.
    InvalidHexFloat { ty: String },
    /// A string literal with a malformed escape.
    InvalidStringLiteral { lit: String, reason: String },
    /// A string literal whose decoded bytes are not valid text.
    Utf8Error,
    /// The token source failed; the message describes the lexical fault.
    Lex(String),
    /// The module grammar delegate failed; the message describes the fault.
    Wat(String),
}

/// A parse failure: its kind, the byte offset it was raised at, and at most
/// one earlier error that was discarded by speculative parsing.
#[derive(Debug)]
pub struct Error {
    pub kind: ErrorKind,
    pub pos: usize,
    pub prev_error: Option<Box<Error>>,
}

impl Error {
    /// True when the chain of discarded errors is at most one level deep.
    pub open spec fn bounded_chain(&self) -> bool {
        match self.prev_error {
            Some(p) => p.prev_error is None,
            None => true,
        }
    }
}

} // verus!
