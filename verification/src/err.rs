//! The two error kinds of the interpreter. Both carry only a
//! human-readable message: no codes and no source positions.

use vstd::prelude::*;

verus! {

/// A lexical or structural error, raised by the lexer or the parser
/// before any statement executes.
#[derive(Debug)]
pub struct ParseError {
    pub msg: String,
}

impl ParseError {
    /// Builds an error around the given message.
    pub fn new(msg: String) -> (r: ParseError)
        ensures
            r.msg@ == msg@,
    {
        ParseError { msg }
    }

    /// The human-readable message carried by this error.
    pub fn message(&self) -> (r: &String)
        ensures
            r@ == self.msg@,
    {
        &self.msg
    }
}

/// An error raised during evaluation: an unbound identifier, a
/// non-Boolean conditional test, or mismatched operand kinds.
#[derive(Debug)]
pub struct RuntimeError {
    pub msg: String,
}

impl RuntimeError {
    /// Builds an error around the given message.
    pub fn new(msg: String) -> (r: RuntimeError)
        ensures
            r.msg@ == msg@,
    {
        RuntimeError { msg }
    }

    /// The human-readable message carried by this error.
    pub fn message(&self) -> (r: &String)
        ensures
            r@ == self.msg@,
    {
        &self.msg
    }
}

} // verus!
