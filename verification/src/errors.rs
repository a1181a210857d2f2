//! The unified error taxonomy of the pipeline.
//!
//! Three kinds cover every failure: an unrecognized character in the lexical
//! stage, a token that is invalid at its grammatical position in the parse
//! stage, and an input/output failure while running. Every stage fails fast:
//! the first error aborts the stage with no partial result.

use vstd::prelude::*;

use crate::tokens::TokenKind;

verus! {

/// Errors that can occur while lexing.
#[derive(Debug, Clone, Copy, Eq, PartialEq, Structural)]
pub enum LexerError {
    /// An unexpected character was encountered.
    UnexpectedCharacter(char),
}

/// Errors that can occur while parsing.
#[derive(Debug, Clone, Copy, Eq, PartialEq, Structural)]
pub enum ParserError {
    /// An unexpected token was encountered. A stray closing bracket reports
    /// its own kind; input that ends inside an open loop reports the
    /// `EndOfFile` sentinel.
    UnexpectedToken(TokenKind),
}

/// Errors that can occur anywhere in the pipeline.
#[derive(Debug, Clone, Copy, Eq, PartialEq, Structural)]
pub enum LanguageError {
    /// An unexpected character was encountered while lexing.
    UnexpectedCharacter(char),
    /// An unexpected token was encountered while parsing.
    UnexpectedToken(TokenKind),
    /// An input/output failure. The interpreter runs strict: a read past the
    /// end of the input stream reports this error rather than substituting a
    /// default byte. Callers that drive real device I/O map their host
    /// errors onto this kind.
    IoError,
}

} // verus!
