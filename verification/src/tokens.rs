//! Tokens produced by the lexer: a kind plus the half-open character-offset
//! range the token occupies in the source.

use vstd::prelude::*;

use crate::errors::LanguageError;

verus! {

/// All the kinds of tokens the lexer can produce.
///
/// Eight kinds map one-to-one to the language's symbols. `EndOfFile` is a
/// sentinel used only in error reports: the scanner never emits it.
#[derive(Debug, Clone, Copy, Eq, PartialEq, Structural)]
pub enum TokenKind {
    Plus,
    Minus,
    GreaterThan,
    LessThan,
    OpeningBracket,
    ClosingBracket,
    Comma,
    Dot,
    EndOfFile,
}

/// The token kind a source character scans to, if any.
pub open spec fn kind_of(c: char) -> Option<TokenKind> {
    if c == '+' {
        Some(TokenKind::Plus)
    } else if c == '-' {
        Some(TokenKind::Minus)
    } else if c == '>' {
        Some(TokenKind::GreaterThan)
    } else if c == '<' {
        Some(TokenKind::LessThan)
    } else if c == '[' {
        Some(TokenKind::OpeningBracket)
    } else if c == ']' {
        Some(TokenKind::ClosingBracket)
    } else if c == ',' {
        Some(TokenKind::Comma)
    } else if c == '.' {
        Some(TokenKind::Dot)
    } else {
        None
    }
}

/// The source symbol of a token kind; the inverse of `kind_of` on the eight
/// real kinds. The `EndOfFile` sentinel has no source symbol.
pub open spec fn symbol_of(k: TokenKind) -> char {
    match k {
        TokenKind::Plus => '+',
        TokenKind::Minus => '-',
        TokenKind::GreaterThan => '>',
        TokenKind::LessThan => '<',
        TokenKind::OpeningBracket => '[',
        TokenKind::ClosingBracket => ']',
        TokenKind::Comma => ',',
        TokenKind::Dot => '.',
        TokenKind::EndOfFile => '\u{0}',
    }
}

impl TokenKind {
    /// Scan one character into a token kind; any character that is not one
    /// of the eight symbols is rejected as `UnexpectedCharacter`.
    pub fn try_from(value: char) -> (r: Result<TokenKind, LanguageError>)
        ensures
            r == match kind_of(value) {
                Some(k) => Result::<TokenKind, LanguageError>::Ok(k),
                None => Result::<TokenKind, LanguageError>::Err(
                    LanguageError::UnexpectedCharacter(value),
                ),
            },
    {
        let kind = match value {
            '+' => TokenKind::Plus,
            '-' => TokenKind::Minus,
            '>' => TokenKind::GreaterThan,
            '<' => TokenKind::LessThan,
            '[' => TokenKind::OpeningBracket,
            ']' => TokenKind::ClosingBracket,
            ',' => TokenKind::Comma,
            '.' => TokenKind::Dot,
            _ => {
                return Err(LanguageError::UnexpectedCharacter(value));
            },
        };
        Ok(kind)
    }

    /// The symbol this kind renders back to; the sentinel renders as `"EoF"`.
    pub fn symbol(&self) -> (s: &'static str)
        ensures
            s@ == spec_symbol(*self),
    {
        proof {
            reveal_strlit("+");
            reveal_strlit("-");
            reveal_strlit(">");
            reveal_strlit("<");
            reveal_strlit("[");
            reveal_strlit("]");
            reveal_strlit(",");
            reveal_strlit(".");
            reveal_strlit("EoF");
        }
        match self {
            TokenKind::Plus => "+",
            TokenKind::Minus => "-",
            TokenKind::GreaterThan => ">",
            TokenKind::LessThan => "<",
            TokenKind::OpeningBracket => "[",
            TokenKind::ClosingBracket => "]",
            TokenKind::Comma => ",",
            TokenKind::Dot => ".",
            TokenKind::EndOfFile => "EoF",
        }
    }
}

/// What `TokenKind::symbol` returns: one character per real kind, the three
/// letters `EoF` for the sentinel.
pub open spec fn spec_symbol(k: TokenKind) -> Seq<char> {
    if k == TokenKind::EndOfFile {
        seq!['E', 'o', 'F']
    } else {
        seq![symbol_of(k)]
    }
}

/// A token: a kind and the half-open character-offset range it covers.
#[derive(Debug, Eq, PartialEq)]
pub struct Token {
    pub kind: TokenKind,
    pub span: core::ops::Range<usize>,
}

/// The mathematical content of a token: its kind and span bounds.
pub struct TokenModel {
    pub kind: TokenKind,
    pub start: int,
    pub end: int,
}

impl View for Token {
    type V = TokenModel;

    open spec fn view(&self) -> TokenModel {
        TokenModel { kind: self.kind, start: self.span.start as int, end: self.span.end as int }
    }
}

impl Token {
    /// Create a new token of the given kind covering the given span.
    pub fn new(kind: TokenKind, span: core::ops::Range<usize>) -> (t: Token)
        ensures
            t.kind == kind,
            t.span.start == span.start,
            t.span.end == span.end,
    {
        Self { kind, span }
    }
}

/// The kinds of a token sequence, in order, spans dropped.
pub open spec fn kinds_of(ts: Seq<TokenModel>) -> Seq<TokenKind> {
    ts.map_values(|t: TokenModel| t.kind)
}

/// The source characters of a kind sequence, symbol for symbol.
pub open spec fn syms(ks: Seq<TokenKind>) -> Seq<char> {
    ks.map_values(|k: TokenKind| symbol_of(k))
}

/// The models of a sequence of tokens, element for element.
pub open spec fn views_of(ts: Seq<Token>) -> Seq<TokenModel> {
    ts.map_values(|t: Token| t@)
}

} // verus!
