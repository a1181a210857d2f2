//! The recursive-descent parser. It consumes tokens left to right, one
//! statement per token, nesting bracketed regions into loop nodes.
//!
//! Its contract is stated over two linear token-kind scanners:
//! [`close_pos`] finds the closing bracket that ends the region a parse is
//! inside of, and [`scan`] classifies a whole token sequence as balanced or
//! as failing in one of three ways. Parsing succeeds exactly on balanced
//! sequences, and the forest it returns flattens back to the consumed kinds.
//!
//! Input that ends inside an open loop is rejected with the `EndOfFile`
//! sentinel kind rather than silently closing the loop: an unterminated
//! loop is an error here.

use vstd::prelude::*;

use crate::errors::ParserError;
use crate::lexer::{lemma_lex_strips, spec_lex, strip_ws};
use crate::statements::{flat_seq, flat_stmt, lemma_flat_seq_snoc, Statement};
use crate::tokens::{kinds_of, syms, Token, TokenKind, TokenModel};

verus! {

/// How a left-to-right scan of a token-kind sequence ends.
pub enum ScanOutcome {
    /// Every bracket matched and no sentinel appeared: the sequence parses.
    Balanced,
    /// A closing bracket appeared at nesting depth zero.
    StrayClose,
    /// The sequence ended with at least one bracket still open.
    Unterminated,
    /// An `EndOfFile` sentinel token appeared in the sequence.
    Sentinel,
}

/// Classify the kinds from offset `i` at nesting depth `d`: the first stray
/// closing bracket, sentinel token, or open bracket left at the end decides
/// the outcome.
pub open spec fn scan(ks: Seq<TokenKind>, i: int, d: int) -> ScanOutcome
    decreases ks.len() - i,
{
    if i < 0 || i >= ks.len() {
        if d == 0 {
            ScanOutcome::Balanced
        } else {
            ScanOutcome::Unterminated
        }
    } else if ks[i] == TokenKind::EndOfFile {
        ScanOutcome::Sentinel
    } else if ks[i] == TokenKind::ClosingBracket {
        if d == 0 {
            ScanOutcome::StrayClose
        } else {
            scan(ks, i + 1, d - 1)
        }
    } else if ks[i] == TokenKind::OpeningBracket {
        scan(ks, i + 1, d + 1)
    } else {
        scan(ks, i + 1, d)
    }
}

/// The offset of the `(d+1)`-th unmatched closing bracket at or after `i`,
/// or `None` if the sequence ends, or a sentinel token appears, first.
pub open spec fn close_pos(ks: Seq<TokenKind>, i: int, d: int) -> Option<int>
    decreases ks.len() - i,
{
    if i < 0 || i >= ks.len() {
        None
    } else if ks[i] == TokenKind::EndOfFile {
        None
    } else if ks[i] == TokenKind::ClosingBracket {
        if d == 0 {
            Some(i)
        } else {
            close_pos(ks, i + 1, d - 1)
        }
    } else if ks[i] == TokenKind::OpeningBracket {
        close_pos(ks, i + 1, d + 1)
    } else {
        close_pos(ks, i + 1, d)
    }
}

/// A found closing bracket lies within the sequence, at or after the start
/// of the search, and is indeed a closing bracket.
pub proof fn lemma_close_pos_bounds(ks: Seq<TokenKind>, i: int, d: int)
    requires
        close_pos(ks, i, d) is Some,
    ensures
        i <= close_pos(ks, i, d)->Some_0 < ks.len(),
        ks[close_pos(ks, i, d)->Some_0] == TokenKind::ClosingBracket,
    decreases ks.len() - i,
{
    if 0 <= i < ks.len() && ks[i] == TokenKind::ClosingBracket && d == 0 {
    } else if 0 <= i < ks.len() && ks[i] != TokenKind::EndOfFile {
        if ks[i] == TokenKind::ClosingBracket {
            lemma_close_pos_bounds(ks, i + 1, d - 1);
        } else if ks[i] == TokenKind::OpeningBracket {
            lemma_close_pos_bounds(ks, i + 1, d + 1);
        } else {
            lemma_close_pos_bounds(ks, i + 1, d);
        }
    }
}

/// Searching for a deeper unmatched close first finds the shallowest one
/// and continues past it.
pub proof fn lemma_close_pos_peel(ks: Seq<TokenKind>, i: int, d: int)
    requires
        d >= 1,
    ensures
        close_pos(ks, i, d) == match close_pos(ks, i, 0) {
            Some(j) => close_pos(ks, j + 1, d - 1),
            None => None::<int>,
        },
    decreases ks.len() - i,
{
    if i < 0 || i >= ks.len() {
    } else if ks[i] == TokenKind::EndOfFile {
    } else if ks[i] == TokenKind::ClosingBracket {
    } else if ks[i] == TokenKind::OpeningBracket {
        lemma_close_pos_peel(ks, i + 1, d + 1);
        lemma_close_pos_peel(ks, i + 1, 1);
        match close_pos(ks, i + 1, 0) {
            Some(j1) => {
                lemma_close_pos_bounds(ks, i + 1, 0);
                lemma_close_pos_peel(ks, j1 + 1, d);
                match close_pos(ks, j1 + 1, 0) {
                    Some(j2) => {
                        lemma_close_pos_bounds(ks, j1 + 1, 0);
                    },
                    None => {},
                }
            },
            None => {},
        }
    } else {
        lemma_close_pos_peel(ks, i + 1, d);
    }
}

/// Scanning from inside a bracketed region continues, after the region's
/// matching close, at the depth outside it.
pub proof fn lemma_scan_after_close(ks: Seq<TokenKind>, i: int, d: int, cap: int)
    requires
        0 <= d,
        d + 1 <= cap,
        close_pos(ks, i, d) is Some,
    ensures
        scan(ks, i, cap) == scan(ks, close_pos(ks, i, d)->Some_0 + 1, cap - d - 1),
    decreases ks.len() - i,
{
    if 0 <= i < ks.len() && ks[i] != TokenKind::EndOfFile {
        if ks[i] == TokenKind::ClosingBracket {
            if d != 0 {
                lemma_scan_after_close(ks, i + 1, d - 1, cap - 1);
            }
        } else if ks[i] == TokenKind::OpeningBracket {
            lemma_scan_after_close(ks, i + 1, d + 1, cap + 1);
        } else {
            lemma_scan_after_close(ks, i + 1, d, cap);
        }
    }
}

/// When no matching close exists, a scan that starts deep enough never sees
/// a stray close and cannot end balanced: the sequence is unterminated or
/// holds a sentinel.
pub proof fn lemma_scan_no_close(ks: Seq<TokenKind>, i: int, d: int, cap: int)
    requires
        0 <= d,
        d + 1 <= cap,
        close_pos(ks, i, d) is None,
    ensures
        scan(ks, i, cap) == ScanOutcome::Unterminated || scan(ks, i, cap) == ScanOutcome::Sentinel,
    decreases ks.len() - i,
{
    if i < 0 || i >= ks.len() {
    } else if ks[i] == TokenKind::EndOfFile {
    } else if ks[i] == TokenKind::ClosingBracket {
        lemma_scan_no_close(ks, i + 1, d - 1, cap - 1);
    } else if ks[i] == TokenKind::OpeningBracket {
        lemma_scan_no_close(ks, i + 1, d + 1, cap + 1);
    } else {
        lemma_scan_no_close(ks, i + 1, d, cap);
    }
}

/// How one kind changes the bracket nesting depth.
pub open spec fn depth_change(k: TokenKind) -> int {
    if k == TokenKind::OpeningBracket {
        1
    } else if k == TokenKind::ClosingBracket {
        -1
    } else {
        0
    }
}

/// The bracket nesting depth after the first `j` kinds.
pub open spec fn depth_of(ks: Seq<TokenKind>, j: int) -> int
    decreases j,
{
    if j <= 0 {
        0
    } else {
        depth_of(ks, j - 1) + depth_change(ks[j - 1])
    }
}

/// A token sequence with balanced brackets: no prefix closes more brackets
/// than it opened, the whole sequence closes every bracket, and no sentinel
/// token appears.
pub open spec fn balanced(ks: Seq<TokenKind>) -> bool {
    &&& forall|j: int| 0 <= j <= ks.len() ==> depth_of(ks, j) >= 0
    &&& depth_of(ks, ks.len() as int) == 0
    &&& forall|j: int| 0 <= j < ks.len() ==> ks[j] != TokenKind::EndOfFile
}

/// From any offset of a balanced sequence, scanning at the depth reached so
/// far ends balanced.
proof fn lemma_scan_depth(ks: Seq<TokenKind>, i: int)
    requires
        balanced(ks),
        0 <= i <= ks.len(),
    ensures
        scan(ks, i, depth_of(ks, i)) == ScanOutcome::Balanced,
    decreases ks.len() - i,
{
    if i < ks.len() {
        lemma_scan_depth(ks, i + 1);
        assert(ks[i] != TokenKind::EndOfFile);
        if ks[i] == TokenKind::ClosingBracket {
            assert(depth_of(ks, i + 1) >= 0);
        }
    }
}

/// Every balanced token sequence scans as balanced, so by the contract of
/// [`Parser::parse`] the parser succeeds on it.
pub proof fn lemma_balanced_scans(ks: Seq<TokenKind>)
    requires
        balanced(ks),
    ensures
        scan(ks, 0, 0) == ScanOutcome::Balanced,
{
    lemma_scan_depth(ks, 0);
}

/// Round trip of the front end: for a source that lexes, any forest that
/// flattens back to the scanned kinds renders, symbol for symbol, to the
/// source with its whitespace removed. The forest that [`Parser::parse`]
/// returns flattens so by its contract, and [`lemma_balanced_scans`] shows
/// the parse succeeds whenever the scanned kinds are balanced.
pub proof fn lemma_lex_parse_round_trip(s: Seq<char>, tvs: Seq<TokenModel>, f: Seq<Statement>)
    requires
        spec_lex(s, 0) == Ok::<Seq<TokenModel>, char>(tvs),
        flat_seq(f) == kinds_of(tvs),
    ensures
        syms(flat_seq(f)) == strip_ws(s, 0),
{
    lemma_lex_strips(s, 0);
}

/// The parser: the tokens under parse and the current token offset.
#[derive(Debug)]
pub struct Parser<'a> {
    tokens: &'a [Token],
    position: usize,
}

impl<'a> Parser<'a> {
    /// The kinds of the tokens under parse, in order.
    pub closed spec fn ks(self) -> Seq<TokenKind> {
        self.tokens@.map_values(|t: Token| t.kind)
    }

    /// The current token offset.
    pub closed spec fn pos(self) -> int {
        self.position as int
    }

    /// The offset never passes the end of the tokens.
    pub closed spec fn wf(self) -> bool {
        self.position <= self.tokens@.len()
    }

    /// Create a new parser over the given tokens, positioned at their start.
    pub fn new(tokens: &'a [Token]) -> (p: Parser<'a>)
        ensures
            p.ks() == tokens@.map_values(|t: Token| t.kind),
            p.pos() == 0,
            p.wf(),
    {
        Self { tokens, position: 0 }
    }

    /// The kind of the token under the current offset, if any.
    fn peek(&self) -> (k: Option<TokenKind>)
        requires
            self.wf(),
        ensures
            k == if self.pos() < self.ks().len() {
                Some(self.ks()[self.pos()])
            } else {
                None::<TokenKind>
            },
    {
        if self.position < self.tokens.len() {
            Some(self.tokens[self.position].kind)
        } else {
            None
        }
    }

    /// Advance to the next token.
    fn advance(&mut self)
        requires
            old(self).wf(),
            old(self).pos() < old(self).ks().len(),
        ensures
            final(self).wf(),
            final(self).ks() == old(self).ks(),
            final(self).pos() == old(self).pos() + 1,
    {
        let n: usize = self.tokens.len();
        proof {
            assert(self.position < n);
        }
        self.position += 1;
    }

    /// Parse the tokens from the current position into a forest.
    ///
    /// Succeeds exactly when the remaining kinds scan as balanced, and the
    /// returned forest flattens back to them, kind for kind. A closing
    /// bracket at depth zero is reported as itself; a sentinel token and
    /// input that ends inside an open loop are reported as `EndOfFile`.
    pub fn parse(&mut self) -> (r: Result<Vec<Statement>, ParserError>)
        requires
            old(self).wf(),
        ensures
            final(self).wf(),
            final(self).ks() == old(self).ks(),
            match r {
                Ok(f) => scan(old(self).ks(), old(self).pos(), 0) == ScanOutcome::Balanced
                    && flat_seq(f@) == old(self).ks().subrange(
                    old(self).pos(),
                    old(self).ks().len() as int,
                ),
                Err(e) => match e {
                    ParserError::UnexpectedToken(k) => (k == TokenKind::ClosingBracket && scan(
                        old(self).ks(),
                        old(self).pos(),
                        0,
                    ) == ScanOutcome::StrayClose) || (k == TokenKind::EndOfFile && (scan(
                        old(self).ks(),
                        old(self).pos(),
                        0,
                    ) == ScanOutcome::Unterminated || scan(old(self).ks(), old(self).pos(), 0)
                        == ScanOutcome::Sentinel)),
                },
            },
    {
        let mut statements: Vec<Statement> = Vec::new();
        proof {
            assert(flat_seq(statements@) =~= old(self).ks().subrange(
                old(self).pos(),
                old(self).pos(),
            ));
        }
        loop
            invariant
                self.wf(),
                self.ks() == old(self).ks(),
                old(self).pos() <= self.pos() <= old(self).ks().len(),
                flat_seq(statements@) == old(self).ks().subrange(old(self).pos(), self.pos()),
                scan(old(self).ks(), old(self).pos(), 0) == scan(
                    old(self).ks(),
                    self.pos(),
                    0,
                ),
            decreases old(self).ks().len() - self.pos(), 1int,
        {
            let ghost ks = old(self).ks();
            let ghost p00 = old(self).pos();
            let ghost q0 = self.pos();
            if self.peek().is_none() {
                return Ok(statements);
            }
            match self.statement() {
                Ok(s) => {
                    let ghost p1 = self.pos();
                    let ghost sv = s;
                    let ghost fs0 = statements@;
                    statements.push(s);
                    self.advance();
                    proof {
                        lemma_flat_seq_snoc(fs0, sv);
                        assert(statements@ == fs0.push(sv));
                        assert(ks.subrange(p00, q0) + ks.subrange(q0, p1 + 1) =~= ks.subrange(
                            p00,
                            p1 + 1,
                        ));
                        if ks[q0] == TokenKind::OpeningBracket {
                            lemma_scan_after_close(ks, q0 + 1, 0, 1);
                        }
                    }
                },
                Err(e) => {
                    proof {
                        if ks[q0] == TokenKind::OpeningBracket && close_pos(ks, q0 + 1, 0)
                            is None {
                            lemma_scan_no_close(ks, q0 + 1, 0, 1);
                        }
                    }
                    return Err(e);
                },
            }
        }
    }

    /// Parse one statement starting at the current token.
    ///
    /// A leaf consumes its one token and leaves the offset on it; a loop
    /// consumes through its matching close and leaves the offset on that
    /// close; the caller consumes the final token. A closing bracket at the
    /// start is invalid here and leaves the offset where it was; so are
    /// exhausted input, a sentinel token, and an opening bracket with no
    /// matching close, all reported as `EndOfFile`.
    fn statement(&mut self) -> (r: Result<Statement, ParserError>)
        requires
            old(self).wf(),
        ensures
            final(self).wf(),
            final(self).ks() == old(self).ks(),
            final(self).pos() >= old(self).pos(),
            match r {
                Ok(s) => old(self).pos() < old(self).ks().len() && final(self).pos() < old(
                    self,
                ).ks().len() && flat_stmt(s) == old(self).ks().subrange(
                    old(self).pos(),
                    final(self).pos() + 1,
                ) && old(self).ks()[old(self).pos()] != TokenKind::ClosingBracket && old(
                    self,
                ).ks()[old(self).pos()] != TokenKind::EndOfFile && (if old(self).ks()[old(
                    self,
                ).pos()] == TokenKind::OpeningBracket {
                    close_pos(old(self).ks(), old(self).pos() + 1, 0) == Some(final(self).pos())
                } else {
                    final(self).pos() == old(self).pos()
                }),
                Err(e) => match e {
                    ParserError::UnexpectedToken(k) => {
                        let ks = old(self).ks();
                        let p0 = old(self).pos();
                        let exhausted = p0 >= ks.len() && k == TokenKind::EndOfFile
                            && final(self).pos() == p0;
                        let stray_close = k == TokenKind::ClosingBracket && ks[p0]
                            == TokenKind::ClosingBracket && final(self).pos() == p0;
                        let at_sentinel = k == TokenKind::EndOfFile && ks[p0]
                            == TokenKind::EndOfFile;
                        let unterminated = k == TokenKind::EndOfFile && ks[p0]
                            == TokenKind::OpeningBracket && close_pos(ks, p0 + 1, 0) is None;
                        exhausted || (p0 < ks.len() && (stray_close || at_sentinel
                            || unterminated))
                    },
                },
            },
        decreases old(self).ks().len() - old(self).pos(), 0int,
    {
        let ghost ks = old(self).ks();
        let ghost p0 = old(self).pos();
        let kind = match self.peek() {
            Some(kind) => kind,
            None => {
                return Err(ParserError::UnexpectedToken(TokenKind::EndOfFile));
            },
        };
        proof {
            assert(ks[p0] == kind);
        }
        match kind {
            TokenKind::Plus => {
                proof {
                    assert(flat_stmt(Statement::Increment) =~= ks.subrange(p0, p0 + 1));
                }
                Ok(Statement::Increment)
            },
            TokenKind::Minus => {
                proof {
                    assert(flat_stmt(Statement::Decrement) =~= ks.subrange(p0, p0 + 1));
                }
                Ok(Statement::Decrement)
            },
            TokenKind::GreaterThan => {
                proof {
                    assert(flat_stmt(Statement::MoveRight) =~= ks.subrange(p0, p0 + 1));
                }
                Ok(Statement::MoveRight)
            },
            TokenKind::LessThan => {
                proof {
                    assert(flat_stmt(Statement::MoveLeft) =~= ks.subrange(p0, p0 + 1));
                }
                Ok(Statement::MoveLeft)
            },
            TokenKind::Comma => {
                proof {
                    assert(flat_stmt(Statement::Input) =~= ks.subrange(p0, p0 + 1));
                }
                Ok(Statement::Input)
            },
            TokenKind::Dot => {
                proof {
                    assert(flat_stmt(Statement::Output) =~= ks.subrange(p0, p0 + 1));
                }
                Ok(Statement::Output)
            },
            TokenKind::OpeningBracket => {
                let mut statements: Vec<Statement> = Vec::new();
                self.advance();
                proof {
                    assert(flat_seq(statements@) =~= ks.subrange(p0 + 1, p0 + 1));
                }
                loop
                    invariant
                        self.wf(),
                        self.ks() == old(self).ks(),
                        old(self).pos() < old(self).ks().len(),
                        old(self).ks()[old(self).pos()] == TokenKind::OpeningBracket,
                        old(self).pos() + 1 <= self.pos() <= old(self).ks().len(),
                        flat_seq(statements@) == old(self).ks().subrange(
                            old(self).pos() + 1,
                            self.pos(),
                        ),
                        close_pos(old(self).ks(), old(self).pos() + 1, 0) == close_pos(
                            old(self).ks(),
                            self.pos(),
                            0,
                        ),
                    decreases old(self).ks().len() - self.pos(), 1int,
                {
                    let ghost ks = old(self).ks();
                    let ghost p0 = old(self).pos();
                    let ghost q0 = self.pos();
                    let next_kind = match self.peek() {
                        Some(kind) => kind,
                        None => {
                            return Err(ParserError::UnexpectedToken(TokenKind::EndOfFile));
                        },
                    };
                    proof {
                        assert(ks[q0] == next_kind);
                    }
                    if next_kind == TokenKind::ClosingBracket {
                        let stmt = Statement::Loop(statements);
                        proof {
                            assert(seq![TokenKind::OpeningBracket] + ks.subrange(p0 + 1, q0)
                                + seq![TokenKind::ClosingBracket] =~= ks.subrange(p0, q0 + 1));
                        }
                        return Ok(stmt);
                    }
                    match self.statement() {
                        Ok(s) => {
                            let ghost p1c = self.pos();
                            let ghost sv = s;
                            let ghost fs0 = statements@;
                            statements.push(s);
                            self.advance();
                            proof {
                                lemma_flat_seq_snoc(fs0, sv);
                                assert(statements@ == fs0.push(sv));
                                assert(ks.subrange(p0 + 1, q0) + ks.subrange(q0, p1c + 1)
                                    =~= ks.subrange(p0 + 1, p1c + 1));
                                if ks[q0] == TokenKind::OpeningBracket {
                                    lemma_close_pos_peel(ks, q0 + 1, 1);
                                    lemma_close_pos_bounds(ks, q0 + 1, 0);
                                }
                            }
                        },
                        Err(e) => {
                            proof {
                                if ks[q0] == TokenKind::OpeningBracket && close_pos(
                                    ks,
                                    q0 + 1,
                                    0,
                                ) is None {
                                    lemma_close_pos_peel(ks, q0 + 1, 1);
                                }
                            }
                            return Err(e);
                        },
                    }
                }
            },
            TokenKind::ClosingBracket => Err(
                ParserError::UnexpectedToken(TokenKind::ClosingBracket),
            ),
            TokenKind::EndOfFile => Err(ParserError::UnexpectedToken(TokenKind::EndOfFile)),
        }
    }
}

} // verus!
