//! The instruction tree. A program is an ordered forest of statements;
//! a `Loop` node owns the ordered sequence of its children.

use vstd::prelude::*;

use crate::tokens::{syms, TokenKind};

verus! {

/// One node of the instruction tree.
#[derive(Debug, PartialEq, Eq)]
pub enum Statement {
    /// Add one to the current cell, wrapping at 256.
    Increment,
    /// Subtract one from the current cell, wrapping below 0.
    Decrement,
    /// Move the pointer one cell to the left, wrapping at the tape edge.
    MoveLeft,
    /// Move the pointer one cell to the right, wrapping at the tape edge.
    MoveRight,
    /// Execute the children while the loop's entry cell is non-zero.
    Loop(Vec<Statement>),
    /// Read one byte from the input into the current cell.
    Input,
    /// Write the current cell as one byte to the output.
    Output,
}

/// The token kinds a statement flattens back to: one kind per leaf, an
/// opening bracket, the flattened children and a closing bracket per loop.
pub open spec fn flat_stmt(s: Statement) -> Seq<TokenKind>
    decreases s,
{
    match s {
        Statement::Increment => seq![TokenKind::Plus],
        Statement::Decrement => seq![TokenKind::Minus],
        Statement::MoveRight => seq![TokenKind::GreaterThan],
        Statement::MoveLeft => seq![TokenKind::LessThan],
        Statement::Input => seq![TokenKind::Comma],
        Statement::Output => seq![TokenKind::Dot],
        Statement::Loop(body) => seq![TokenKind::OpeningBracket] + flat_seq(body@) + seq![
            TokenKind::ClosingBracket,
        ],
    }
}

/// The token kinds a forest flattens back to, in order.
pub open spec fn flat_seq(ss: Seq<Statement>) -> Seq<TokenKind>
    decreases ss,
{
    if ss.len() == 0 {
        Seq::empty()
    } else {
        flat_stmt(ss[0]) + flat_seq(ss.drop_first())
    }
}

/// Flattening a forest extended by one statement appends that statement's
/// flattening.
pub proof fn lemma_flat_seq_snoc(ss: Seq<Statement>, s: Statement)
    ensures
        flat_seq(ss.push(s)) == flat_seq(ss) + flat_stmt(s),
    decreases ss.len(),
{
    if ss.len() == 0 {
        reveal_with_fuel(flat_seq, 2);
        assert(ss.push(s)[0] == s);
        assert(ss.push(s).drop_first() =~= Seq::<Statement>::empty());
        assert(flat_seq(ss.push(s)) =~= flat_seq(ss) + flat_stmt(s));
    } else {
        assert(ss.push(s).drop_first() =~= ss.drop_first().push(s));
        lemma_flat_seq_snoc(ss.drop_first(), s);
        assert(flat_seq(ss.push(s)) =~= flat_seq(ss) + flat_stmt(s));
    }
}

/// Symbol mapping distributes over concatenation of kind sequences.
pub proof fn lemma_syms_add(a: Seq<TokenKind>, b: Seq<TokenKind>)
    ensures
        syms(a + b) == syms(a) + syms(b),
{
    assert(syms(a + b) =~= syms(a) + syms(b));
}

/// A loop's child stands below the loop in the well-founded order that
/// justifies structural recursion over the tree.
pub proof fn lemma_loop_child_decreases(s: Statement, i: int)
    requires
        s is Loop,
        0 <= i < s->Loop_0@.len(),
    ensures
        decreases_to!(s => s->Loop_0@[i]),
{
    assert(decreases_to!(s => s->Loop_0));
    assert(decreases_to!(s->Loop_0 => s->Loop_0@));
    assert(decreases_to!(s->Loop_0@ => s->Loop_0@[i]));
}

/// Relies on `String::push`: appends the given character to the end of the
/// string.
#[verifier::external_body]
fn push_char(out: &mut String, c: char)
    ensures
        final(out)@ == old(out)@.push(c),
{
    out.push(c);
}

impl Statement {
    /// Render this statement back to its source symbols: its own symbol for
    /// a leaf, the bracketed rendering of the children for a loop.
    pub fn render(&self) -> (s: String)
        ensures
            s@ == syms(flat_stmt(*self)),
    {
        let mut out = String::new();
        self.render_into(&mut out);
        proof {
            assert(Seq::<char>::empty() + syms(flat_stmt(*self)) =~= syms(flat_stmt(*self)));
        }
        out
    }

    /// Append this statement's source symbols to `out`.
    fn render_into(&self, out: &mut String)
        ensures
            final(out)@ == old(out)@ + syms(flat_stmt(*self)),
        decreases *self,
    {
        match self {
            Statement::Increment => {
                push_char(out, '+');
                proof {
                    assert(old(out)@.push('+') =~= old(out)@ + syms(flat_stmt(*self)));
                }
            },
            Statement::Decrement => {
                push_char(out, '-');
                proof {
                    assert(old(out)@.push('-') =~= old(out)@ + syms(flat_stmt(*self)));
                }
            },
            Statement::MoveRight => {
                push_char(out, '>');
                proof {
                    assert(old(out)@.push('>') =~= old(out)@ + syms(flat_stmt(*self)));
                }
            },
            Statement::MoveLeft => {
                push_char(out, '<');
                proof {
                    assert(old(out)@.push('<') =~= old(out)@ + syms(flat_stmt(*self)));
                }
            },
            Statement::Input => {
                push_char(out, ',');
                proof {
                    assert(old(out)@.push(',') =~= old(out)@ + syms(flat_stmt(*self)));
                }
            },
            Statement::Output => {
                push_char(out, '.');
                proof {
                    assert(old(out)@.push('.') =~= old(out)@ + syms(flat_stmt(*self)));
                }
            },
            Statement::Loop(body) => {
                push_char(out, '[');
                let mut i: usize = 0;
                while i < body.len()
                    invariant
                        i <= body.len(),
                        *self == Statement::Loop(*body),
                        out@ == old(out)@.push('[') + syms(flat_seq(body@.take(i as int))),
                    decreases body.len() - i,
                {
                    proof {
                        lemma_loop_child_decreases(*self, i as int);
                    }
                    body[i].render_into(out);
                    proof {
                        assert(body@.take(i as int).push(body@[i as int]) =~= body@.take(
                            i as int + 1,
                        ));
                        lemma_flat_seq_snoc(body@.take(i as int), body@[i as int]);
                        lemma_syms_add(flat_seq(body@.take(i as int)), flat_stmt(body@[i as int]));
                        assert(out@ =~= old(out)@.push('[') + syms(
                            flat_seq(body@.take(i as int + 1)),
                        ));
                    }
                    i = i + 1;
                }
                push_char(out, ']');
                proof {
                    assert(body@.take(body@.len() as int) =~= body@);
                    lemma_syms_add(seq![TokenKind::OpeningBracket], flat_seq(body@));
                    lemma_syms_add(
                        seq![TokenKind::OpeningBracket] + flat_seq(body@),
                        seq![TokenKind::ClosingBracket],
                    );
                    assert(out@ =~= old(out)@ + syms(flat_stmt(*self)));
                }
            },
        }
    }
}

} // verus!
