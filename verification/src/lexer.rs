//! The lexical scanner. It walks the source left to right, skips whitespace,
//! turns each recognized symbol into a single-character token, and fails on
//! the first unrecognized non-whitespace character.

use vstd::prelude::*;

use crate::errors::LanguageError;
use crate::tokens::{kind_of, kinds_of, symbol_of, syms, views_of, Token, TokenModel};

verus! {

/// The Unicode `White_Space` characters: exactly the set the scanner skips
/// between tokens.
pub open spec fn is_ws(c: char) -> bool {
    let u = c as u32;
    u == 0x09 || u == 0x0A || u == 0x0B || u == 0x0C || u == 0x0D || u == 0x20 || u == 0x85 || u
        == 0xA0 || u == 0x1680 || (0x2000 <= u && u <= 0x200A) || u == 0x2028 || u == 0x2029 || u
        == 0x202F || u == 0x205F || u == 0x3000
}

/// Whether `c` is one of the whitespace characters of [`is_ws`].
fn ws(c: char) -> (r: bool)
    ensures
        r == is_ws(c),
{
    let u = c as u32;
    u == 0x09 || u == 0x0A || u == 0x0B || u == 0x0C || u == 0x0D || u == 0x20 || u == 0x85 || u
        == 0xA0 || u == 0x1680 || (0x2000 <= u && u <= 0x200A) || u == 0x2028 || u == 0x2029 || u
        == 0x202F || u == 0x205F || u == 0x3000
}

/// The tokens of the source from character offset `i` on: whitespace is
/// skipped, each recognized symbol yields one token spanning its offset, and
/// the first unrecognized non-whitespace character fails the whole scan.
pub open spec fn spec_lex(s: Seq<char>, i: int) -> Result<Seq<TokenModel>, char>
    decreases s.len() - i,
{
    if i < 0 || i >= s.len() {
        Ok(Seq::empty())
    } else if is_ws(s[i]) {
        spec_lex(s, i + 1)
    } else {
        match kind_of(s[i]) {
            Some(k) => match spec_lex(s, i + 1) {
                Ok(rest) => Ok(seq![TokenModel { kind: k, start: i, end: i + 1 }] + rest),
                Err(c) => Err(c),
            },
            None => Err(s[i]),
        }
    }
}

/// Prepend already-scanned tokens to the outcome of scanning the rest.
pub open spec fn lex_join(acc: Seq<TokenModel>, r: Result<Seq<TokenModel>, char>) -> Result<
    Seq<TokenModel>,
    char,
> {
    match r {
        Ok(rest) => Ok(acc + rest),
        Err(c) => Err(c),
    }
}

/// Every character of `s` in the offset range `[i, j)` is whitespace.
pub open spec fn ws_between(s: Seq<char>, i: int, j: int) -> bool {
    forall|k: int| i <= k < j ==> #[trigger] is_ws(s[k])
}

/// A whitespace range grows one whitespace character to the left.
proof fn lemma_ws_between_extend(s: Seq<char>, i: int, j: int)
    requires
        0 <= i < s.len(),
        is_ws(s[i]),
        ws_between(s, i + 1, j),
    ensures
        ws_between(s, i, j),
{
    assert forall|k: int| i <= k < j implies #[trigger] is_ws(s[k]) by {
        if k > i {
            assert(is_ws(s[k]));
        }
    }
}

/// The lexer: the source under scan and the current character offset.
#[derive(Debug)]
pub struct Lexer<'a> {
    source: &'a str,
    position: usize,
}

impl<'a> Lexer<'a> {
    /// The characters of the source under scan.
    pub closed spec fn src(self) -> Seq<char> {
        self.source@
    }

    /// The current character offset.
    pub closed spec fn pos(self) -> int {
        self.position as int
    }

    /// The offset never passes the end of the source.
    pub closed spec fn wf(self) -> bool {
        self.position <= self.source@.len()
    }

    /// Create a new lexer over the given source, positioned at its start.
    pub fn new(source: &'a str) -> (l: Lexer<'a>)
        ensures
            l.src() == source@,
            l.pos() == 0,
            l.wf(),
    {
        Self { source, position: 0 }
    }

    /// Lex the source from the current position to its end.
    ///
    /// Succeeds with the token sequence that [`spec_lex`] gives, or fails
    /// with `UnexpectedCharacter` holding the first unrecognized
    /// non-whitespace character, in which case no tokens are returned.
    pub fn lex(&mut self) -> (r: Result<Vec<Token>, LanguageError>)
        requires
            old(self).wf(),
        ensures
            final(self).wf(),
            final(self).src() == old(self).src(),
            match r {
                Ok(ts) => spec_lex(old(self).src(), old(self).pos()) == Ok::<_, char>(
                    views_of(ts@),
                ),
                Err(e) => match e {
                    LanguageError::UnexpectedCharacter(c) => spec_lex(
                        old(self).src(),
                        old(self).pos(),
                    ) == Err::<Seq<TokenModel>, _>(c),
                    _ => false,
                },
            },
    {
        let mut tokens: Vec<Token> = Vec::new();
        proof {
            assert(views_of(tokens@) =~= Seq::<TokenModel>::empty());
        }
        loop
            invariant
                self.wf(),
                self.src() == old(self).src(),
                lex_join(views_of(tokens@), spec_lex(self.src(), self.pos())) == spec_lex(
                    old(self).src(),
                    old(self).pos(),
                ),
            decreases self.src().len() - self.pos(),
        {
            match self.next_token() {
                Err(e) => {
                    return Err(e);
                },
                Ok(None) => {
                    proof {
                        assert(views_of(tokens@) + Seq::<TokenModel>::empty() =~= views_of(
                            tokens@,
                        ));
                    }
                    return Ok(tokens);
                },
                Ok(Some(token)) => {
                    let ghost acc = views_of(tokens@);
                    let ghost tv = token@;
                    tokens.push(token);
                    proof {
                        assert(views_of(tokens@) =~= acc + seq![tv]);
                        match spec_lex(self.src(), self.pos()) {
                            Ok(rest) => {
                                assert((acc + seq![tv]) + rest =~= acc + (seq![tv] + rest));
                            },
                            Err(_) => {},
                        }
                    }
                },
            }
        }
    }

    /// Scan the next token, if any: skip whitespace, then turn the first
    /// non-whitespace character into a one-character token, stopping right
    /// after it, or fail on it when it is not one of the eight symbols.
    fn next_token(&mut self) -> (r: Result<Option<Token>, LanguageError>)
        requires
            old(self).wf(),
        ensures
            final(self).wf(),
            final(self).src() == old(self).src(),
            final(self).pos() >= old(self).pos(),
            match r {
                Ok(Some(t)) => {
                    &&& old(self).pos() <= t@.start < old(self).src().len()
                    &&& ws_between(old(self).src(), old(self).pos(), t@.start)
                    &&& kind_of(old(self).src()[t@.start]) == Some(t@.kind)
                    &&& t@.end == t@.start + 1
                    &&& final(self).pos() == t@.end
                    &&& spec_lex(old(self).src(), old(self).pos()) == lex_join(
                        seq![t@],
                        spec_lex(final(self).src(), final(self).pos()),
                    )
                },
                Ok(None) => {
                    &&& ws_between(old(self).src(), old(self).pos(), old(self).src().len() as int)
                    &&& spec_lex(old(self).src(), old(self).pos()) == Ok::<_, char>(
                        Seq::<TokenModel>::empty(),
                    )
                    &&& final(self).pos() == final(self).src().len()
                },
                Err(e) => match e {
                    LanguageError::UnexpectedCharacter(c) => {
                        &&& exists|i: int|
                            {
                                &&& old(self).pos() <= i < old(self).src().len()
                                &&& ws_between(old(self).src(), old(self).pos(), i)
                                &&& !is_ws(#[trigger] old(self).src()[i])
                                &&& kind_of(old(self).src()[i]) is None
                                &&& old(self).src()[i] == c
                            }
                        &&& spec_lex(old(self).src(), old(self).pos()) == Err::<
                            Seq<TokenModel>,
                            _,
                        >(c)
                    },
                    _ => false,
                },
            },
        decreases old(self).src().len() - old(self).pos(),
    {
        let c = match self.peek() {
            Some(c) => c,
            None => {
                return Ok(None);
            },
        };
        if ws(c) {
            self.advance();
            return self.next_token();
        }
        let start = self.position;
        let kind = match crate::tokens::TokenKind::try_from(c) {
            Ok(kind) => kind,
            Err(e) => {
                return Err(e);
            },
        };
        self.advance();
        let token = Token::new(kind, start..self.position);
        proof {
            match spec_lex(self.src(), self.pos()) {
                Ok(rest) => {
                    assert(spec_lex(old(self).src(), old(self).pos()) == Ok::<_, char>(
                        seq![TokenModel { kind, start: start as int, end: start + 1 }] + rest,
                    ));
                    assert(seq![token@] =~= seq![
                        TokenModel { kind, start: start as int, end: start + 1 },
                    ]);
                },
                Err(_) => {},
            }
        }
        Ok(Some(token))
    }

    /// Advance the lexer to the next character.
    fn advance(&mut self)
        requires
            old(self).wf(),
            old(self).pos() < old(self).src().len(),
            old(self).src().len() <= usize::MAX,
        ensures
            final(self).wf(),
            final(self).src() == old(self).src(),
            final(self).pos() == old(self).pos() + 1,
    {
        self.position += 1;
    }

    /// Peek at the character under the current offset, if any.
    fn peek(&self) -> (c: Option<char>)
        ensures
            self.src().len() <= usize::MAX,
            c == if self.pos() < self.src().len() {
                Some(self.src()[self.pos()])
            } else {
                None::<char>
            },
    {
        if self.position < self.source.unicode_len() {
            Some(self.source.get_char(self.position))
        } else {
            None
        }
    }
}

/// The source characters from offset `i` on with all whitespace removed.
pub open spec fn strip_ws(s: Seq<char>, i: int) -> Seq<char>
    decreases s.len() - i,
{
    if i < 0 || i >= s.len() {
        Seq::empty()
    } else if is_ws(s[i]) {
        strip_ws(s, i + 1)
    } else {
        seq![s[i]] + strip_ws(s, i + 1)
    }
}

/// Scanning keeps exactly the non-whitespace characters: the symbols of
/// the scanned kinds, in order, are the source with whitespace removed.
pub proof fn lemma_lex_strips(s: Seq<char>, i: int)
    requires
        0 <= i <= s.len(),
        spec_lex(s, i) is Ok,
    ensures
        syms(kinds_of(spec_lex(s, i)->Ok_0)) == strip_ws(s, i),
    decreases s.len() - i,
{
    if i == s.len() {
        assert(syms(kinds_of(spec_lex(s, i)->Ok_0)) =~= Seq::<char>::empty());
    } else if is_ws(s[i]) {
        lemma_lex_strips(s, i + 1);
    } else {
        let k = kind_of(s[i])->Some_0;
        lemma_lex_strips(s, i + 1);
        let rest = spec_lex(s, i + 1)->Ok_0;
        assert(symbol_of(k) == s[i]);
        assert(syms(kinds_of(spec_lex(s, i)->Ok_0)) =~= seq![s[i]] + syms(kinds_of(rest)));
    }
}

/// Scanning fails exactly when the source holds, at or after `i`, a
/// character that is neither whitespace nor one of the eight symbols; the
/// reported character is the first such one.
pub proof fn lemma_lex_error_iff(s: Seq<char>, i: int)
    requires
        0 <= i <= s.len(),
    ensures
        (spec_lex(s, i) is Err) <==> (exists|j: int|
            i <= j < s.len() && !is_ws(s[j]) && kind_of(s[j]) is None),
        spec_lex(s, i) matches Err(c) ==> exists|j: int|
            #![trigger s[j]]
            i <= j < s.len() && s[j] == c && !is_ws(s[j]) && kind_of(s[j]) is None && (forall|
                k: int,
            |
                i <= k < j ==> is_ws(s[k]) || kind_of(s[k]) is Some),
    decreases s.len() - i,
{
    if i == s.len() {
    } else if is_ws(s[i]) || kind_of(s[i]) is Some {
        lemma_lex_error_iff(s, i + 1);
        if spec_lex(s, i) is Err {
            let c = spec_lex(s, i)->Err_0;
            let j = choose|j: int|
                #![trigger s[j]]
                i + 1 <= j < s.len() && s[j] == c && !is_ws(s[j]) && kind_of(s[j]) is None && (
                forall|k: int| i + 1 <= k < j ==> is_ws(s[k]) || kind_of(s[k]) is Some);
            assert(i <= j < s.len() && s[j] == c && !is_ws(s[j]) && kind_of(s[j]) is None && (
            forall|k: int| i <= k < j ==> is_ws(s[k]) || kind_of(s[k]) is Some));
        }
    } else {
        assert(i <= i < s.len() && !is_ws(s[i]) && kind_of(s[i]) is None);
    }
}

} // verus!
