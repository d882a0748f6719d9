//! The tokenizer: a single pass over any byte source, with one byte of
//! lookahead.

use vstd::prelude::*;
use crate::grammar::{
    digit, digit_run, first_token, ident_continue, ident_run, ident_start,
    is_digit, is_ident_continue, is_whitespace, lemma_rest_shorter, lemma_run_exact,
    lemma_trim_step, overflows, rest, tokens, trim, whitespace,
    TokenView,
};
use crate::source::ByteSource;
use crate::token::{ascii_text, parse_decimal, NumberOverflow, Token};

verus! {

/// Scans the bytes of a source into tokens.
pub struct Lexer<S: ByteSource> {
    inner: S,
    /// The byte looked at and not yet consumed: `Some(None)` once the source
    /// has reported its end.
    peeked: Option<Option<u8>>,
}

/// The values of a sequence of tokens.
pub open spec fn views(toks: Seq<Token>) -> Seq<TokenView> {
    toks.map_values(|t: Token| t@)
}

/// No number among the tokens exceeds what a `Token::Number` holds.
pub open spec fn numbers_fit(toks: Seq<TokenView>) -> bool {
    forall|i: int| 0 <= i < toks.len() ==> (#[trigger] toks[i] matches TokenView::Number(v) ==> v <= i64::MAX)
}

impl<S: ByteSource> Lexer<S> {
    /// The bytes that the lexer has yet to scan: the byte it has looked at,
    /// if any, then what the source has yet to yield.
    pub closed spec fn pending(&self) -> Seq<u8> {
        match self.peeked {
            None => self.inner.remaining(),
            Some(Some(b)) => seq![b] + self.inner.remaining(),
            Some(None) => Seq::empty(),
        }
    }

    /// The tokens that the lexer has yet to give.
    pub open spec fn tokens(&self) -> Seq<TokenView> {
        tokens(self.pending())
    }

    /// The source under the lexer.
    pub closed spec fn source(&self) -> S {
        self.inner
    }

    /// The bytes that were pulled from the source and are not yet scanned:
    /// none, or the one byte that the lexer has looked at.
    pub closed spec fn lookahead(&self) -> Seq<u8> {
        match self.peeked {
            Some(Some(b)) => seq![b],
            _ => Seq::empty(),
        }
    }

    /// The lexer has looked at the byte that comes next, or at the end of
    /// its source.
    pub closed spec fn has_looked(&self) -> bool {
        self.peeked is Some
    }

    /// The source under the lexer is well-formed, and a lexer that has seen
    /// the end of its source stands on an exhausted source.
    pub closed spec fn wf(&self) -> bool {
        &&& self.inner.wf()
        &&& self.peeked == Some(None::<u8>) ==> self.inner.remaining().len() == 0
    }

    /// The lexer is never more than one byte ahead of what it has scanned:
    /// what is pending is the lookahead, then what the source has yet to
    /// yield.
    pub proof fn lemma_one_byte_ahead(&self)
        requires
            self.wf(),
        ensures
            self.lookahead().len() <= 1,
            self.pending() == self.lookahead() + self.source().remaining(),
            self.has_looked() && self.pending().len() > 0 ==> self.lookahead().len() == 1,
    {
    }

    /// Makes a lexer that scans everything `inner` has yet to yield. Nothing
    /// is pulled yet.
    pub fn new(inner: S) -> (lexer: Self)
        requires
            inner.wf(),
        ensures
            lexer.wf(),
            lexer.source() == inner,
            !lexer.has_looked(),
            lexer.pending() == inner.remaining(),
    {
        Self { inner, peeked: None }
    }

    /// Looks at the next byte without consuming it.
    fn peek(&mut self) -> (b: Option<u8>)
        requires
            old(self).wf(),
        ensures
            final(self).wf(),
            final(self).pending() == old(self).pending(),
            final(self).has_looked(),
            b == if old(self).pending().len() > 0 {
                Some(old(self).pending()[0])
            } else {
                None
            },
    {
        if self.peeked.is_none() {
            let b = self.inner.next();
            self.peeked = Some(b);
            proof {
                if b is Some {
                    assert(seq![b->0] + final(self).inner.remaining()
                        =~= old(self).inner.remaining());
                }
            }
        }
        match self.peeked {
            Some(b) => b,
            None => None,
        }
    }

    /// Consumes the byte that `peek` has shown.
    fn advance(&mut self)
        requires
            old(self).wf(),
            old(self).has_looked(),
            old(self).pending().len() > 0,
        ensures
            final(self).wf(),
            final(self).pending() == old(self).pending().drop_first(),
    {
        self.peeked = None;
    }

    /// Consumes the longest run of digits, or of identifier bytes, at the
    /// front of what is pending, and returns it.
    fn take_run(&mut self, digits_only: bool) -> (lexeme: Vec<u8>)
        requires
            old(self).wf(),
        ensures
            final(self).wf(),
            final(self).has_looked(),
            ({
                let s = old(self).pending();
                let n = if digits_only { digit_run(s) } else { ident_run(s) };
                &&& n <= s.len()
                &&& lexeme@ == s.take(n as int)
                &&& final(self).pending() == s.skip(n as int)
            }),
            digits_only ==> forall|i: int| 0 <= i < lexeme.len() ==> is_digit(#[trigger] lexeme[i]),
    {
        let mut lexeme: Vec<u8> = Vec::new();
        let ghost class: spec_fn(u8) -> bool = if digits_only {
            |b: u8| is_digit(b)
        } else {
            |b: u8| is_ident_continue(b)
        };
        loop
            invariant
                self.wf(),
                lexeme@ + self.pending() == old(self).pending(),
                forall|i: int| 0 <= i < lexeme.len() ==> class(#[trigger] lexeme[i]),
                class == if digits_only {
                    |b: u8| is_digit(b)
                } else {
                    |b: u8| is_ident_continue(b)
                },
            ensures
                self.wf(),
                self.has_looked(),
                lexeme@ + self.pending() == old(self).pending(),
                forall|i: int| 0 <= i < lexeme.len() ==> class(#[trigger] lexeme[i]),
                self.pending().len() == 0 || !class(self.pending()[0]),
            decreases self.pending().len(),
        {
            let ghost before = self.pending();
            match self.peek() {
                None => {
                    break;
                },
                Some(b) => {
                    let belongs = if digits_only { digit(b) } else { ident_continue(b) };
                    if !belongs {
                        break;
                    }
                    lexeme.push(b);
                    self.advance();
                },
            }
        }
        proof {
            let s = old(self).pending();
            lemma_run_exact(lexeme@, self.pending(), class);
        }
        lexeme
    }

    /// Scans the next token. Returns `Ok(None)` where nothing but
    /// whitespace is left, or where a byte that belongs to no token comes
    /// first; that byte is not consumed. A run of digits that denotes more
    /// than an `i64` holds is consumed and reported as an error.
    pub fn try_next(&mut self) -> (r: Result<Option<Token>, NumberOverflow>)
        requires
            old(self).wf(),
        ensures
            final(self).wf(),
            final(self).has_looked(),
            final(self).pending() == rest(old(self).pending()),
            match r {
                Ok(Some(token)) => first_token(old(self).pending()) == Some(token@),
                Ok(None) => first_token(old(self).pending()) is None,
                Err(_) => first_token(old(self).pending()) matches Some(TokenView::Number(v))
                    && v > i64::MAX,
            },
    {
        let mut first: Option<u8> = self.peek();
        loop
            invariant
                self.wf(),
                self.has_looked(),
                trim(self.pending()) == trim(old(self).pending()),
                first == if self.pending().len() > 0 {
                    Some(self.pending()[0])
                } else {
                    None
                },
            ensures
                self.wf(),
                self.has_looked(),
                self.pending() == trim(old(self).pending()),
                first == if self.pending().len() > 0 {
                    Some(self.pending()[0])
                } else {
                    None
                },
                first matches Some(b) ==> !is_whitespace(b),
            decreases self.pending().len(),
        {
            match first {
                Some(b) => {
                    if !whitespace(b) {
                        break;
                    }
                    let ghost before = self.pending();
                    self.advance();
                    proof {
                        lemma_trim_step(before);
                    }
                    first = self.peek();
                },
                None => {
                    break;
                },
            }
        }
        match first {
            None => Ok(None),
            Some(b) => {
                if ident_start(b) {
                    let lexeme = self.take_run(false);
                    Ok(Some(Token::Identifier(ascii_text(&lexeme))))
                } else if digit(b) {
                    let lexeme = self.take_run(true);
                    match parse_decimal(&lexeme) {
                        Ok(v) => Ok(Some(Token::Number(v))),
                        Err(e) => Err(e),
                    }
                } else {
                    Ok(None)
                }
            },
        }
    }

    /// Scans the next token, for input whose next run of digits, if that is
    /// what comes next, denotes a number that an `i64` holds.
    pub fn next(&mut self) -> (r: Option<Token>)
        requires
            old(self).wf(),
            !overflows(old(self).pending()),
        ensures
            final(self).wf(),
            final(self).has_looked(),
            final(self).pending() == rest(old(self).pending()),
            match r {
                Some(token) => first_token(old(self).pending()) == Some(token@),
                None => first_token(old(self).pending()) is None,
            },
    {
        match self.try_next() {
            Ok(token) => token,
            // Ruled out by the precondition.
            Err(_) => None,
        }
    }

    /// Scans all the tokens that are left.
    pub fn collect(self) -> (toks: Vec<Token>)
        requires
            self.wf(),
            numbers_fit(tokens(self.pending())),
        ensures
            views(toks@) == tokens(self.pending()),
    {
        let ghost all = tokens(self.pending());
        let mut lexer = self;
        let mut toks: Vec<Token> = Vec::new();
        loop
            invariant_except_break
                lexer.wf(),
                numbers_fit(tokens(lexer.pending())),
                views(toks@) + tokens(lexer.pending()) == all,
            ensures
                views(toks@) == all,
            decreases lexer.pending().len(),
        {
            let ghost before = lexer.pending();
            proof {
                if first_token(before) is Some {
                    lemma_rest_shorter(before);
                    assert(tokens(before)[0] == first_token(before)->0);
                    assert forall|i: int| 0 <= i < tokens(rest(before)).len() implies (
                        #[trigger] tokens(rest(before))[i] matches TokenView::Number(v) ==> v <= i64::MAX) by {
                        assert(tokens(rest(before))[i] == tokens(before)[i + 1]);
                    }
                }
            }
            match lexer.next() {
                Some(token) => {
                    toks.push(token);
                },
                None => {
                    break;
                },
            }
        }
        toks
    }
}

} // verus!
