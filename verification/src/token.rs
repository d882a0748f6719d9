//! Tokens, and the conversion of a scanned run of bytes into a token's value.

use vstd::prelude::*;
use crate::grammar::{decimal, is_digit, text, TokenView};

verus! {

/// A lexical token.
#[derive(Debug, PartialEq, Eq)]
pub enum Token {
    /// An identifier, with its text.
    Identifier(String),
    /// A number, with its value.
    Number(i64),
}

impl View for Token {
    type V = TokenView;

    open spec fn view(&self) -> TokenView {
        match self {
            Token::Identifier(s) => TokenView::Identifier(s@),
            Token::Number(n) => TokenView::Number(*n as int),
        }
    }
}

/// A run of digits denotes a number that a `Token::Number` cannot hold.
#[derive(Debug, Clone, Copy, PartialEq, Eq)]
pub struct NumberOverflow;

/// `String::push` of the standard library appends one character to the end
/// of the string and leaves what was there in place.
pub assume_specification[ String::push ](s: &mut String, ch: char)
    ensures
        final(s)@ == old(s)@.push(ch),
;

/// Spells the bytes of a lexeme as text, one character for each byte.
pub fn ascii_text(bytes: &Vec<u8>) -> (s: String)
    ensures
        s@ == text(bytes@),
{
    let mut s = String::new();
    let mut i: usize = 0;
    while i < bytes.len()
        invariant
            i <= bytes.len(),
            s@ == text(bytes@.take(i as int)),
        decreases bytes.len() - i,
    {
        s.push(bytes[i] as char);
        i += 1;
    }
    s
}

/// Monotonicity of `decimal`: a prefix of a digit sequence denotes no more
/// than the whole.
pub proof fn lemma_decimal_prefix(digits: Seq<u8>, k: int)
    requires
        0 <= k <= digits.len(),
        forall|i: int| 0 <= i < digits.len() ==> is_digit(#[trigger] digits[i]),
    ensures
        decimal(digits.take(k)) <= decimal(digits),
    decreases digits.len(),
{
    if k == digits.len() {
        assert(digits.take(k) =~= digits);
    } else {
        assert(digits.drop_last().take(k) =~= digits.take(k));
        lemma_decimal_prefix(digits.drop_last(), k);
    }
}

/// Reads a run of decimal digits as a number, or reports that it is too
/// large for an `i64`.
pub(crate) fn parse_decimal(digits: &Vec<u8>) -> (r: Result<i64, NumberOverflow>)
    requires
        forall|i: int| 0 <= i < digits.len() ==> is_digit(#[trigger] digits[i]),
    ensures
        match r {
            Ok(v) => v == decimal(digits@),
            Err(_) => decimal(digits@) > i64::MAX,
        },
{
    let mut value: i64 = 0;
    let mut i: usize = 0;
    while i < digits.len()
        invariant
            i <= digits.len(),
            forall|j: int| 0 <= j < digits.len() ==> is_digit(#[trigger] digits[j]),
            value == decimal(digits@.take(i as int)),
        decreases digits.len() - i,
    {
        let d: i64 = (digits[i] - 0x30) as i64;
        proof {
            assert(digits@.take(i + 1).drop_last() =~= digits@.take(i as int));
            lemma_decimal_prefix(digits@, i + 1);
        }
        if value > (i64::MAX - d) / 10 {
            return Err(NumberOverflow);
        }
        value = value * 10 + d;
        i += 1;
    }
    assert(digits@.take(i as int) =~= digits@);
    Ok(value)
}

} // verus!
