//! The lexical grammar, as a mathematical description over sequences of bytes.
//!
//! An identifier is a letter or underscore followed by letters, digits and
//! underscores. A number is a run of decimal digits. Whitespace separates
//! tokens and is never a token itself. Any other byte ends the token sequence.

use vstd::prelude::*;

verus! {

/// The mathematical value of a token.
pub enum TokenView {
    /// An identifier, with its text.
    Identifier(Seq<char>),
    /// A number, with its value.
    Number(int),
}

/// An ASCII letter, `A` to `Z` or `a` to `z`.
pub open spec fn is_letter(b: u8) -> bool {
    (0x41 <= b <= 0x5a) || (0x61 <= b <= 0x7a)
}

/// An ASCII decimal digit, `0` to `9`.
pub open spec fn is_digit(b: u8) -> bool {
    0x30 <= b <= 0x39
}

/// A byte that may begin an identifier: a letter or the underscore.
pub open spec fn is_ident_start(b: u8) -> bool {
    is_letter(b) || b == 0x5f
}

/// A byte that may continue an identifier: a letter, a digit or the underscore.
pub open spec fn is_ident_continue(b: u8) -> bool {
    is_letter(b) || is_digit(b) || b == 0x5f
}

/// ASCII whitespace: space, horizontal tab, line feed, form feed, carriage return.
pub open spec fn is_whitespace(b: u8) -> bool {
    b == 0x20 || b == 0x09 || b == 0x0a || b == 0x0c || b == 0x0d
}

/// The number of bytes at the front of `s` that all belong to `class`:
/// the length of the longest prefix of `s` made of such bytes.
pub open spec fn run(s: Seq<u8>, class: spec_fn(u8) -> bool) -> nat
    decreases s.len(),
{
    if s.len() > 0 && class(s[0]) {
        1 + run(s.drop_first(), class)
    } else {
        0
    }
}

/// The length of the whitespace at the front of `s`.
pub open spec fn blank_run(s: Seq<u8>) -> nat {
    run(s, |b: u8| is_whitespace(b))
}

/// The length of the longest prefix of `s` made of identifier bytes.
pub open spec fn ident_run(s: Seq<u8>) -> nat {
    run(s, |b: u8| is_ident_continue(b))
}

/// The length of the longest prefix of `s` made of decimal digits.
pub open spec fn digit_run(s: Seq<u8>) -> nat {
    run(s, |b: u8| is_digit(b))
}

/// `s` without its leading whitespace.
pub open spec fn trim(s: Seq<u8>) -> Seq<u8> {
    s.skip(blank_run(s) as int)
}

/// The text that a sequence of ASCII bytes spells.
pub open spec fn text(bytes: Seq<u8>) -> Seq<char> {
    Seq::new(bytes.len(), |i: int| bytes[i] as char)
}

/// The number that a sequence of decimal digits denotes in base ten.
pub open spec fn decimal(digits: Seq<u8>) -> nat
    decreases digits.len(),
{
    if digits.len() == 0 {
        0
    } else {
        (decimal(digits.drop_last()) * 10 + (digits.last() - 0x30)) as nat
    }
}

/// The length of the run of bytes that forms the first token of `s`, for an
/// `s` that begins with no whitespace; 0 where `s` begins with no token.
pub open spec fn lexeme_len(s: Seq<u8>) -> nat {
    if s.len() == 0 {
        0
    } else if is_ident_start(s[0]) {
        ident_run(s)
    } else if is_digit(s[0]) {
        digit_run(s)
    } else {
        0
    }
}

/// The first token of `s`, if `s` holds one: leading whitespace is skipped,
/// then the longest run of identifier bytes or of digits is taken.
pub open spec fn first_token(s: Seq<u8>) -> Option<TokenView> {
    let t = trim(s);
    let lexeme = t.take(lexeme_len(t) as int);
    if t.len() == 0 {
        None
    } else if is_ident_start(t[0]) {
        Some(TokenView::Identifier(text(lexeme)))
    } else if is_digit(t[0]) {
        Some(TokenView::Number(decimal(lexeme) as int))
    } else {
        None
    }
}

/// The first token of `s` is a number too large for an `i64`.
pub open spec fn overflows(s: Seq<u8>) -> bool {
    first_token(s) matches Some(TokenView::Number(v)) && v > i64::MAX
}

/// What is left of `s` once its first token has been scanned. Where `s`
/// holds no token, this is `s` without its leading whitespace: a byte that
/// belongs to no token stays at the front.
pub open spec fn rest(s: Seq<u8>) -> Seq<u8> {
    let t = trim(s);
    t.skip(lexeme_len(t) as int)
}

/// The whole token sequence of `s`.
pub open spec fn tokens(s: Seq<u8>) -> Seq<TokenView>
    decreases s.len(),
    via tokens_decreases
{
    match first_token(s) {
        None => Seq::empty(),
        Some(t) => seq![t] + tokens(rest(s)),
    }
}

#[via_fn]
proof fn tokens_decreases(s: Seq<u8>) {
    if first_token(s) is Some {
        lemma_rest_shorter(s);
    }
}

/// A run is never longer than the sequence it is taken from.
pub proof fn lemma_run_bound(s: Seq<u8>, class: spec_fn(u8) -> bool)
    ensures
        run(s, class) <= s.len(),
    decreases s.len(),
{
    if s.len() > 0 && class(s[0]) {
        lemma_run_bound(s.drop_first(), class);
    }
}

/// When `a` is made of bytes of `class` and what follows it does not begin
/// with such a byte, the run at the front of `a + b` is exactly `a`.
pub proof fn lemma_run_exact(a: Seq<u8>, b: Seq<u8>, class: spec_fn(u8) -> bool)
    requires
        forall|i: int| 0 <= i < a.len() ==> class(#[trigger] a[i]),
        b.len() == 0 || !class(b[0]),
    ensures
        run(a + b, class) == a.len(),
    decreases a.len(),
{
    if a.len() > 0 {
        assert((a + b).drop_first() =~= a.drop_first() + b);
        lemma_run_exact(a.drop_first(), b, class);
    }
}

/// A run is the longest prefix of its class: its bytes belong to the class,
/// and the byte after it, if there is one, does not.
pub proof fn lemma_run_longest(s: Seq<u8>, class: spec_fn(u8) -> bool)
    ensures
        run(s, class) <= s.len(),
        forall|i: int| 0 <= i < run(s, class) ==> class(#[trigger] s[i]),
        run(s, class) < s.len() ==> !class(s[run(s, class) as int]),
    decreases s.len(),
{
    if s.len() > 0 && class(s[0]) {
        let t = s.drop_first();
        lemma_run_longest(t, class);
        assert forall|i: int| 0 <= i < run(s, class) implies class(#[trigger] s[i]) by {
            if i > 0 {
                assert(s[i] == t[i - 1]);
            }
        }
    }
}

/// A run that stops inside `a` is not changed by what follows `a`.
pub proof fn lemma_run_inside(a: Seq<u8>, b: Seq<u8>, class: spec_fn(u8) -> bool)
    requires
        run(a, class) < a.len(),
    ensures
        run(a + b, class) == run(a, class),
    decreases a.len(),
{
    if class(a[0]) {
        assert((a + b).drop_first() =~= a.drop_first() + b);
        lemma_run_inside(a.drop_first(), b, class);
    }
}

/// Leading whitespace can be dropped byte by byte.
pub proof fn lemma_trim_step(s: Seq<u8>)
    requires
        s.len() > 0,
        is_whitespace(s[0]),
    ensures
        trim(s) == trim(s.drop_first()),
{
    lemma_run_bound(s.drop_first(), |b: u8| is_whitespace(b));
}

/// Scanning a token consumes at least one byte.
pub proof fn lemma_rest_shorter(s: Seq<u8>)
    requires
        first_token(s) is Some,
    ensures
        rest(s).len() < s.len(),
{
    let t = trim(s);
    lemma_run_bound(s, |b: u8| is_whitespace(b));
    lemma_run_bound(t, |b: u8| is_ident_continue(b));
    lemma_run_bound(t, |b: u8| is_digit(b));
}

/// Decides whether a byte may begin an identifier.
pub fn ident_start(b: u8) -> (r: bool)
    ensures
        r == is_ident_start(b),
{
    (0x41 <= b && b <= 0x5a) || (0x61 <= b && b <= 0x7a) || b == 0x5f
}

/// Decides whether a byte may continue an identifier.
pub fn ident_continue(b: u8) -> (r: bool)
    ensures
        r == is_ident_continue(b),
{
    ident_start(b) || digit(b)
}

/// Decides whether a byte is a decimal digit.
pub fn digit(b: u8) -> (r: bool)
    ensures
        r == is_digit(b),
{
    0x30 <= b && b <= 0x39
}

/// Decides whether a byte is whitespace.
pub fn whitespace(b: u8) -> (r: bool)
    ensures
        r == is_whitespace(b),
{
    b == 0x20 || b == 0x09 || b == 0x0a || b == 0x0c || b == 0x0d
}

} // verus!
