//! What holds of the token sequence of every input, and of every source
//! that delivers it.

use vstd::prelude::*;
use crate::buffered::BufferedReader;
use crate::direct::ByteReader;
use crate::grammar::{
    blank_run, decimal, first_token, is_digit, is_ident_continue, is_ident_start, is_whitespace,
    lemma_rest_shorter, lemma_run_bound, lemma_run_exact, lemma_run_inside, lemma_run_longest,
    lexeme_len, rest, run, text, tokens, trim, TokenView,
};
use crate::lexer::Lexer;
use crate::mapped::MMapReader;
use crate::resource::Readable;
use crate::source::ByteSource;

verus! {

/// Every byte of `s` is one that the grammar knows: part of an identifier,
/// a digit, or whitespace.
pub open spec fn recognized(s: Seq<u8>) -> bool {
    forall|i: int| 0 <= i < s.len() ==> is_ident_continue(#[trigger] s[i]) || is_whitespace(s[i])
}

/// The text of an identifier is never empty, and it is made of ASCII
/// letters, digits and underscores alone, the first of them not a digit: so
/// it is text whichever bytes the input holds.
pub proof fn lemma_identifier_shape(s: Seq<u8>)
    ensures
        first_token(s) matches Some(TokenView::Identifier(t)) ==> {
            &&& t.len() >= 1
            &&& is_ident_start(t[0] as u8)
            &&& forall|i: int|
                0 <= i < t.len() ==> (#[trigger] t[i] as u32) < 128 && is_ident_continue(t[i] as u8)
        },
{
    let t = trim(s);
    lemma_run_longest(t, |b: u8| is_ident_continue(b));
}

/// The value of a number is never negative.
pub proof fn lemma_number_shape(s: Seq<u8>)
    ensures
        first_token(s) matches Some(TokenView::Number(v)) ==> v >= 0,
{
}

/// Empty input has no tokens.
pub proof fn lemma_tokens_of_empty()
    ensures
        tokens(Seq::<u8>::empty()) == Seq::<TokenView>::empty(),
{
}

/// Input made of whitespace alone has no tokens.
pub proof fn lemma_tokens_of_whitespace(s: Seq<u8>)
    requires
        forall|i: int| 0 <= i < s.len() ==> is_whitespace(#[trigger] s[i]),
    ensures
        tokens(s) == Seq::<TokenView>::empty(),
{
    lemma_run_exact(s, Seq::empty(), |b: u8| is_whitespace(b));
}

/// Input that is one identifier from its first byte to its last, with
/// nothing after it to end the run, is that one identifier.
pub proof fn lemma_tokens_of_identifier(s: Seq<u8>)
    requires
        s.len() > 0,
        is_ident_start(s[0]),
        forall|i: int| 0 <= i < s.len() ==> is_ident_continue(#[trigger] s[i]),
    ensures
        tokens(s) == seq![TokenView::Identifier(text(s))],
{
    lemma_whole_run(s);
    assert(tokens(rest(s)) == Seq::<TokenView>::empty());
}

/// Input that is one run of digits from its first byte to its last, with
/// nothing after it to end the run, is that one number.
pub proof fn lemma_tokens_of_digits(s: Seq<u8>)
    requires
        s.len() > 0,
        forall|i: int| 0 <= i < s.len() ==> is_digit(#[trigger] s[i]),
    ensures
        tokens(s) == seq![TokenView::Number(decimal(s) as int)],
{
    lemma_whole_run(s);
    assert(tokens(rest(s)) == Seq::<TokenView>::empty());
}

/// An input that is a single run from end to end is scanned whole.
proof fn lemma_whole_run(s: Seq<u8>)
    requires
        s.len() > 0,
        is_ident_start(s[0]) || is_digit(s[0]),
        is_ident_start(s[0]) ==> forall|i: int|
            0 <= i < s.len() ==> is_ident_continue(#[trigger] s[i]),
        is_digit(s[0]) ==> forall|i: int| 0 <= i < s.len() ==> is_digit(#[trigger] s[i]),
    ensures
        trim(s) == s,
        lexeme_len(s) == s.len(),
        rest(s) == Seq::<u8>::empty(),
{
    assert(trim(s) =~= s);
    if is_ident_start(s[0]) {
        lemma_run_exact(s, Seq::empty(), |b: u8| is_ident_continue(b));
    } else {
        lemma_run_exact(s, Seq::empty(), |b: u8| is_digit(b));
    }
}

/// Where `a` is made of bytes that the grammar knows and ends in
/// whitespace, the tokens of `a + b` are those of `a`, then those of `b`.
pub proof fn lemma_tokens_concat(a: Seq<u8>, b: Seq<u8>)
    requires
        recognized(a),
        a.len() == 0 || is_whitespace(a.last()),
    ensures
        tokens(a + b) == tokens(a) + tokens(b),
    decreases a.len(),
{
    let ws = |x: u8| is_whitespace(x);
    let s = a + b;
    if a.len() > 0 {
        let k = blank_run(a);
        lemma_run_longest(a, ws);
        if k == a.len() {
            // `a` is whitespace alone, and scanning `a + b` begins in `b`.
            lemma_tokens_of_whitespace(a);
            lemma_run_bound(b, ws);
            lemma_blank_prefix(a, b);
            assert(trim(s) =~= trim(b));
        } else {
            // The first token of `a + b` lies within `a`.
            lemma_run_inside(a, b, ws);
            let head = trim(a);
            assert(trim(s) =~= head + b);
            let class = if is_ident_start(head[0]) {
                |x: u8| is_ident_continue(x)
            } else {
                |x: u8| is_digit(x)
            };
            lemma_run_longest(head, class);
            assert(run(head, class) < head.len()) by {
                if run(head, class) == head.len() {
                    assert(class(head[head.len() - 1]));
                }
            }
            lemma_run_inside(head, b, class);
            let m = lexeme_len(head);
            assert((head + b).take(m as int) =~= head.take(m as int));
            assert(rest(s) == rest(a) + b);
            lemma_rest_shorter(a);
            assert(recognized(rest(a)));
            lemma_tokens_concat(rest(a), b);
        }
    }
}

/// The end of the input ends a run as whitespace does: a token that reaches
/// to the last byte of the input is the token that it would be with
/// whitespace after it.
pub proof fn lemma_end_of_input_ends_a_run(s: Seq<u8>, w: u8)
    requires
        is_whitespace(w),
    ensures
        tokens(s.push(w)) == tokens(s),
    decreases s.len(),
{
    let ws = |x: u8| is_whitespace(x);
    let end = seq![w];
    assert(s.push(w) =~= s + end);
    let t = trim(s);
    lemma_run_longest(s, ws);
    if t.len() == 0 {
        lemma_tokens_of_whitespace(s);
        lemma_tokens_of_whitespace(s + end);
    } else {
        lemma_run_inside(s, end, ws);
        assert(trim(s + end) =~= t + end);
        if is_ident_start(t[0]) || is_digit(t[0]) {
            let class = if is_ident_start(t[0]) {
                |x: u8| is_ident_continue(x)
            } else {
                |x: u8| is_digit(x)
            };
            lemma_run_longest(t, class);
            if run(t, class) < t.len() {
                lemma_run_inside(t, end, class);
            } else {
                lemma_run_exact(t, end, class);
            }
            let m = lexeme_len(t);
            assert((t + end).take(m as int) =~= t.take(m as int));
            assert(rest(s + end) =~= rest(s).push(w));
            lemma_rest_shorter(s);
            lemma_end_of_input_ends_a_run(rest(s), w);
        }
    }
}

/// Whitespace before `b` adds to the whitespace at the front of `b`.
proof fn lemma_blank_prefix(a: Seq<u8>, b: Seq<u8>)
    requires
        forall|i: int| 0 <= i < a.len() ==> is_whitespace(#[trigger] a[i]),
    ensures
        blank_run(a + b) == a.len() + blank_run(b),
    decreases a.len(),
{
    if a.len() > 0 {
        assert((a + b).drop_first() =~= a.drop_first() + b);
        lemma_blank_prefix(a.drop_first(), b);
    }
}

/// Input that ends in the middle of an identifier still gives that
/// identifier, whole, as its last token.
pub proof fn lemma_trailing_identifier(before: Seq<u8>, last: Seq<u8>)
    requires
        recognized(before),
        before.len() == 0 || is_whitespace(before.last()),
        last.len() > 0,
        is_ident_start(last[0]),
        forall|i: int| 0 <= i < last.len() ==> is_ident_continue(#[trigger] last[i]),
    ensures
        tokens(before + last) == tokens(before).push(TokenView::Identifier(text(last))),
{
    lemma_tokens_concat(before, last);
    lemma_tokens_of_identifier(last);
    assert(tokens(before) + seq![TokenView::Identifier(text(last))] =~= tokens(before).push(
        TokenView::Identifier(text(last)),
    ));
}

/// Input that ends in the middle of a number still gives that number,
/// whole, as its last token.
pub proof fn lemma_trailing_number(before: Seq<u8>, last: Seq<u8>)
    requires
        recognized(before),
        before.len() == 0 || is_whitespace(before.last()),
        last.len() > 0,
        forall|i: int| 0 <= i < last.len() ==> is_digit(#[trigger] last[i]),
    ensures
        tokens(before + last) == tokens(before).push(TokenView::Number(decimal(last) as int)),
{
    lemma_tokens_concat(before, last);
    lemma_tokens_of_digits(last);
    assert(tokens(before) + seq![TokenView::Number(decimal(last) as int)] =~= tokens(before).push(
        TokenView::Number(decimal(last) as int),
    ));
}

/// A scan that has come to its end stays there: where no token is left,
/// scanning again finds none and moves nothing.
pub proof fn lemma_end_is_final(s: Seq<u8>)
    requires
        first_token(s) is None,
    ensures
        first_token(rest(s)) is None,
        rest(rest(s)) == rest(s),
        tokens(rest(s)) == Seq::<TokenView>::empty(),
{
    lemma_run_longest(s, |b: u8| is_whitespace(b));
}

/// A fresh direct, buffered or memory-mapped source over the same content
/// has the same bytes to yield, whatever the capacity of the buffer, if it
/// is at least one byte; and lexers over them give the same tokens.
pub proof fn lemma_source_transparency<R1: Readable, R2: Readable>(
    content: Seq<u8>,
    direct: ByteReader<R1>,
    buffered: BufferedReader<'_, R2>,
    mapped: MMapReader<'_>,
    over_direct: Lexer<ByteReader<R1>>,
    over_buffered: Lexer<BufferedReader<'_, R2>>,
    over_mapped: Lexer<MMapReader<'_>>,
)
    requires
        direct.upstream() == content,
        buffered.capacity() >= 1,
        buffered.buffered() == Seq::<u8>::empty(),
        buffered.upstream() == content,
        mapped.region() == content,
        mapped.position() == 0,
        over_direct.pending() == direct.remaining(),
        over_buffered.pending() == buffered.remaining(),
        over_mapped.pending() == mapped.remaining(),
    ensures
        direct.remaining() == content,
        buffered.remaining() == content,
        mapped.remaining() == content,
        over_direct.tokens() == tokens(content),
        over_buffered.tokens() == tokens(content),
        over_mapped.tokens() == tokens(content),
{
}

/// Two fresh buffered sources over the same content have the same bytes to
/// yield, and give the same tokens, whatever their capacities, if each is
/// at least one byte.
pub proof fn lemma_capacity_is_immaterial<R1: Readable, R2: Readable>(
    a: BufferedReader<'_, R1>,
    b: BufferedReader<'_, R2>,
)
    requires
        a.capacity() >= 1,
        b.capacity() >= 1,
        a.buffered() == Seq::<u8>::empty(),
        b.buffered() == Seq::<u8>::empty(),
        a.upstream() == b.upstream(),
    ensures
        a.remaining() == b.remaining(),
        tokens(a.remaining()) == tokens(b.remaining()),
{
}

/// Lexers with the same bytes to scan give the same tokens, whichever
/// sources they stand on.
pub proof fn lemma_same_input_same_tokens<S1: ByteSource, S2: ByteSource>(
    a: Lexer<S1>,
    b: Lexer<S2>,
)
    requires
        a.pending() == b.pending(),
    ensures
        a.tokens() == b.tokens(),
{
}

} // verus!
