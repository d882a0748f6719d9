use byte_lexer::{
    make_box, BufferedReader, ByteReader, ByteSource, Failing, Lexer, MMapReader, Memory,
    NumberOverflow, Token,
};

fn ident(text: &str) -> Token {
    Token::Identifier(text.to_string())
}

fn direct(input: &[u8]) -> Vec<Token> {
    Lexer::new(ByteReader::new(Memory::new(input))).collect()
}

fn buffered(input: &[u8], capacity: usize) -> Vec<Token> {
    let mut buffer = make_box(capacity);
    Lexer::new(BufferedReader::new(Memory::new(input), &mut buffer)).collect()
}

fn mapped(input: &[u8]) -> Vec<Token> {
    Lexer::new(MMapReader::new(input)).collect()
}

/// Checks that every kind of source gives `expected` for `input`.
fn check_all(input: &[u8], expected: Vec<Token>) {
    assert_eq!(direct(input), expected);
    assert_eq!(mapped(input), expected);
    for capacity in [1usize, 2, 3, 4, 7, 16, 1024] {
        assert_eq!(buffered(input, capacity), expected);
    }
}

#[test]
fn identifiers_and_numbers_separated_by_spaces() {
    check_all(b"abc 123 _x9", vec![ident("abc"), Token::Number(123), ident("_x9")]);
}

#[test]
fn digit_run_stops_at_the_first_letter() {
    check_all(b"12a", vec![Token::Number(12), ident("a")]);
}

#[test]
fn unknown_byte_ends_the_sequence() {
    check_all(b"ab@cd", vec![ident("ab")]);
}

#[test]
fn unknown_byte_at_the_start_gives_nothing() {
    check_all(b"@ab", vec![]);
    check_all(b"   #", vec![]);
    check_all(b"-1", vec![]);
}

#[test]
fn unknown_byte_is_never_consumed() {
    let mut lexer = Lexer::new(MMapReader::new(b"ab@cd"));
    assert_eq!(lexer.next(), Some(ident("ab")));
    assert_eq!(lexer.next(), None);
    assert_eq!(lexer.next(), None);
    assert_eq!(lexer.try_next(), Ok(None));
    assert_eq!(lexer.collect(), vec![]);
}

#[test]
fn empty_input_has_no_tokens() {
    check_all(b"", vec![]);
    assert_eq!(buffered(b"", 0), vec![]);
}

#[test]
fn whitespace_only_input_has_no_tokens() {
    check_all(b" ", vec![]);
    check_all(b" \t\n\x0c\r  \n", vec![]);
}

#[test]
fn every_whitespace_byte_separates() {
    check_all(b"a b\tc\nd\x0ce\rf", vec![
        ident("a"),
        ident("b"),
        ident("c"),
        ident("d"),
        ident("e"),
        ident("f"),
    ]);
}

#[test]
fn vertical_tab_is_no_whitespace() {
    check_all(b"a\x0bb", vec![ident("a")]);
}

#[test]
fn bytes_above_ascii_end_the_sequence() {
    check_all(b"caf\xc3\xa9 x", vec![ident("caf")]);
    check_all(b"\x80", vec![]);
    check_all(b"1\xff2", vec![Token::Number(1)]);
}

#[test]
fn trailing_identifier_is_a_whole_token() {
    check_all(b"foo bar", vec![ident("foo"), ident("bar")]);
    check_all(b"x", vec![ident("x")]);
    check_all(b"12 \n lo_ng9", vec![Token::Number(12), ident("lo_ng9")]);
}

#[test]
fn trailing_number_is_a_whole_token() {
    check_all(b"x 42", vec![ident("x"), Token::Number(42)]);
    check_all(b"7", vec![Token::Number(7)]);
}

#[test]
fn trailing_whitespace_adds_nothing() {
    check_all(b"x 42 \n", vec![ident("x"), Token::Number(42)]);
}

#[test]
fn identifier_may_hold_digits_and_underscores() {
    check_all(b"_ __ a1 A_9z Zz0", vec![
        ident("_"),
        ident("__"),
        ident("a1"),
        ident("A_9z"),
        ident("Zz0"),
    ]);
}

#[test]
fn identifier_bounds_of_the_letter_ranges() {
    check_all(b"AZaz", vec![ident("AZaz")]);
    // The bytes next to the letter ranges belong to no token.
    check_all(b"a[", vec![ident("a")]);
    check_all(b"a`", vec![ident("a")]);
    check_all(b"a{", vec![ident("a")]);
    check_all(b"a:", vec![ident("a")]);
    check_all(b"a/", vec![ident("a")]);
    check_all(b"@", vec![]);
}

#[test]
fn number_values_are_read_in_base_ten() {
    check_all(b"0 7 10 007 1234567890", vec![
        Token::Number(0),
        Token::Number(7),
        Token::Number(10),
        Token::Number(7),
        Token::Number(1234567890),
    ]);
}

#[test]
fn number_values_agree_with_the_standard_parser() {
    for text in ["1", "19", "305", "65536", "4294967296", "999999999999999999"] {
        let expected: i64 = text.parse().unwrap();
        check_all(text.as_bytes(), vec![Token::Number(expected)]);
    }
}

#[test]
fn largest_number_is_accepted() {
    check_all(b"9223372036854775807", vec![Token::Number(i64::MAX)]);
    check_all(b"0000000000000000000009223372036854775807", vec![Token::Number(i64::MAX)]);
}

#[test]
fn number_above_the_largest_is_an_overflow() {
    let mut lexer = Lexer::new(MMapReader::new(b"9223372036854775808"));
    assert_eq!(lexer.try_next(), Err(NumberOverflow));
    let mut lexer = Lexer::new(ByteReader::new(Memory::new(b"a 99999999999999999999999 b")));
    assert_eq!(lexer.try_next(), Ok(Some(ident("a"))));
    assert_eq!(lexer.try_next(), Err(NumberOverflow));
}

#[test]
fn numbers_just_above_the_largest_overflow() {
    for text in [
        "9223372036854775808",
        "9223372036854775810",
        "10000000000000000000",
        "92233720368547758070",
        "009223372036854775808",
    ] {
        let mut lexer = Lexer::new(MMapReader::new(text.as_bytes()));
        assert_eq!(lexer.try_next(), Err(NumberOverflow));
        assert_eq!(lexer.try_next(), Ok(None));
    }
}

#[test]
fn overflowing_run_is_consumed_whole() {
    let mut buffer = make_box(4);
    let input = b"18446744073709551616x 5";
    let mut lexer = Lexer::new(BufferedReader::new(Memory::new(input), &mut buffer));
    assert_eq!(lexer.try_next(), Err(NumberOverflow));
    assert_eq!(lexer.try_next(), Ok(Some(ident("x"))));
    assert_eq!(lexer.try_next(), Ok(Some(Token::Number(5))));
    assert_eq!(lexer.try_next(), Ok(None));
}

#[test]
fn try_next_agrees_with_next() {
    let input = b"alpha 1 beta 22 ~ gamma";
    let mut a = Lexer::new(MMapReader::new(input));
    let mut b = Lexer::new(MMapReader::new(input));
    loop {
        let x = a.next();
        let y = b.try_next();
        assert_eq!(Ok(&x), y.as_ref());
        if x.is_none() {
            break;
        }
    }
}

#[test]
fn next_gives_the_tokens_one_by_one() {
    let mut lexer = Lexer::new(ByteReader::new(Memory::new(b"  one 2\tthree")));
    assert_eq!(lexer.next(), Some(ident("one")));
    assert_eq!(lexer.next(), Some(Token::Number(2)));
    assert_eq!(lexer.next(), Some(ident("three")));
    assert_eq!(lexer.next(), None);
    assert_eq!(lexer.next(), None);
}

#[test]
fn collect_gives_what_is_left() {
    let mut lexer = Lexer::new(MMapReader::new(b"a b c d"));
    assert_eq!(lexer.next(), Some(ident("a")));
    assert_eq!(lexer.next(), Some(ident("b")));
    assert_eq!(lexer.collect(), vec![ident("c"), ident("d")]);
}

#[test]
fn fresh_instances_reproduce_the_sequence() {
    let input = b"let x1 = 10";
    let first = mapped(input);
    let second = mapped(input);
    assert_eq!(first, vec![ident("let"), ident("x1")]);
    assert_eq!(first, second);
    assert_eq!(direct(input), direct(input));
    assert_eq!(buffered(input, 3), buffered(input, 3));
}

#[test]
fn lexer_takes_a_source_that_was_pulled_from() {
    let mut source = MMapReader::new(b"skip me");
    assert_eq!(source.next(), Some(b's'));
    assert_eq!(source.next(), Some(b'k'));
    assert_eq!(Lexer::new(source).collect(), vec![ident("ip"), ident("me")]);
}

#[test]
fn failure_of_the_resource_is_the_end_of_the_input() {
    let input = b"abc 123 _x9";
    let expected = vec![ident("abc"), Token::Number(123), ident("_x9")];
    assert_eq!(Lexer::new(ByteReader::new(Failing::new(Memory::new(input)))).collect(), expected);
    for capacity in [1usize, 2, 5, 64] {
        let mut buffer = make_box(capacity);
        let source = BufferedReader::new(Failing::new(Memory::new(input)), &mut buffer);
        assert_eq!(Lexer::new(source).collect(), expected);
    }
}

#[test]
fn token_text_is_spelled_byte_for_byte() {
    let tokens = mapped(b"Hello_World42");
    assert_eq!(tokens.len(), 1);
    match &tokens[0] {
        Token::Identifier(text) => {
            assert_eq!(text.as_bytes(), b"Hello_World42");
            assert_eq!(text.len(), 13);
        },
        Token::Number(_) => panic!("an identifier was expected"),
    }
}
