use byte_lexer::grammar::{digit, ident_continue, ident_start, whitespace};
use byte_lexer::token::ascii_text;

#[test]
fn digits_are_0_to_9() {
    for b in 0u8..=255 {
        assert_eq!(digit(b), b.is_ascii_digit());
    }
    assert!(digit(b'0'));
    assert!(digit(b'9'));
    assert!(!digit(b'/'));
    assert!(!digit(b':'));
}

#[test]
fn identifiers_start_with_a_letter_or_underscore() {
    for b in 0u8..=255 {
        assert_eq!(ident_start(b), b.is_ascii_alphabetic() || b == b'_');
    }
    assert!(ident_start(b'_'));
    assert!(!ident_start(b'0'));
}

#[test]
fn identifiers_continue_with_letters_digits_and_underscores() {
    for b in 0u8..=255 {
        assert_eq!(ident_continue(b), b.is_ascii_alphanumeric() || b == b'_');
    }
}

#[test]
fn whitespace_is_the_ascii_class() {
    for b in 0u8..=255 {
        assert_eq!(whitespace(b), b.is_ascii_whitespace());
    }
    assert!(whitespace(b' '));
    assert!(whitespace(0x0c));
    assert!(!whitespace(0x0b));
}

#[test]
fn ascii_text_spells_each_byte() {
    assert_eq!(ascii_text(&b"abc_09".to_vec()), "abc_09");
    assert_eq!(ascii_text(&Vec::new()), "");
    assert_eq!(ascii_text(&vec![b'Z']), "Z");
}
