use asm8::lex::{is_ident_char, is_ident_start, tokenize, Token};
use asm8::span::Span;

#[test]
fn hex_literal_one_digit() {
    let toks = tokenize("$5").unwrap();
    assert_eq!(toks.len(), 1);
    assert_eq!(toks[0].data, Token::Literal(5));
    assert_eq!(toks[0].span, Span { lo: 0, hi: 2 });
}

#[test]
fn hex_literal_two_digits_boundary() {
    let toks = tokenize("$FF").unwrap();
    assert_eq!(toks.len(), 1);
    assert_eq!(toks[0].data, Token::Literal(255));
    assert_eq!(toks[0].span, Span { lo: 0, hi: 3 });
}

#[test]
fn hex_literal_leading_zero_three_digits_succeeds() {
    // The numeric value decides, not the digit count.
    let toks = tokenize("$0FF").unwrap();
    assert_eq!(toks.len(), 1);
    assert_eq!(toks[0].data, Token::Literal(255));
    let toks = tokenize("$0000001a").unwrap();
    assert_eq!(toks[0].data, Token::Literal(0x1A));
}

#[test]
fn hex_literal_lowercase_and_mixed() {
    let toks = tokenize("$a $B $cD").unwrap();
    assert_eq!(toks[0].data, Token::Literal(10));
    assert_eq!(toks[1].data, Token::Literal(11));
    assert_eq!(toks[2].data, Token::Literal(0xCD));
}

#[test]
fn hex_literal_overflow_fails() {
    let d = tokenize("$100").unwrap_err();
    assert_eq!(d.message().as_str(), "this literal's value overflows `u8`");
    assert_eq!(d.span(), Some(Span { lo: 0, hi: 4 }));
    let notes = d.notes();
    assert_eq!(notes.len(), 2);
    assert_eq!(notes[0], "only values between 0 and 255 (`$FF`) are allowed");
    assert_eq!(notes[1], "numbers are specified in hexadecimal");
}

#[test]
fn empty_literal_fails_distinctly() {
    let d = tokenize("$").unwrap_err();
    assert_eq!(d.message().as_str(), "empty literal");
    assert_eq!(d.span(), Some(Span { lo: 0, hi: 1 }));
    assert!(d.notes().is_empty());
}

#[test]
fn blank_and_comment_lines_lex_empty() {
    assert!(tokenize("").unwrap().is_empty());
    assert!(tokenize("   \t ").unwrap().is_empty());
    assert!(tokenize("; a comment").unwrap().is_empty());
    assert!(tokenize("  \t; trailing comment").unwrap().is_empty());
}

#[test]
fn comment_ends_line_after_tokens() {
    let toks = tokenize("ldi $5 ; load five").unwrap();
    assert_eq!(toks.len(), 2);
    assert_eq!(toks[0].data, Token::Ident("ldi".to_string()));
    assert_eq!(toks[1].data, Token::Literal(5));
}

#[test]
fn single_character_tokens_and_spans() {
    let toks = tokenize(".foo:").unwrap();
    assert_eq!(toks.len(), 3);
    assert_eq!(toks[0].data, Token::Dot);
    assert_eq!(toks[0].span, Span { lo: 0, hi: 1 });
    assert_eq!(toks[1].data, Token::Ident("foo".to_string()));
    assert_eq!(toks[1].span, Span { lo: 1, hi: 4 });
    assert_eq!(toks[2].data, Token::Colon);
    assert_eq!(toks[2].span, Span { lo: 4, hi: 5 });
}

#[test]
fn bracket_tokens() {
    let toks = tokenize("[ ]").unwrap();
    assert_eq!(toks[0].data, Token::BracketOpen);
    assert_eq!(toks[0].span, Span { lo: 0, hi: 1 });
    assert_eq!(toks[1].data, Token::BracketClose);
    assert_eq!(toks[1].span, Span { lo: 2, hi: 3 });
}

#[test]
fn invalid_start_character_fails() {
    let d = tokenize("@").unwrap_err();
    assert_eq!(d.message().as_str(), "invalid token start character");
    assert_eq!(d.span(), Some(Span { lo: 0, hi: 1 }));
}

#[test]
fn digit_cannot_start_a_token() {
    let d = tokenize("1abc").unwrap_err();
    assert_eq!(d.message().as_str(), "invalid token start character");
    assert_eq!(d.span(), Some(Span { lo: 0, hi: 1 }));
}

#[test]
fn unicode_idents_and_byte_exact_spans() {
    // 'ä' is alphabetic and two bytes wide; spans count bytes.
    let toks = tokenize("ä $1").unwrap();
    assert_eq!(toks.len(), 2);
    assert_eq!(toks[0].data, Token::Ident("ä".to_string()));
    assert_eq!(toks[0].span, Span { lo: 0, hi: 2 });
    assert_eq!(toks[1].data, Token::Literal(1));
    assert_eq!(toks[1].span, Span { lo: 3, hi: 5 });
}

#[test]
fn underscore_starts_an_ident() {
    let toks = tokenize("_x1").unwrap();
    assert_eq!(toks[0].data, Token::Ident("_x1".to_string()));
    assert!(is_ident_start('_'));
    assert!(is_ident_start('a'));
    assert!(!is_ident_start('1'));
    assert!(is_ident_char('1'));
    assert!(!is_ident_char('_'));
}

#[test]
fn span_new_and_len() {
    let sp = Span::new(3, 7);
    assert_eq!(sp.lo, 3);
    assert_eq!(sp.hi, 7);
    assert_eq!(sp.len(), 4);
    assert_eq!(Span::new(2, 2).len(), 0);
}
